//! The bounded pool of output stream queues — the real-time scheduling
//! core.
//!
//! Each slot pairs a hardware output stream with a FIFO sample queue.  The
//! producer decides which queue newly mixed audio joins; each stream's own
//! hardware callback drains its queue on its own cadence, padding with
//! silence on underrun.  This module holds the pool's bookkeeping and the
//! callback's drain logic as verified code; building, playing and pausing
//! the platform streams, and the locking around shared queues, live with
//! the unverified host around the library.

use vstd::prelude::*;

verus! {

use crate::mixer::frame_views;
use crate::mixer::lemma_frame_views_push;
use crate::mixer::lemma_frame_views_update;

/// The pool never holds more stream slots than this.
pub const MAX_ALLOWED_QUES: usize = 7;

/// Stands for one hardware output stream: all the scheduling logic ever
/// reads of a stream is whether it has been told to play or to pause.
#[derive(Debug, Clone, Copy, PartialEq, Eq, Structural)]
pub struct StreamHandle {
    pub playing: bool,
}

/// What the pool looks like in specifications: the samples every queue
/// holds, and every stream's play state, slot by slot.
pub struct PoolView {
    pub ques: Seq<Seq<i64>>,
    pub playing: Seq<bool>,
}

/// The bounded pool of stream slots.
pub struct DefaultBufferQueManager {
    buffer_ques: Vec<Vec<i64>>,
    streams: Vec<StreamHandle>,
}

/// Some queue holds no samples at all.
pub open spec fn has_empty_que(ques: Seq<Seq<i64>>) -> bool {
    exists|i: int| 0 <= i < ques.len() && #[trigger] ques[i].len() == 0
}

/// `i` is the lowest index whose queue is empty.
pub open spec fn is_first_empty_que(ques: Seq<Seq<i64>>, i: int) -> bool {
    &&& 0 <= i < ques.len()
    &&& ques[i].len() == 0
    &&& forall|j: int| 0 <= j < i ==> #[trigger] ques[j].len() > 0
}

/// `i` is the index of the queue holding the fewest samples, ties broken
/// by the lowest index.
pub open spec fn is_shortest_que(ques: Seq<Seq<i64>>, i: int) -> bool {
    &&& 0 <= i < ques.len()
    &&& forall|j: int| 0 <= j < ques.len() ==> ques[i].len() <= #[trigger] ques[j].len()
    &&& forall|j: int| 0 <= j < i ==> #[trigger] ques[j].len() > ques[i].len()
}

/// How one call to [`DefaultBufferQueManager::add_frames_to_que`] ended:
/// either a fresh slot was created (the host must build and start the
/// hardware stream for it), or the samples joined an existing queue.
pub enum EnqueueAction {
    CreatedStream { index: usize },
    Appended { index: usize },
}

/// How one enqueue changes the pool.  A stream is created only for an
/// empty pool, or when no queue is empty and the pool has headroom; the
/// new queue is seeded with exactly the enqueued samples.  Otherwise the
/// samples are appended whole to exactly one existing queue: the first
/// empty one, or — with the pool at its maximum and no queue empty — the
/// one holding the fewest samples.
pub open spec fn spec_enqueue_post(
    pre: PoolView,
    post: PoolView,
    frames: Seq<i64>,
    act: EnqueueAction,
) -> bool {
    match act {
        EnqueueAction::CreatedStream { index } => {
            &&& pre.ques.len() == 0 || (!has_empty_que(pre.ques) && pre.ques.len()
                < MAX_ALLOWED_QUES)
            &&& index == pre.ques.len()
            &&& post.ques == pre.ques.push(frames)
            &&& post.playing == pre.playing.push(true)
        },
        EnqueueAction::Appended { index } => {
            &&& post.ques == pre.ques.update(index as int, pre.ques[index as int] + frames)
            &&& post.playing == pre.playing
            &&& (is_first_empty_que(pre.ques, index as int) || (!has_empty_que(pre.ques)
                && pre.ques.len() >= MAX_ALLOWED_QUES && is_shortest_que(pre.ques, index as int)))
        },
    }
}

/// An enqueue can only grow the pool one slot at a time and only while
/// it is below its maximum: however many enqueues run, a pool within
/// its bound stays within it.
pub proof fn lemma_enqueue_preserves_bound(
    pre: PoolView,
    post: PoolView,
    frames: Seq<i64>,
    act: EnqueueAction,
)
    requires
        spec_enqueue_post(pre, post, frames, act),
        pre.ques.len() <= MAX_ALLOWED_QUES,
    ensures
        post.ques.len() <= MAX_ALLOWED_QUES,
{
}

/// An enqueue never drops samples: exactly one queue receives them,
/// whole and at its back, and every other queue is left as it was.
pub proof fn lemma_enqueue_reaches_exactly_one_que(
    pre: PoolView,
    post: PoolView,
    frames: Seq<i64>,
    act: EnqueueAction,
)
    requires
        spec_enqueue_post(pre, post, frames, act),
    ensures
        match act {
            EnqueueAction::CreatedStream { index } => {
                &&& post.ques.len() == pre.ques.len() + 1
                &&& post.ques[index as int] == frames
                &&& forall|j: int| 0 <= j < pre.ques.len() ==> #[trigger] post.ques[j] == pre.ques[j]
            },
            EnqueueAction::Appended { index } => {
                &&& post.ques.len() == pre.ques.len()
                &&& index < pre.ques.len()
                &&& post.ques[index as int] == pre.ques[index as int] + frames
                &&& forall|j: int|
                    0 <= j < pre.ques.len() && j != index ==> #[trigger] post.ques[j]
                        == pre.ques[j]
            },
        },
{
}

impl View for DefaultBufferQueManager {
    type V = PoolView;

    closed spec fn view(&self) -> PoolView {
        PoolView {
            ques: frame_views(self.buffer_ques@),
            playing: self.streams@.map_values(|s: StreamHandle| s.playing),
        }
    }
}

/// Appends every sample of `frames` to the back of `que`, in order.
fn extend_que(que: &mut Vec<i64>, frames: &Vec<i64>)
    ensures
        final(que)@ == old(que)@ + frames@,
{
    let mut k: usize = 0;
    while k < frames.len()
        invariant
            k <= frames@.len(),
            que@ == old(que)@ + frames@.take(k as int),
        decreases frames@.len() - k,
    {
        que.push(frames[k]);
        proof {
            assert(old(que)@ + frames@.take(k as int) + seq![frames@[k as int]] =~= old(que)@
                + frames@.take(k as int + 1));
        }
        k = k + 1;
    }
    proof {
        assert(frames@.take(frames@.len() as int) =~= frames@);
    }
}

impl DefaultBufferQueManager {
    /// Every queue belongs to exactly one stream slot, and the pool never
    /// exceeds its maximum slot count.
    pub open spec fn wf(&self) -> bool {
        &&& self@.ques.len() == self@.playing.len()
        &&& self@.ques.len() <= MAX_ALLOWED_QUES
    }

    /// A pool that starts with no streams and no queues.
    pub fn new() -> (manager: DefaultBufferQueManager)
        ensures
            manager.wf(),
            manager@.ques.len() == 0,
            manager@.playing.len() == 0,
    {
        DefaultBufferQueManager { streams: Vec::new(), buffer_ques: Vec::new() }
    }

    /// Registers a fresh stream slot whose queue starts out holding
    /// exactly `frames`, and returns its index.  The host builds the
    /// hardware stream for the new slot, starts it playing, and grants
    /// the brief startup grace pause; a slot is registered only for a
    /// stream the host could build, so a failed build never leaves a
    /// half-registered slot behind.
    fn create_stream_and_add_to_que(&mut self, frames: Vec<i64>) -> (index: usize)
        requires
            old(self).wf(),
            old(self)@.ques.len() < MAX_ALLOWED_QUES,
        ensures
            final(self).wf(),
            index == old(self)@.ques.len(),
            final(self)@.ques == old(self)@.ques.push(frames@),
            final(self)@.playing == old(self)@.playing.push(true),
    {
        let ghost pre_ques = self.buffer_ques@;
        let ghost pre_streams = self.streams@;
        let index = self.buffer_ques.len();
        self.buffer_ques.push(frames);
        self.streams.push(StreamHandle { playing: true });
        proof {
            lemma_frame_views_push(pre_ques, frames);
            assert(self.streams@.map_values(|s: StreamHandle| s.playing) =~= pre_streams.map_values(
                |s: StreamHandle| s.playing,
            ).push(true));
        }
        index
    }

    /// Scans the queues in slot order for one that is currently empty and
    /// reports the first such index, or nothing when every queue still
    /// holds samples.
    fn find_first_available_que(&self) -> (found: Option<usize>)
        ensures
            match found {
                Some(i) => is_first_empty_que(self@.ques, i as int),
                None => !has_empty_que(self@.ques),
            },
    {
        let mut i: usize = 0;
        while i < self.buffer_ques.len()
            invariant
                i <= self@.ques.len(),
                self@.ques.len() == self.buffer_ques@.len(),
                forall|j: int| 0 <= j < i ==> #[trigger] self@.ques[j].len() > 0,
            decreases self.buffer_ques@.len() - i,
        {
            if self.buffer_ques[i].is_empty() {
                return Some(i);
            }
            i = i + 1;
        }
        None
    }

    /// Appends `frames` to the queue currently holding the fewest
    /// samples, ties broken by the lowest index, and returns that index.
    fn add_stream_to_shortest_que(&mut self, frames: Vec<i64>) -> (index: usize)
        requires
            old(self).wf(),
            old(self)@.ques.len() > 0,
        ensures
            final(self).wf(),
            is_shortest_que(old(self)@.ques, index as int),
            final(self)@.ques == old(self)@.ques.update(
                index as int,
                old(self)@.ques[index as int] + frames@,
            ),
            final(self)@.playing == old(self)@.playing,
    {
        let ghost pre_ques = self.buffer_ques@;
        let mut current_index: usize = 0;
        let mut current_length: usize = self.buffer_ques[0].len();
        let mut i: usize = 1;
        while i < self.buffer_ques.len()
            invariant
                1 <= i <= self@.ques.len(),
                self@.ques.len() == self.buffer_ques@.len(),
                current_index < i,
                current_length == self@.ques[current_index as int].len(),
                forall|j: int|
                    0 <= j < i ==> current_length <= #[trigger] self@.ques[j].len(),
                forall|j: int|
                    0 <= j < current_index ==> #[trigger] self@.ques[j].len() > current_length,
            decreases self.buffer_ques@.len() - i,
        {
            if self.buffer_ques[i].len() < current_length {
                current_length = self.buffer_ques[i].len();
                current_index = i;
            }
            i = i + 1;
        }
        let que = &mut self.buffer_ques[current_index];
        extend_que(que, &frames);
        proof {
            lemma_frame_views_update(
                pre_ques,
                current_index as int,
                self.buffer_ques@[current_index as int],
            );
        }
        current_index
    }

    /// Accepts newly produced audio and guarantees it reaches exactly one
    /// queue: an empty pool gets its first stream; otherwise the first
    /// empty queue is reused; otherwise a fresh stream is created while
    /// the pool has headroom; at the maximum, the samples join the queue
    /// holding the fewest samples.  Samples are never dropped.
    pub fn add_frames_to_que(&mut self, frames: Vec<i64>) -> (act: EnqueueAction)
        requires
            old(self).wf(),
        ensures
            final(self).wf(),
            spec_enqueue_post(old(self)@, final(self)@, frames@, act),
    {
        if self.streams.is_empty() {
            proof {
                assert(self@.playing.len() == self.streams@.len());
            }
            let index = self.create_stream_and_add_to_que(frames);
            return EnqueueAction::CreatedStream { index };
        }
        proof {
            assert(self@.playing.len() == self.streams@.len());
        }
        match self.find_first_available_que() {
            Some(index) => {
                let ghost pre_ques = self.buffer_ques@;
                let que = &mut self.buffer_ques[index];
                extend_que(que, &frames);
                proof {
                    lemma_frame_views_update(
                        pre_ques,
                        index as int,
                        self.buffer_ques@[index as int],
                    );
                }
                EnqueueAction::Appended { index }
            },
            None => {
                if self.streams.len() < MAX_ALLOWED_QUES {
                    let index = self.create_stream_and_add_to_que(frames);
                    EnqueueAction::CreatedStream { index }
                } else {
                    let index = self.add_stream_to_shortest_que(frames);
                    EnqueueAction::Appended { index }
                }
            },
        }
    }

    /// Marks every managed stream paused.  Idempotent; the queues keep
    /// their samples.  The host pauses the hardware streams in step.
    pub fn pause_all_streams(&mut self)
        ensures
            final(self)@.ques == old(self)@.ques,
            final(self)@.playing.len() == old(self)@.playing.len(),
            forall|i: int|
                0 <= i < final(self)@.playing.len() ==> !(#[trigger] final(self)@.playing[i]),
    {
        let mut i: usize = 0;
        while i < self.streams.len()
            invariant
                i <= self.streams@.len(),
                self.streams@.len() == old(self).streams@.len(),
                self.buffer_ques@ == old(self).buffer_ques@,
                forall|j: int| 0 <= j < i ==> !(#[trigger] self.streams@[j].playing),
            decreases self.streams@.len() - i,
        {
            self.streams.set(i, StreamHandle { playing: false });
            i = i + 1;
        }
        proof {
            assert(self@.playing.len() == self.streams@.len());
        }
    }

    /// Drops every stream and queue, resetting the pool to empty.  A hard
    /// reset: any samples still queued are discarded.
    pub fn clear_all(&mut self)
        ensures
            final(self).wf(),
            final(self)@.ques.len() == 0,
            final(self)@.playing.len() == 0,
    {
        self.buffer_ques = Vec::new();
        self.streams = Vec::new();
    }

    /// How many stream slots the pool currently manages.
    pub fn stream_count(&self) -> (n: usize)
        ensures
            n == self@.ques.len(),
    {
        proof {
            assert(self@.ques.len() == self.buffer_ques@.len());
        }
        self.buffer_ques.len()
    }

    /// How many samples the queue of slot `index` currently holds.
    pub fn que_len(&self, index: usize) -> (n: usize)
        requires
            index < self@.ques.len(),
        ensures
            n == self@.ques[index as int].len(),
    {
        self.buffer_ques[index].len()
    }

    /// The sample at position `at` of the queue of slot `index`.
    pub fn que_sample(&self, index: usize, at: usize) -> (sample: i64)
        requires
            index < self@.ques.len(),
            at < self@.ques[index as int].len(),
        ensures
            sample == self@.ques[index as int][at as int],
    {
        self.buffer_ques[index][at]
    }

    /// Whether the stream of slot `index` is marked playing.
    pub fn is_playing(&self, index: usize) -> (playing: bool)
        requires
            index < self@.playing.len(),
        ensures
            playing == self@.playing[index as int],
    {
        proof {
            assert(self@.playing.len() == self.streams@.len());
        }
        self.streams[index].playing
    }

    /// The model counterpart of one hardware callback invocation on slot
    /// `index`: removes up to `frame_size` samples from the front of that
    /// queue and hands them out, fewer when the queue holds less.
    pub fn take_frames(&mut self, index: usize, frame_size: usize) -> (frame: Vec<i64>)
        requires
            old(self).wf(),
            index < old(self)@.ques.len(),
        ensures
            final(self).wf(),
            final(self)@.playing == old(self)@.playing,
            old(self)@.ques[index as int].len() > frame_size ==> frame@
                == old(self)@.ques[index as int].take(frame_size as int) && final(self)@.ques
                == old(self)@.ques.update(
                index as int,
                old(self)@.ques[index as int].skip(frame_size as int),
            ),
            old(self)@.ques[index as int].len() <= frame_size ==> frame@
                == old(self)@.ques[index as int] && final(self)@.ques == old(self)@.ques.update(
                index as int,
                Seq::empty(),
            ),
    {
        let ghost pre_ques = self.buffer_ques@;
        let que = &mut self.buffer_ques[index];
        let frame = next_frame(que, frame_size);
        proof {
            lemma_frame_views_update(pre_ques, index as int, self.buffer_ques@[index as int]);
            if frame_views(pre_ques)[index as int].len() <= frame_size {
                assert(self.buffer_ques@[index as int]@ =~= Seq::<i64>::empty());
            }
        }
        frame
    }
}

/// Removes the next chunk of samples from the front of a stream's queue:
/// the first `frame_size` samples when the queue holds more than that,
/// everything it holds otherwise.  Never blocks and never waits for more
/// data.
pub fn next_frame(que: &mut Vec<i64>, frame_size: usize) -> (frame: Vec<i64>)
    ensures
        old(que)@.len() > frame_size ==> frame@ == old(que)@.take(frame_size as int)
            && final(que)@ == old(que)@.skip(frame_size as int),
        old(que)@.len() <= frame_size ==> frame@ == old(que)@ && final(que)@.len() == 0,
{
    if que.len() > frame_size {
        let mut rest = que.split_off(frame_size);
        core::mem::swap(que, &mut rest);
        rest
    } else {
        let mut drained: Vec<i64> = Vec::new();
        core::mem::swap(que, &mut drained);
        drained
    }
}

/// Fills the whole output buffer from the frame the queue yielded: sample
/// `i` of the buffer becomes `frame[i]`, and every position past the end
/// of the frame becomes silence (zero amplitude).  A starved callback
/// thus plays silence instead of stalling.
pub fn write_audio(data: &mut Vec<i64>, frame: &Vec<i64>)
    ensures
        final(data)@.len() == old(data)@.len(),
        forall|i: int|
            0 <= i < final(data)@.len() ==> #[trigger] final(data)@[i] == (if i < frame@.len() {
                frame@[i]
            } else {
                0
            }),
{
    let buffer_size = data.len();
    let mut i: usize = 0;
    while i < buffer_size
        invariant
            i <= buffer_size,
            data@.len() == buffer_size,
            forall|j: int|
                0 <= j < i ==> #[trigger] data@[j] == (if j < frame@.len() {
                    frame@[j]
                } else {
                    0
                }),
        decreases buffer_size - i,
    {
        if i < frame.len() {
            data.set(i, frame[i]);
        } else {
            data.set(i, 0);
        }
        i = i + 1;
    }
}

/// A producer scans the pool without blocking: each entry of `que_lens`
/// is `None` when that queue's lock could not be taken at once, and
/// `Some(n)` when the queue was seen holding `n` samples.  Queue `i` was
/// seen empty:
pub open spec fn observed_empty(que_lens: Seq<Option<usize>>, i: int) -> bool {
    0 <= i < que_lens.len() && que_lens[i] == Some(0usize)
}

/// Some queue was seen empty.
pub open spec fn has_observed_empty(que_lens: Seq<Option<usize>>) -> bool {
    exists|i: int| #[trigger] observed_empty(que_lens, i)
}

/// `i` is the lowest index that was seen empty.
pub open spec fn is_first_observed_empty(que_lens: Seq<Option<usize>>, i: int) -> bool {
    &&& observed_empty(que_lens, i)
    &&& forall|j: int| 0 <= j < i ==> !observed_empty(que_lens, j)
}

/// `i` was seen holding no more samples than any other inspectable
/// queue, ties broken by the lowest index.
pub open spec fn is_shortest_observed(que_lens: Seq<Option<usize>>, i: int) -> bool {
    &&& 0 <= i < que_lens.len()
    &&& que_lens[i] is Some
    &&& forall|j: int|
        0 <= j < que_lens.len() && #[trigger] que_lens[j] is Some ==> que_lens[i]->0
            <= que_lens[j]->0
    &&& forall|j: int|
        0 <= j < i && #[trigger] que_lens[j] is Some ==> que_lens[j]->0 > que_lens[i]->0
}

/// No queue could be inspected this round.
pub open spec fn all_observed_busy(que_lens: Seq<Option<usize>>) -> bool {
    forall|j: int| 0 <= j < que_lens.len() ==> !(#[trigger] que_lens[j] is Some)
}

/// Where newly produced audio should go, given one non-blocking scan of
/// the pool.
pub enum QueSelection {
    NewStream,
    Existing(usize),
}

/// The producer-side scheduling decision over one snapshot of the pool:
/// with no streams at all, create one; else reuse the first queue seen
/// empty; else create a stream while the pool has headroom; at the
/// maximum, pick the inspectable queue seen holding the fewest samples.
/// A queue whose lock was busy is never the best candidate this round;
/// when every queue was busy the samples fall back to slot `0`, whose
/// lock the host then takes blockingly — audio is never dropped.
pub fn select_enqueue_target(que_lens: &Vec<Option<usize>>) -> (sel: QueSelection)
    ensures
        match sel {
            QueSelection::NewStream => {
                &&& que_lens@.len() == 0 || (!has_observed_empty(que_lens@) && que_lens@.len()
                    < MAX_ALLOWED_QUES)
            },
            QueSelection::Existing(i) => {
                &&& que_lens@.len() > 0
                &&& (is_first_observed_empty(que_lens@, i as int) || (!has_observed_empty(que_lens@)
                    && que_lens@.len() >= MAX_ALLOWED_QUES && (is_shortest_observed(
                    que_lens@,
                    i as int,
                ) || (all_observed_busy(que_lens@) && i == 0))))
            },
        },
{
    if que_lens.len() == 0 {
        return QueSelection::NewStream;
    }
    let mut i: usize = 0;
    while i < que_lens.len()
        invariant
            i <= que_lens@.len(),
            forall|j: int| 0 <= j < i ==> !observed_empty(que_lens@, j),
        decreases que_lens@.len() - i,
    {
        if let Some(len) = que_lens[i] {
            if len == 0 {
                proof {
                    assert(observed_empty(que_lens@, i as int));
                }
                return QueSelection::Existing(i);
            }
        }
        i = i + 1;
    }
    proof {
        assert(forall|j: int| 0 <= j < que_lens@.len() ==> !observed_empty(que_lens@, j));
    }
    if que_lens.len() < MAX_ALLOWED_QUES {
        return QueSelection::NewStream;
    }
    let mut found = false;
    let mut best_index: usize = 0;
    let mut best_len: usize = 0;
    let mut j: usize = 0;
    while j < que_lens.len()
        invariant
            j <= que_lens@.len(),
            !found ==> forall|t: int| 0 <= t < j ==> !(#[trigger] que_lens@[t] is Some),
            found ==> {
                &&& best_index < j
                &&& que_lens@[best_index as int] == Some(best_len)
                &&& forall|t: int|
                    0 <= t < j && #[trigger] que_lens@[t] is Some ==> best_len <= que_lens@[t]->0
                &&& forall|t: int|
                    0 <= t < best_index && #[trigger] que_lens@[t] is Some ==> que_lens@[t]->0
                        > best_len
            },
        decreases que_lens@.len() - j,
    {
        if let Some(len) = que_lens[j] {
            if !found || len < best_len {
                found = true;
                best_index = j;
                best_len = len;
            }
        }
        j = j + 1;
    }
    if found {
        QueSelection::Existing(best_index)
    } else {
        QueSelection::Existing(0)
    }
}

/// A callback asked for more samples than its queue held: the buffer it
/// writes is still full length, its first samples are exactly the queue's
/// contents, and the shortfall is silence.
pub proof fn lemma_underrun_pads_with_silence(
    que: Seq<i64>,
    requested: int,
    frame: Seq<i64>,
    out: Seq<i64>,
)
    requires
        que.len() < requested,
        frame == que,
        out.len() == requested,
        forall|i: int|
            0 <= i < out.len() ==> #[trigger] out[i] == (if i < frame.len() {
                frame[i]
            } else {
                0
            }),
    ensures
        out.len() == requested,
        forall|i: int| 0 <= i < que.len() ==> #[trigger] out[i] == que[i],
        forall|i: int| que.len() <= i < requested ==> #[trigger] out[i] == 0,
{
}

} // verus!
