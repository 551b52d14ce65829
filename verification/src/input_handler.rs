//! The input-coalescing layer.
//!
//! Raw key-down events accumulate in a mediator batch while a fixed
//! debounce window is open; when the window closes, the whole batch moves
//! atomically into the key storage that note resolution drains, so one
//! chord triggers one mixed sound instead of several overlapping ones.
//! The debounce timer itself and the single-flight guard around it run in
//! the unverified host; this module holds the state and its transitions.

use vstd::prelude::*;

verus! {

/// One raw key event, reduced to what intake reads of it: the text of
/// the logical key, whether the key was going down, and whether the
/// event came from keyboard auto-repeat.
#[derive(Debug, Clone, Copy, PartialEq, Eq, Structural)]
pub struct KeyEvent {
    pub logical_key: char,
    pub pressed: bool,
    pub repeat: bool,
}

/// What the input handler looks like in specifications.
pub struct InputHandlerView {
    pub note_keys: Seq<char>,
    pub octave_keys: Seq<char>,
    pub mediator: Seq<KeyEvent>,
    pub storage: Seq<KeyEvent>,
    pub octave_digit: Option<u8>,
}

/// Buffers accepted key events during a debounce window and hands each
/// window's batch downstream exactly once.
#[derive(Clone)]
pub struct InputHandler {
    accepted_note_keys: [char; 12],
    accepted_octave_keys: [char; 3],
    mediator_key_storage: Vec<KeyEvent>,
    key_storage: Vec<KeyEvent>,
    number_input_storage: Option<u8>,
}

impl View for InputHandler {
    type V = InputHandlerView;

    closed spec fn view(&self) -> InputHandlerView {
        InputHandlerView {
            note_keys: self.accepted_note_keys@,
            octave_keys: self.accepted_octave_keys@,
            mediator: self.mediator_key_storage@,
            storage: self.key_storage@,
            octave_digit: self.number_input_storage,
        }
    }
}

/// The decimal digit a key's text spells, if any.
pub open spec fn spec_digit_of(key: char) -> Option<u8> {
    match key {
        '0' => Some(0u8),
        '1' => Some(1u8),
        '2' => Some(2u8),
        '3' => Some(3u8),
        '4' => Some(4u8),
        '5' => Some(5u8),
        '6' => Some(6u8),
        '7' => Some(7u8),
        '8' => Some(8u8),
        '9' => Some(9u8),
        _ => None,
    }
}

/// Executable counterpart of [`spec_digit_of`].
pub fn digit_of(key: char) -> (digit: Option<u8>)
    ensures
        digit == spec_digit_of(key),
{
    match key {
        '0' => Some(0),
        '1' => Some(1),
        '2' => Some(2),
        '3' => Some(3),
        '4' => Some(4),
        '5' => Some(5),
        '6' => Some(6),
        '7' => Some(7),
        '8' => Some(8),
        '9' => Some(9),
        _ => None,
    }
}

/// Intake accepts an event only when its key is an accepted note or
/// octave key, the key was going down, and the event is not keyboard
/// auto-repeat.
pub open spec fn spec_accepts(s: InputHandlerView, e: KeyEvent) -> bool {
    &&& s.note_keys.contains(e.logical_key) || s.octave_keys.contains(e.logical_key)
    &&& !e.repeat
    &&& e.pressed
}

/// What one intake step does to the handler: an accepted note-key event
/// joins the pending batch; an accepted key that spells a digit selects
/// that octave; everything else — rejected keys, auto-repeat, releases —
/// leaves the state untouched and never enters the batch.
pub open spec fn spec_add_input(s: InputHandlerView, e: KeyEvent) -> InputHandlerView {
    if !spec_accepts(s, e) {
        s
    } else if s.note_keys.contains(e.logical_key) {
        InputHandlerView { mediator: s.mediator.push(e), ..s }
    } else {
        match spec_digit_of(e.logical_key) {
            Some(digit) => InputHandlerView { octave_digit: Some(digit), ..s },
            None => s,
        }
    }
}

/// What closing a debounce window does: the whole pending batch moves to
/// the back of the key storage, in arrival order, and the batch empties
/// for the next window.
pub open spec fn spec_flush(s: InputHandlerView) -> InputHandlerView {
    InputHandlerView { mediator: Seq::empty(), storage: s.storage + s.mediator, ..s }
}

impl InputHandler {
    /// The selected octave digit is always a single decimal digit.
    pub open spec fn wf(&self) -> bool {
        self@.octave_digit matches Some(digit) ==> digit <= 9
    }

    /// A handler that accepts the given note and octave keys, holds no
    /// pending or stored events, and starts on octave `3`.
    pub fn new(accepted_note_keys: [char; 12], accepted_octave_keys: [char; 3]) -> (handler:
        InputHandler)
        ensures
            handler.wf(),
            handler@.note_keys == accepted_note_keys@,
            handler@.octave_keys == accepted_octave_keys@,
            handler@.mediator.len() == 0,
            handler@.storage.len() == 0,
            handler@.octave_digit == Some(3u8),
    {
        InputHandler {
            accepted_note_keys,
            accepted_octave_keys,
            mediator_key_storage: Vec::new(),
            key_storage: Vec::new(),
            number_input_storage: Some(3),
        }
    }

    /// Whether the key is one of the accepted note keys.
    fn is_note_key(&self, key: char) -> (r: bool)
        ensures
            r == self@.note_keys.contains(key),
    {
        let mut i: usize = 0;
        while i < 12
            invariant
                i <= 12,
                forall|j: int| 0 <= j < i ==> self@.note_keys[j] != key,
            decreases 12 - i,
        {
            if self.accepted_note_keys[i] == key {
                proof {
                    assert(self@.note_keys[i as int] == key);
                }
                return true;
            }
            i = i + 1;
        }
        false
    }

    /// Whether the key is one of the accepted octave keys.
    fn is_octave_key(&self, key: char) -> (r: bool)
        ensures
            r == self@.octave_keys.contains(key),
    {
        let mut i: usize = 0;
        while i < 3
            invariant
                i <= 3,
                forall|j: int| 0 <= j < i ==> self@.octave_keys[j] != key,
            decreases 3 - i,
        {
            if self.accepted_octave_keys[i] == key {
                proof {
                    assert(self@.octave_keys[i as int] == key);
                }
                return true;
            }
            i = i + 1;
        }
        false
    }

    /// Whether intake lets a key through at all: it must be an accepted
    /// note key or an accepted octave key.
    pub fn validate_input(&self, key: char) -> (valid: bool)
        ensures
            valid == (self@.note_keys.contains(key) || self@.octave_keys.contains(key)),
    {
        self.is_note_key(key) || self.is_octave_key(key)
    }

    /// Takes one raw key event into the open debounce window, as
    /// [`spec_add_input`] describes: accepted note-key events join the
    /// pending batch, an accepted digit key selects the octave, and
    /// rejected or auto-repeat events change nothing.
    pub fn add_input_to_mediator(&mut self, event: KeyEvent)
        ensures
            final(self)@ == spec_add_input(old(self)@, event),
            old(self).wf() ==> final(self).wf(),
    {
        if self.validate_input(event.logical_key) && !event.repeat && event.pressed {
            if self.is_note_key(event.logical_key) {
                self.mediator_key_storage.push(event);
            } else {
                if let Some(digit) = digit_of(event.logical_key) {
                    self.number_input_storage = Some(digit);
                }
            }
        }
    }

    /// Closes the debounce window: the whole pending batch moves
    /// atomically to the key storage, in arrival order, and the batch is
    /// left empty for the next window.  The host fires this once per
    /// window, after the debounce delay, under its single-flight guard.
    pub fn move_input_from_mediator_to_storage(&mut self)
        ensures
            final(self)@ == spec_flush(old(self)@),
            final(self)@.storage == old(self)@.storage + old(self)@.mediator,
            final(self)@.mediator.len() == 0,
            old(self).wf() ==> final(self).wf(),
    {
        self.key_storage.append(&mut self.mediator_key_storage);
        proof {
            assert(self.mediator_key_storage@ =~= Seq::<KeyEvent>::empty());
        }
    }

    /// Drains the key storage: hands out everything a closed window has
    /// stored, in arrival order, leaving the storage empty.
    pub fn get_inputs(&mut self) -> (inputs: Vec<KeyEvent>)
        ensures
            inputs@ == old(self)@.storage,
            final(self)@.storage.len() == 0,
            final(self)@.mediator == old(self)@.mediator,
            final(self)@.note_keys == old(self)@.note_keys,
            final(self)@.octave_keys == old(self)@.octave_keys,
            final(self)@.octave_digit == old(self)@.octave_digit,
            old(self).wf() ==> final(self).wf(),
    {
        let mut inputs: Vec<KeyEvent> = Vec::new();
        core::mem::swap(&mut inputs, &mut self.key_storage);
        inputs
    }

    /// The octave the player last selected, or octave `3` when none was
    /// ever selected.
    pub fn get_selected_octave(&mut self) -> (octave: u8)
        ensures
            octave == (match old(self)@.octave_digit {
                Some(digit) => digit,
                None => 3u8,
            }),
            final(self)@ == old(self)@,
            old(self).wf() ==> octave <= 9,
    {
        if let Some(number) = self.number_input_storage {
            number
        } else {
            3
        }
    }
}

/// Taking a whole sequence of events in, one by one.
pub open spec fn spec_add_all(s: InputHandlerView, events: Seq<KeyEvent>) -> InputHandlerView
    decreases events.len(),
{
    if events.len() == 0 {
        s
    } else {
        spec_add_all(spec_add_input(s, events[0]), events.drop_first())
    }
}

/// Taking accepted note-key events in only grows the pending batch, in
/// arrival order; the storage and the accepted key lists stay untouched.
proof fn lemma_add_all_buffers_in_order(s: InputHandlerView, events: Seq<KeyEvent>)
    requires
        forall|i: int|
            0 <= i < events.len() ==> s.note_keys.contains(#[trigger] events[i].logical_key)
                && !events[i].repeat && events[i].pressed,
    ensures
        spec_add_all(s, events).mediator == s.mediator + events,
        spec_add_all(s, events).storage == s.storage,
        spec_add_all(s, events).note_keys == s.note_keys,
        spec_add_all(s, events).octave_keys == s.octave_keys,
        spec_add_all(s, events).octave_digit == s.octave_digit,
    decreases events.len(),
{
    if events.len() == 0 {
        assert(s.mediator + events =~= s.mediator);
    } else {
        let e = events[0];
        let s1 = spec_add_input(s, e);
        assert(s1.mediator == s.mediator.push(e));
        assert(forall|i: int|
            0 <= i < events.drop_first().len() ==> #[trigger] events.drop_first()[i] == events[i
                + 1]);
        lemma_add_all_buffers_in_order(s1, events.drop_first());
        assert(s.mediator.push(e) + events.drop_first() =~= s.mediator + events);
    }
}

/// One debounce window, one resolution pass: after any number of
/// accepted note-key events arrive within a window that opened on an
/// empty batch, closing the window hands exactly those events
/// downstream, in arrival order — and a spurious second close of the
/// same window hands over nothing more.
pub proof fn lemma_single_resolution_per_window(s: InputHandlerView, events: Seq<KeyEvent>)
    requires
        s.mediator.len() == 0,
        forall|i: int|
            0 <= i < events.len() ==> s.note_keys.contains(#[trigger] events[i].logical_key)
                && !events[i].repeat && events[i].pressed,
    ensures
        spec_flush(spec_add_all(s, events)).storage == s.storage + events,
        spec_flush(spec_add_all(s, events)).mediator.len() == 0,
        spec_flush(spec_flush(spec_add_all(s, events))).storage == s.storage + events,
{
    lemma_add_all_buffers_in_order(s, events);
    assert(spec_add_all(s, events).mediator =~= events);
    let flushed = spec_flush(spec_add_all(s, events));
    assert(flushed.storage + flushed.mediator =~= flushed.storage);
}

/// Events arriving in two distinct debounce windows are resolved in two
/// separate passes: each window's close hands over exactly its own
/// events, and together the storage sees both batches in order.
pub proof fn lemma_two_windows_two_resolutions(
    s: InputHandlerView,
    first: Seq<KeyEvent>,
    second: Seq<KeyEvent>,
)
    requires
        s.mediator.len() == 0,
        forall|i: int|
            0 <= i < first.len() ==> s.note_keys.contains(#[trigger] first[i].logical_key)
                && !first[i].repeat && first[i].pressed,
        forall|i: int|
            0 <= i < second.len() ==> s.note_keys.contains(#[trigger] second[i].logical_key)
                && !second[i].repeat && second[i].pressed,
    ensures
        spec_flush(spec_add_all(s, first)).storage == s.storage + first,
        spec_flush(spec_add_all(spec_flush(spec_add_all(s, first)), second)).storage == s.storage
            + first + second,
{
    lemma_single_resolution_per_window(s, first);
    let after_first = spec_flush(spec_add_all(s, first));
    lemma_add_all_buffers_in_order(s, first);
    lemma_single_resolution_per_window(after_first, second);
}

/// Auto-repeat events, releases, and keys outside the accepted note
/// list never enter the pending batch, so they can never reach a
/// resolution pass.
pub proof fn lemma_rejected_events_never_buffered(s: InputHandlerView, e: KeyEvent)
    requires
        !s.note_keys.contains(e.logical_key) || e.repeat || !e.pressed,
    ensures
        spec_add_input(s, e).mediator == s.mediator,
        spec_add_input(s, e).storage == s.storage,
{
}

} // verus!
