//! From resolved notes to queued audio: which recorded file a note is
//! played from, and how a batch of decoded notes reaches the stream
//! pool.
//!
//! Locating the file on disk and decoding it are the host's work; this
//! module computes the file name a note and octave select, and routes
//! the decoded sample sequences — one per note — into the pool, mixing
//! them first whenever a batch triggered more than one note.

use vstd::prelude::*;

verus! {

use crate::buffer_que_manager::DefaultBufferQueManager;
use crate::buffer_que_manager::EnqueueAction;
use crate::buffer_que_manager::spec_enqueue_post;
use crate::mixer::SAMPLE_AMPLITUDE_LIMIT;
use crate::mixer::all_frames_bounded;
use crate::mixer::frame_views;
use crate::mixer::mix_notes;
use crate::mixer::spec_mixed_frames;
use crate::music_entities::Note;

/// The stem of the recorded file for a note: the natural notes use their
/// letter, the altered ones a trailing dash.
pub open spec fn spec_note_file_stem(note: Note) -> Seq<u8> {
    match note {
        Note::A => seq![97u8],
        Note::ASharpBFlat => seq![97u8, 45u8],
        Note::B => seq![98u8],
        Note::C => seq![99u8],
        Note::CsharpDflat => seq![99u8, 45u8],
        Note::D => seq![100u8],
        Note::DsharpEflat => seq![100u8, 45u8],
        Note::E => seq![101u8],
        Note::F => seq![102u8],
        Note::FsharpGflat => seq![102u8, 45u8],
        Note::G => seq![103u8],
        Note::GsharpAflat => seq![103u8, 45u8],
    }
}

/// The full file name: stem, octave digit, and the recorded format's
/// extension.
pub open spec fn spec_note_file_name(note: Note, selected_octave: u8) -> Seq<u8> {
    spec_note_file_stem(note) + seq![(48 + selected_octave) as u8, 46u8, 109u8, 112u8, 51u8]
}

/// Builds the name of the recorded file that plays `note` in the
/// selected octave, as ASCII bytes.  The host resolves it against its
/// sample folder and feeds the file to the decoder.
pub fn note_file_name(note: Note, selected_octave: u8) -> (name: Vec<u8>)
    requires
        selected_octave <= 9,
    ensures
        name@ == spec_note_file_name(note, selected_octave),
{
    let mut name: Vec<u8> = Vec::new();
    match note {
        Note::A => {
            name.push(97);
        },
        Note::ASharpBFlat => {
            name.push(97);
            name.push(45);
        },
        Note::B => {
            name.push(98);
        },
        Note::C => {
            name.push(99);
        },
        Note::CsharpDflat => {
            name.push(99);
            name.push(45);
        },
        Note::D => {
            name.push(100);
        },
        Note::DsharpEflat => {
            name.push(100);
            name.push(45);
        },
        Note::E => {
            name.push(101);
        },
        Note::F => {
            name.push(102);
        },
        Note::FsharpGflat => {
            name.push(102);
            name.push(45);
        },
        Note::G => {
            name.push(103);
        },
        Note::GsharpAflat => {
            name.push(103);
            name.push(45);
        },
    }
    name.push(48 + selected_octave);
    name.push(46);
    name.push(109);
    name.push(112);
    name.push(51);
    proof {
        assert(name@ =~= spec_note_file_name(note, selected_octave));
    }
    name
}

/// Routes one resolved batch of decoded notes into the pool: two or more
/// notes are mixed into a single sequence first, a single note's samples
/// are enqueued as they are, and an empty batch changes nothing.
pub fn add_notes_to_buffer_que(
    buffer_que_manager: &mut DefaultBufferQueManager,
    note_frames: Vec<Vec<i64>>,
) -> (act: Option<EnqueueAction>)
    requires
        old(buffer_que_manager).wf(),
        all_frames_bounded(frame_views(note_frames@)),
        note_frames@.len() * SAMPLE_AMPLITUDE_LIMIT <= i64::MAX,
    ensures
        final(buffer_que_manager).wf(),
        note_frames@.len() == 0 ==> act is None && final(buffer_que_manager)@.ques == old(
            buffer_que_manager,
        )@.ques && final(buffer_que_manager)@.playing == old(buffer_que_manager)@.playing,
        note_frames@.len() == 1 ==> (act matches Some(a) && spec_enqueue_post(
            old(buffer_que_manager)@,
            final(buffer_que_manager)@,
            note_frames@[0]@,
            a,
        )),
        note_frames@.len() >= 2 ==> (act matches Some(a) && spec_enqueue_post(
            old(buffer_que_manager)@,
            final(buffer_que_manager)@,
            spec_mixed_frames(frame_views(note_frames@)),
            a,
        )),
{
    if note_frames.len() >= 2 {
        let mixed = mix_notes(note_frames);
        let act = buffer_que_manager.add_frames_to_que(mixed);
        Some(act)
    } else if note_frames.len() == 1 {
        let mut note_frames = note_frames;
        let only = note_frames.pop().unwrap();
        let act = buffer_que_manager.add_frames_to_que(only);
        Some(act)
    } else {
        None
    }
}

} // verus!
