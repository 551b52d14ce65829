//! Mapping accepted keys to musical meaning: which note a key triggers
//! and which octave a digit key selects.

use vstd::prelude::*;

verus! {

use crate::input_handler::KeyEvent;
use crate::music_entities::Note;
use crate::music_entities::Octave;

/// Resolves key events to the notes they trigger.
#[derive(Clone)]
pub struct NoteGenerator {}

/// The note a key's text stands for, if any: the twelve accepted note
/// keys cover one octave in key order.
pub open spec fn spec_map_str_to_note(key: char) -> Option<Note> {
    match key {
        'a' => Some(Note::C),
        's' => Some(Note::CsharpDflat),
        'd' => Some(Note::D),
        'f' => Some(Note::DsharpEflat),
        'g' => Some(Note::E),
        'h' => Some(Note::F),
        'j' => Some(Note::FsharpGflat),
        'k' => Some(Note::G),
        'l' => Some(Note::GsharpAflat),
        'ö' => Some(Note::A),
        'ä' => Some(Note::ASharpBFlat),
        '\'' => Some(Note::B),
        _ => None,
    }
}

/// The octave a digit key selects; anything else falls back to the
/// lowest octave.
pub open spec fn spec_map_key_code_to_octave(key_pressed: char) -> Octave {
    match key_pressed {
        '1' => Octave::C1,
        '2' => Octave::C2,
        '3' => Octave::C3,
        '4' => Octave::C4,
        '5' => Octave::C5,
        '6' => Octave::C6,
        _ => Octave::C1,
    }
}

/// The deduplicated note set a batch of key events resolves to, in
/// arrival order of each note's first occurrence: an event whose key
/// maps to a note contributes it unless the batch already resolved that
/// note, and every other event contributes nothing.  Rapid repeated
/// presses of one key within a window thus trigger its note once.
pub open spec fn spec_notes_of(events: Seq<KeyEvent>) -> Seq<Note>
    decreases events.len(),
{
    if events.len() == 0 {
        Seq::empty()
    } else {
        let head = spec_notes_of(events.drop_last());
        match spec_map_str_to_note(events.last().logical_key) {
            Some(note) => if head.contains(note) {
                head
            } else {
                head + seq![note]
            },
            None => head,
        }
    }
}

/// Whether the batch has already resolved this note.
fn contains_note(notes: &Vec<Note>, note: Note) -> (present: bool)
    ensures
        present == notes@.contains(note),
{
    let mut i: usize = 0;
    while i < notes.len()
        invariant
            i <= notes@.len(),
            forall|j: int| 0 <= j < i ==> notes@[j] != note,
        decreases notes@.len() - i,
    {
        if notes[i] == note {
            proof {
                assert(notes@[i as int] == note);
            }
            return true;
        }
        i = i + 1;
    }
    false
}

impl NoteGenerator {
    pub fn new() -> (generator: NoteGenerator) {
        NoteGenerator {  }
    }

    /// Executable counterpart of [`spec_map_str_to_note`].
    pub fn map_str_to_note(&self, key: char) -> (note: Option<Note>)
        ensures
            note == spec_map_str_to_note(key),
    {
        match key {
            'a' => Some(Note::C),
            's' => Some(Note::CsharpDflat),
            'd' => Some(Note::D),
            'f' => Some(Note::DsharpEflat),
            'g' => Some(Note::E),
            'h' => Some(Note::F),
            'j' => Some(Note::FsharpGflat),
            'k' => Some(Note::G),
            'l' => Some(Note::GsharpAflat),
            'ö' => Some(Note::A),
            'ä' => Some(Note::ASharpBFlat),
            '\'' => Some(Note::B),
            _ => None,
        }
    }

    /// Executable counterpart of [`spec_map_key_code_to_octave`].
    pub fn map_key_code_to_octave(&self, key_pressed: char) -> (octave: Octave)
        ensures
            octave == spec_map_key_code_to_octave(key_pressed),
    {
        match key_pressed {
            '1' => Octave::C1,
            '2' => Octave::C2,
            '3' => Octave::C3,
            '4' => Octave::C4,
            '5' => Octave::C5,
            '6' => Octave::C6,
            _ => Octave::C1,
        }
    }

    /// Resolves a batch of key events to a deduplicated note set, as
    /// [`spec_notes_of`] describes: each note appears at most once, at
    /// the position of its first occurrence, and events whose keys map
    /// to no note contribute nothing.
    pub fn get_notes_from_keys(&mut self, key_events: Vec<KeyEvent>) -> (notes: Vec<Note>)
        ensures
            notes@ == spec_notes_of(key_events@),
    {
        let mut notes_to_return: Vec<Note> = Vec::new();
        let mut i: usize = 0;
        while i < key_events.len()
            invariant
                i <= key_events@.len(),
                notes_to_return@ == spec_notes_of(key_events@.take(i as int)),
            decreases key_events@.len() - i,
        {
            let ghost done = key_events@.take(i as int);
            if let Some(note) = self.map_str_to_note(key_events[i].logical_key) {
                if !contains_note(&notes_to_return, note) {
                    notes_to_return.push(note);
                }
            }
            proof {
                let next = key_events@.take(i as int + 1);
                assert(next.drop_last() =~= done);
                assert(next.last() == key_events@[i as int]);
                match spec_map_str_to_note(key_events@[i as int].logical_key) {
                    Some(note) => {
                        if !spec_notes_of(done).contains(note) {
                            assert(notes_to_return@ =~= spec_notes_of(done) + seq![note]);
                        }
                    },
                    None => {},
                }
            }
            i = i + 1;
        }
        proof {
            assert(key_events@.take(key_events@.len() as int) =~= key_events@);
        }
        notes_to_return
    }
}

/// A note can reach the resolved set only through some event whose key
/// maps to it: auto-repeat events never reach resolution at all (intake
/// drops them), and unmapped keys resolve to nothing.
pub proof fn lemma_resolved_notes_come_from_mapped_keys(events: Seq<KeyEvent>, n: int)
    requires
        0 <= n < spec_notes_of(events).len(),
    ensures
        exists|j: int|
            0 <= j < events.len() && spec_map_str_to_note(#[trigger] events[j].logical_key)
                == Some(spec_notes_of(events)[n]),
    decreases events.len(),
{
    if events.len() == 0 {
    } else {
        let head = spec_notes_of(events.drop_last());
        match spec_map_str_to_note(events.last().logical_key) {
            Some(note) => {
                if n < head.len() {
                    lemma_resolved_notes_come_from_mapped_keys(events.drop_last(), n);
                    let j = choose|j: int|
                        0 <= j < events.drop_last().len() && spec_map_str_to_note(
                            #[trigger] events.drop_last()[j].logical_key,
                        ) == Some(head[n]);
                    assert(events[j] == events.drop_last()[j]);
                    assert(spec_notes_of(events)[n] == head[n]);
                    assert(spec_map_str_to_note(events[j].logical_key) == Some(
                        spec_notes_of(events)[n],
                    ));
                } else {
                    assert(!head.contains(note));
                    assert(spec_notes_of(events)[n] == note);
                    assert(events.last() == events[events.len() - 1]);
                    assert(spec_map_str_to_note(events[events.len() - 1].logical_key) == Some(
                        note,
                    ));
                }
            },
            None => {
                assert(spec_notes_of(events) =~= head);
                lemma_resolved_notes_come_from_mapped_keys(events.drop_last(), n);
                let j = choose|j: int|
                    0 <= j < events.drop_last().len() && spec_map_str_to_note(
                        #[trigger] events.drop_last()[j].logical_key,
                    ) == Some(head[n]);
                assert(events[j] == events.drop_last()[j]);
                assert(spec_map_str_to_note(events[j].logical_key) == Some(
                    spec_notes_of(events)[n],
                ));
            },
        }
    }
}

/// Resolution yields a set: however often one key goes down within a
/// window, and however the events repeat, no note stands twice in the
/// resolved sequence.
pub proof fn lemma_resolved_notes_deduplicated(events: Seq<KeyEvent>)
    ensures
        forall|m: int, n: int|
            0 <= m < n < spec_notes_of(events).len() ==> spec_notes_of(events)[m]
                != spec_notes_of(events)[n],
    decreases events.len(),
{
    if events.len() == 0 {
    } else {
        lemma_resolved_notes_deduplicated(events.drop_last());
        let head = spec_notes_of(events.drop_last());
        match spec_map_str_to_note(events.last().logical_key) {
            Some(note) => {
                if !head.contains(note) {
                    let grown = head + seq![note];
                    assert forall|m: int, n: int|
                        0 <= m < n < grown.len() implies grown[m] != grown[n] by {
                        if n < head.len() {
                            assert(grown[m] == head[m]);
                            assert(grown[n] == head[n]);
                        } else {
                            assert(grown[n] == note);
                            assert(grown[m] == head[m]);
                            if head[m] == note {
                                assert(head.contains(note));
                            }
                        }
                    }
                }
            },
            None => {},
        }
    }
}

} // verus!
