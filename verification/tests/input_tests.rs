use virtual_keyboard::input_handler::{InputHandler, KeyEvent};
use virtual_keyboard::music_entities::Note;
use virtual_keyboard::note_generator::NoteGenerator;

const NOTE_KEYS: [char; 12] = ['a', 's', 'd', 'f', 'g', 'h', 'j', 'k', 'l', 'ö', 'ä', '\''];
const OCTAVE_KEYS: [char; 3] = ['3', '4', '5'];

fn down(key: char) -> KeyEvent {
    KeyEvent { logical_key: key, pressed: true, repeat: false }
}

#[test]
fn one_window_resolves_all_events_in_arrival_order() {
    let mut handler = InputHandler::new(NOTE_KEYS, OCTAVE_KEYS);
    handler.add_input_to_mediator(down('a'));
    handler.add_input_to_mediator(down('g'));
    handler.add_input_to_mediator(down('k'));
    // The window closes once; the whole batch moves over together.
    handler.move_input_from_mediator_to_storage();
    let inputs = handler.get_inputs();
    let keys: Vec<char> = inputs.iter().map(|e| e.logical_key).collect();
    assert_eq!(keys, vec!['a', 'g', 'k']);
    // A spurious second close of the same window hands over nothing.
    handler.move_input_from_mediator_to_storage();
    assert!(handler.get_inputs().is_empty());
}

#[test]
fn two_windows_resolve_separately() {
    let mut handler = InputHandler::new(NOTE_KEYS, OCTAVE_KEYS);
    handler.add_input_to_mediator(down('a'));
    handler.add_input_to_mediator(down('s'));
    handler.move_input_from_mediator_to_storage();
    let first: Vec<char> = handler.get_inputs().iter().map(|e| e.logical_key).collect();
    assert_eq!(first, vec!['a', 's']);
    handler.add_input_to_mediator(down('d'));
    handler.move_input_from_mediator_to_storage();
    let second: Vec<char> = handler.get_inputs().iter().map(|e| e.logical_key).collect();
    assert_eq!(second, vec!['d']);
}

#[test]
fn events_added_after_window_close_wait_for_next_window() {
    let mut handler = InputHandler::new(NOTE_KEYS, OCTAVE_KEYS);
    handler.add_input_to_mediator(down('a'));
    handler.move_input_from_mediator_to_storage();
    // This event arrives just as the first window closed: it must end up
    // in the next batch, not the one already resolved.
    handler.add_input_to_mediator(down('h'));
    let first: Vec<char> = handler.get_inputs().iter().map(|e| e.logical_key).collect();
    assert_eq!(first, vec!['a']);
    handler.move_input_from_mediator_to_storage();
    let second: Vec<char> = handler.get_inputs().iter().map(|e| e.logical_key).collect();
    assert_eq!(second, vec!['h']);
}

#[test]
fn auto_repeat_events_never_enter_a_batch() {
    let mut handler = InputHandler::new(NOTE_KEYS, OCTAVE_KEYS);
    handler.add_input_to_mediator(down('a'));
    handler.add_input_to_mediator(KeyEvent { logical_key: 'a', pressed: true, repeat: true });
    handler.add_input_to_mediator(KeyEvent { logical_key: 's', pressed: true, repeat: true });
    handler.move_input_from_mediator_to_storage();
    let keys: Vec<char> = handler.get_inputs().iter().map(|e| e.logical_key).collect();
    assert_eq!(keys, vec!['a']);
}

#[test]
fn releases_and_unaccepted_keys_never_enter_a_batch() {
    let mut handler = InputHandler::new(NOTE_KEYS, OCTAVE_KEYS);
    handler.add_input_to_mediator(KeyEvent { logical_key: 'a', pressed: false, repeat: false });
    handler.add_input_to_mediator(down('z'));
    handler.add_input_to_mediator(down('!'));
    handler.move_input_from_mediator_to_storage();
    assert!(handler.get_inputs().is_empty());
}

#[test]
fn repeated_and_unmapped_keys_never_reach_a_resolved_note_set() {
    let mut handler = InputHandler::new(NOTE_KEYS, OCTAVE_KEYS);
    handler.add_input_to_mediator(down('a'));
    handler.add_input_to_mediator(KeyEvent { logical_key: 'g', pressed: true, repeat: true });
    handler.add_input_to_mediator(down('x'));
    handler.move_input_from_mediator_to_storage();
    let mut generator = NoteGenerator::new();
    let notes = generator.get_notes_from_keys(handler.get_inputs());
    assert_eq!(notes, vec![Note::C]);
}

#[test]
fn rapid_repeated_presses_trigger_a_note_once_per_window() {
    // Press, release, press of the same key within one window: neither
    // press is auto-repeat, yet the window resolves the note once.
    let mut handler = InputHandler::new(NOTE_KEYS, OCTAVE_KEYS);
    handler.add_input_to_mediator(down('a'));
    handler.add_input_to_mediator(KeyEvent { logical_key: 'a', pressed: false, repeat: false });
    handler.add_input_to_mediator(down('a'));
    handler.add_input_to_mediator(down('g'));
    handler.move_input_from_mediator_to_storage();
    let mut generator = NoteGenerator::new();
    let notes = generator.get_notes_from_keys(handler.get_inputs());
    assert_eq!(notes, vec![Note::C, Note::E]);
}

#[test]
fn validate_input_accepts_note_and_octave_keys_only() {
    let handler = InputHandler::new(NOTE_KEYS, OCTAVE_KEYS);
    assert!(handler.validate_input('a'));
    assert!(handler.validate_input('\''));
    assert!(handler.validate_input('4'));
    assert!(!handler.validate_input('z'));
    assert!(!handler.validate_input('7'));
}

#[test]
fn octave_defaults_to_three_and_follows_digit_keys() {
    let mut handler = InputHandler::new(NOTE_KEYS, OCTAVE_KEYS);
    assert_eq!(handler.get_selected_octave(), 3);
    handler.add_input_to_mediator(down('4'));
    assert_eq!(handler.get_selected_octave(), 4);
    // A repeated digit key is ignored like any other repeat.
    handler.add_input_to_mediator(KeyEvent { logical_key: '5', pressed: true, repeat: true });
    assert_eq!(handler.get_selected_octave(), 4);
    handler.add_input_to_mediator(down('5'));
    assert_eq!(handler.get_selected_octave(), 5);
}

#[test]
fn octave_keys_do_not_join_the_note_batch() {
    let mut handler = InputHandler::new(NOTE_KEYS, OCTAVE_KEYS);
    handler.add_input_to_mediator(down('4'));
    handler.add_input_to_mediator(down('a'));
    handler.move_input_from_mediator_to_storage();
    let keys: Vec<char> = handler.get_inputs().iter().map(|e| e.logical_key).collect();
    assert_eq!(keys, vec!['a']);
}
