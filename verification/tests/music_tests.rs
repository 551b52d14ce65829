use virtual_keyboard::input_handler::KeyEvent;
use virtual_keyboard::music_entities::{
    generate_chord_map, get_chords_from_notes, get_note_combinations, note_index, Chord, Note,
    ThreeNoteChord,
};
use virtual_keyboard::note_generator::NoteGenerator;
use virtual_keyboard::playback::note_file_name;

fn down(key: char) -> KeyEvent {
    KeyEvent { logical_key: key, pressed: true, repeat: false }
}

#[test]
fn note_indices_follow_declaration_order() {
    assert_eq!(note_index(Note::A), 0);
    assert_eq!(note_index(Note::C), 3);
    assert_eq!(note_index(Note::GsharpAflat), 11);
}

#[test]
fn chord_key_is_canonical_across_orderings() {
    let a = ThreeNoteChord::new([&Note::C, &Note::E, &Note::G]);
    let b = ThreeNoteChord::new([&Note::G, &Note::C, &Note::E]);
    let c = ThreeNoteChord::new([&Note::E, &Note::G, &Note::C]);
    assert_eq!(a, b);
    assert_eq!(a, c);
}

#[test]
fn chord_key_packs_sorted_note_indices() {
    // C = 3, E = 7, G = 10, sorted ascending: 3 * 144 + 7 * 12 + 10.
    let chord = ThreeNoteChord::new([&Note::G, &Note::E, &Note::C]);
    assert_eq!(chord.0, 3 * 144 + 7 * 12 + 10);
}

#[test]
fn chord_map_holds_all_fourteen_chords() {
    let map = generate_chord_map();
    assert_eq!(map.len(), 14);
    assert_eq!(map[0].0, ThreeNoteChord::new([&Note::C, &Note::E, &Note::G]));
    assert_eq!(map[0].1, Chord::C);
    assert_eq!(map[13].1, Chord::Bm);
}

#[test]
fn note_combinations_enumerates_every_triple() {
    let notes = vec![Note::C, Note::E, Note::G, Note::A, Note::B];
    let combos = get_note_combinations(&notes);
    assert_eq!(combos.len(), 10);
    assert_eq!(combos[0], ThreeNoteChord::new([&Note::C, &Note::E, &Note::G]));
    assert_eq!(combos[9], ThreeNoteChord::new([&Note::G, &Note::A, &Note::B]));
}

#[test]
fn fewer_than_three_notes_give_no_combination() {
    assert!(get_note_combinations(&vec![]).is_empty());
    assert!(get_note_combinations(&vec![Note::C, Note::E]).is_empty());
}

#[test]
fn chords_resolve_in_combination_order() {
    let chords = get_chords_from_notes(vec![Note::C, Note::E, Note::G, Note::A]);
    // Triples in index order: (C,E,G) -> C, (C,E,A) -> Am, (C,G,A) and
    // (E,G,A) are no recognised chords.
    assert_eq!(chords, vec![Some(Chord::C), Some(Chord::Am), None, None]);
}

#[test]
fn minor_chord_is_recognised_in_any_order() {
    let chords = get_chords_from_notes(vec![Note::A, Note::DsharpEflat, Note::C]);
    // A, D#/Eb, C is no chord; A, C, E would be Am.
    assert_eq!(chords, vec![None]);
    let am = get_chords_from_notes(vec![Note::E, Note::A, Note::C]);
    assert_eq!(am, vec![Some(Chord::Am)]);
}

#[test]
fn key_to_note_mapping_matches_key_order() {
    let generator = NoteGenerator::new();
    assert_eq!(generator.map_str_to_note('a'), Some(Note::C));
    assert_eq!(generator.map_str_to_note('s'), Some(Note::CsharpDflat));
    assert_eq!(generator.map_str_to_note('d'), Some(Note::D));
    assert_eq!(generator.map_str_to_note('f'), Some(Note::DsharpEflat));
    assert_eq!(generator.map_str_to_note('g'), Some(Note::E));
    assert_eq!(generator.map_str_to_note('h'), Some(Note::F));
    assert_eq!(generator.map_str_to_note('j'), Some(Note::FsharpGflat));
    assert_eq!(generator.map_str_to_note('k'), Some(Note::G));
    assert_eq!(generator.map_str_to_note('l'), Some(Note::GsharpAflat));
    assert_eq!(generator.map_str_to_note('ö'), Some(Note::A));
    assert_eq!(generator.map_str_to_note('ä'), Some(Note::ASharpBFlat));
    assert_eq!(generator.map_str_to_note('\''), Some(Note::B));
    assert_eq!(generator.map_str_to_note('z'), None);
}

#[test]
fn digit_keys_select_octaves() {
    let generator = NoteGenerator::new();
    assert!(matches!(generator.map_key_code_to_octave('1'), virtual_keyboard::music_entities::Octave::C1));
    assert!(matches!(generator.map_key_code_to_octave('6'), virtual_keyboard::music_entities::Octave::C6));
    assert!(matches!(generator.map_key_code_to_octave('x'), virtual_keyboard::music_entities::Octave::C1));
}

#[test]
fn notes_resolve_in_arrival_order() {
    let mut generator = NoteGenerator::new();
    let events = vec![down('k'), down('a'), down('g')];
    assert_eq!(generator.get_notes_from_keys(events), vec![Note::G, Note::C, Note::E]);
}

#[test]
fn duplicate_key_events_resolve_to_one_note() {
    let mut generator = NoteGenerator::new();
    let events = vec![down('a'), down('k'), down('a'), down('s'), down('k')];
    // Each note once, at its first occurrence, in arrival order.
    assert_eq!(
        generator.get_notes_from_keys(events),
        vec![Note::C, Note::G, Note::CsharpDflat]
    );
}

#[test]
fn unmapped_keys_resolve_to_nothing() {
    let mut generator = NoteGenerator::new();
    let events = vec![down('z'), down('!'), down('2')];
    assert!(generator.get_notes_from_keys(events).is_empty());
}

#[test]
fn file_names_spell_note_stem_octave_and_extension() {
    assert_eq!(note_file_name(Note::A, 3), b"a3.mp3".to_vec());
    assert_eq!(note_file_name(Note::ASharpBFlat, 3), b"a-3.mp3".to_vec());
    assert_eq!(note_file_name(Note::C, 5), b"c5.mp3".to_vec());
    assert_eq!(note_file_name(Note::GsharpAflat, 4), b"g-4.mp3".to_vec());
    assert_eq!(note_file_name(Note::B, 0), b"b0.mp3".to_vec());
}
