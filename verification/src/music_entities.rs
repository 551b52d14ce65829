//! The musical vocabulary: pitch classes, octaves, chords, and the
//! canonical three-note chord key used for chord recognition.

use vstd::prelude::*;

verus! {

/// Which recorded sample set a note is played from.
#[derive(Debug, Clone)]
pub enum Octave {
    C1,
    C2,
    C3,
    C4,
    C5,
    C6,
}

/// One of the twelve pitch classes within an octave.
#[derive(Debug, Eq, Hash, PartialEq, PartialOrd, Ord, Clone, Copy, Structural)]
pub enum Note {
    A,
    ASharpBFlat,
    B,
    C,
    CsharpDflat,
    D,
    DsharpEflat,
    E,
    F,
    FsharpGflat,
    G,
    GsharpAflat,
}

/// A recognised three-note chord.
#[derive(Debug, Eq, PartialEq, Clone, Copy, Structural)]
pub enum Chord {
    C,
    Cm,
    D,
    Dm,
    E,
    Em,
    F,
    Fm,
    G,
    Gm,
    A,
    Am,
    B,
    Bm,
}

/// The position of a note in the declaration order, `0` through `11`.
/// The ordering carries no musical meaning; it only serves to build a
/// canonical key for a set of notes.
pub open spec fn spec_note_index(note: Note) -> int {
    match note {
        Note::A => 0,
        Note::ASharpBFlat => 1,
        Note::B => 2,
        Note::C => 3,
        Note::CsharpDflat => 4,
        Note::D => 5,
        Note::DsharpEflat => 6,
        Note::E => 7,
        Note::F => 8,
        Note::FsharpGflat => 9,
        Note::G => 10,
        Note::GsharpAflat => 11,
    }
}

/// Executable counterpart of [`spec_note_index`].
pub fn note_index(note: Note) -> (i: u64)
    ensures
        i == spec_note_index(note),
{
    match note {
        Note::A => 0,
        Note::ASharpBFlat => 1,
        Note::B => 2,
        Note::C => 3,
        Note::CsharpDflat => 4,
        Note::D => 5,
        Note::DsharpEflat => 6,
        Note::E => 7,
        Note::F => 8,
        Note::FsharpGflat => 9,
        Note::G => 10,
        Note::GsharpAflat => 11,
    }
}

/// The canonical key of an unordered set of three notes: the note
/// indices sorted ascending and packed positionally.  Symmetric in its
/// arguments by construction, so any ordering of the same three notes
/// yields the same key.
pub open spec fn spec_chord_key(a: Note, b: Note, c: Note) -> int {
    let x = spec_note_index(a);
    let y = spec_note_index(b);
    let z = spec_note_index(c);
    let lo = if x <= y && x <= z {
        x
    } else if y <= x && y <= z {
        y
    } else {
        z
    };
    let hi = if x >= y && x >= z {
        x
    } else if y >= x && y >= z {
        y
    } else {
        z
    };
    let mid = x + y + z - lo - hi;
    lo * 144 + mid * 12 + hi
}

/// The key does not depend on the order the three notes are given in.
pub proof fn lemma_chord_key_symmetric(a: Note, b: Note, c: Note)
    ensures
        spec_chord_key(a, b, c) == spec_chord_key(a, c, b),
        spec_chord_key(a, b, c) == spec_chord_key(b, a, c),
        spec_chord_key(a, b, c) == spec_chord_key(b, c, a),
        spec_chord_key(a, b, c) == spec_chord_key(c, a, b),
        spec_chord_key(a, b, c) == spec_chord_key(c, b, a),
{
}

/// An unordered set of three notes, held as its canonical key.
#[derive(Debug, Eq, PartialEq, Structural, Clone, Copy, Hash)]
pub struct ThreeNoteChord(pub u64);

impl ThreeNoteChord {
    /// Builds the canonical key of three notes: their indices are sorted
    /// ascending, so any ordering of the same notes builds the same key.
    pub fn new(notes: [&Note; 3]) -> (chord: ThreeNoteChord)
        ensures
            chord.0 == spec_chord_key(*notes@[0], *notes@[1], *notes@[2]),
    {
        let mut x = note_index(*notes[0]);
        let mut y = note_index(*notes[1]);
        let mut z = note_index(*notes[2]);
        if x > y {
            let t = x;
            x = y;
            y = t;
        }
        if y > z {
            let t = y;
            y = z;
            z = t;
        }
        if x > y {
            let t = x;
            x = y;
            y = t;
        }
        ThreeNoteChord(x * 144 + y * 12 + z)
    }
}

/// The fourteen recognised chords, each keyed by its three notes.
pub open spec fn spec_chord_map() -> Seq<(ThreeNoteChord, Chord)> {
    seq![
        (ThreeNoteChord(spec_chord_key(Note::C, Note::E, Note::G) as u64), Chord::C),
        (ThreeNoteChord(spec_chord_key(Note::C, Note::DsharpEflat, Note::G) as u64), Chord::Cm),
        (ThreeNoteChord(spec_chord_key(Note::D, Note::FsharpGflat, Note::A) as u64), Chord::D),
        (ThreeNoteChord(spec_chord_key(Note::D, Note::F, Note::A) as u64), Chord::Dm),
        (ThreeNoteChord(spec_chord_key(Note::E, Note::GsharpAflat, Note::B) as u64), Chord::E),
        (ThreeNoteChord(spec_chord_key(Note::E, Note::G, Note::B) as u64), Chord::Em),
        (ThreeNoteChord(spec_chord_key(Note::F, Note::A, Note::C) as u64), Chord::F),
        (ThreeNoteChord(spec_chord_key(Note::F, Note::GsharpAflat, Note::C) as u64), Chord::Fm),
        (ThreeNoteChord(spec_chord_key(Note::G, Note::B, Note::D) as u64), Chord::G),
        (ThreeNoteChord(spec_chord_key(Note::G, Note::ASharpBFlat, Note::D) as u64), Chord::Gm),
        (ThreeNoteChord(spec_chord_key(Note::A, Note::CsharpDflat, Note::E) as u64), Chord::A),
        (ThreeNoteChord(spec_chord_key(Note::A, Note::C, Note::E) as u64), Chord::Am),
        (
            ThreeNoteChord(spec_chord_key(Note::B, Note::DsharpEflat, Note::FsharpGflat) as u64),
            Chord::B,
        ),
        (ThreeNoteChord(spec_chord_key(Note::B, Note::D, Note::FsharpGflat) as u64), Chord::Bm),
    ]
}

/// Builds the chord lookup table, entry by entry, exactly as
/// [`spec_chord_map`] lists it.
pub fn generate_chord_map() -> (map: Vec<(ThreeNoteChord, Chord)>)
    ensures
        map@ == spec_chord_map(),
{
    let mut map: Vec<(ThreeNoteChord, Chord)> = Vec::new();
    map.push((ThreeNoteChord::new([&Note::C, &Note::E, &Note::G]), Chord::C));
    map.push((ThreeNoteChord::new([&Note::C, &Note::DsharpEflat, &Note::G]), Chord::Cm));
    map.push((ThreeNoteChord::new([&Note::D, &Note::FsharpGflat, &Note::A]), Chord::D));
    map.push((ThreeNoteChord::new([&Note::D, &Note::F, &Note::A]), Chord::Dm));
    map.push((ThreeNoteChord::new([&Note::E, &Note::GsharpAflat, &Note::B]), Chord::E));
    map.push((ThreeNoteChord::new([&Note::E, &Note::G, &Note::B]), Chord::Em));
    map.push((ThreeNoteChord::new([&Note::F, &Note::A, &Note::C]), Chord::F));
    map.push((ThreeNoteChord::new([&Note::F, &Note::GsharpAflat, &Note::C]), Chord::Fm));
    map.push((ThreeNoteChord::new([&Note::G, &Note::B, &Note::D]), Chord::G));
    map.push((ThreeNoteChord::new([&Note::G, &Note::ASharpBFlat, &Note::D]), Chord::Gm));
    map.push((ThreeNoteChord::new([&Note::A, &Note::CsharpDflat, &Note::E]), Chord::A));
    map.push((ThreeNoteChord::new([&Note::A, &Note::C, &Note::E]), Chord::Am));
    map.push((ThreeNoteChord::new([&Note::B, &Note::DsharpEflat, &Note::FsharpGflat]), Chord::B));
    map.push((ThreeNoteChord::new([&Note::B, &Note::D, &Note::FsharpGflat]), Chord::Bm));
    proof {
        assert(map@ =~= spec_chord_map());
    }
    map
}

/// The chord a key resolves to in the table: the first entry whose key
/// matches, or nothing.
pub open spec fn spec_chord_lookup(map: Seq<(ThreeNoteChord, Chord)>, key: ThreeNoteChord) -> Option<
    Chord,
>
    decreases map.len(),
{
    if map.len() == 0 {
        None
    } else if map[0].0 == key {
        Some(map[0].1)
    } else {
        spec_chord_lookup(map.drop_first(), key)
    }
}

/// Looks a canonical chord key up in the table.
fn chord_for(map: &Vec<(ThreeNoteChord, Chord)>, key: ThreeNoteChord) -> (found: Option<Chord>)
    ensures
        found == spec_chord_lookup(map@, key),
{
    let mut m: usize = 0;
    proof {
        assert(map@.skip(0) =~= map@);
    }
    while m < map.len()
        invariant
            m <= map@.len(),
            spec_chord_lookup(map@, key) == spec_chord_lookup(map@.skip(m as int), key),
        decreases map@.len() - m,
    {
        proof {
            assert(map@.skip(m as int)[0] == map@[m as int]);
            assert(map@.skip(m as int).drop_first() =~= map@.skip(m as int + 1));
        }
        if map[m].0 == key {
            return Some(map[m].1);
        }
        m = m + 1;
    }
    proof {
        assert(map@.skip(map@.len() as int).len() == 0);
    }
    None
}

/// What each three-note combination of the batch resolves to: the
/// recognised chord, or nothing for a combination outside the table.
pub open spec fn spec_chords_of(notes: Seq<Note>) -> Seq<Option<Chord>> {
    spec_note_combinations(notes).map_values(
        |combo: ThreeNoteChord| spec_chord_lookup(spec_chord_map(), combo),
    )
}

/// Resolves every three-note combination of the batch against the chord
/// table, in enumeration order.  The caller reports the findings; this
/// function only computes them.
pub fn get_chords_from_notes(notes: Vec<Note>) -> (chords: Vec<Option<Chord>>)
    ensures
        chords@ == spec_chords_of(notes@),
{
    let chord_map = generate_chord_map();
    let note_combinations = get_note_combinations(&notes);
    let mut chords: Vec<Option<Chord>> = Vec::new();
    let mut c: usize = 0;
    while c < note_combinations.len()
        invariant
            c <= note_combinations@.len(),
            note_combinations@ == spec_note_combinations(notes@),
            chord_map@ == spec_chord_map(),
            chords@.len() == c,
            forall|t: int|
                0 <= t < c ==> #[trigger] chords@[t] == spec_chord_lookup(
                    spec_chord_map(),
                    spec_note_combinations(notes@)[t],
                ),
        decreases note_combinations@.len() - c,
    {
        let found = chord_for(&chord_map, note_combinations[c]);
        chords.push(found);
        c = c + 1;
    }
    proof {
        assert(chords@ =~= spec_chords_of(notes@));
    }
    chords
}

/// Every three-element subset of `notes`, in index order `i < j < k`,
/// enumerated as canonical chord keys.  The three spec functions walk the
/// same nested index ranges the executable enumeration walks.
pub open spec fn spec_combos_from_k(notes: Seq<Note>, i: int, j: int, k: int) -> Seq<ThreeNoteChord>
    decreases notes.len() - k,
{
    if !(0 <= k < notes.len() && 0 <= i < notes.len() && 0 <= j < notes.len()) {
        Seq::empty()
    } else {
        seq![ThreeNoteChord(spec_chord_key(notes[i], notes[j], notes[k]) as u64)]
            + spec_combos_from_k(notes, i, j, k + 1)
    }
}

pub open spec fn spec_combos_from_j(notes: Seq<Note>, i: int, j: int) -> Seq<ThreeNoteChord>
    decreases notes.len() - j,
{
    if !(0 <= j < notes.len()) {
        Seq::empty()
    } else {
        spec_combos_from_k(notes, i, j, j + 1) + spec_combos_from_j(notes, i, j + 1)
    }
}

pub open spec fn spec_combos_from_i(notes: Seq<Note>, i: int) -> Seq<ThreeNoteChord>
    decreases notes.len() - i,
{
    if !(0 <= i < notes.len()) {
        Seq::empty()
    } else {
        spec_combos_from_j(notes, i, i + 1) + spec_combos_from_i(notes, i + 1)
    }
}

/// All three-note combinations of a batch of notes.
pub open spec fn spec_note_combinations(notes: Seq<Note>) -> Seq<ThreeNoteChord> {
    spec_combos_from_i(notes, 0)
}

/// Enumerates every three-element subset of the notes, in index order,
/// as canonical chord keys.
pub fn get_note_combinations(notes: &Vec<Note>) -> (combos: Vec<ThreeNoteChord>)
    ensures
        combos@ == spec_note_combinations(notes@),
{
    let ghost s = notes@;
    let ghost whole = spec_combos_from_i(s, 0);
    let mut combos: Vec<ThreeNoteChord> = Vec::new();
    let mut i: usize = 0;
    while i < notes.len()
        invariant
            i <= s.len(),
            s == notes@,
            combos@ + spec_combos_from_i(s, i as int) == whole,
        decreases s.len() - i,
    {
        proof {
            let cj = spec_combos_from_j(s, i as int, i as int + 1);
            let ci = spec_combos_from_i(s, i as int + 1);
            assert(spec_combos_from_i(s, i as int) == cj + ci);
            assert(combos@ + (cj + ci) =~= combos@ + cj + ci);
        }
        let mut j: usize = i + 1;
        while j < notes.len()
            invariant
                i < j,
                j <= s.len() || j == i as int + 1,
                i < s.len(),
                s == notes@,
                combos@ + spec_combos_from_j(s, i as int, j as int) + spec_combos_from_i(
                    s,
                    i as int + 1,
                ) == whole,
            decreases s.len() - j,
        {
            proof {
                let ck = spec_combos_from_k(s, i as int, j as int, j as int + 1);
                let cj = spec_combos_from_j(s, i as int, j as int + 1);
                let ci = spec_combos_from_i(s, i as int + 1);
                assert(spec_combos_from_j(s, i as int, j as int) == ck + cj);
                assert(combos@ + (ck + cj) =~= combos@ + ck + cj);
                assert(combos@ + (ck + cj) + ci =~= combos@ + ck + cj + ci);
            }
            let mut k: usize = j + 1;
            while k < notes.len()
                invariant
                    j < k,
                    k <= s.len() || k == j as int + 1,
                    i < j < s.len(),
                    s == notes@,
                    combos@ + spec_combos_from_k(s, i as int, j as int, k as int)
                        + spec_combos_from_j(s, i as int, j as int + 1) + spec_combos_from_i(
                        s,
                        i as int + 1,
                    ) == whole,
                decreases s.len() - k,
            {
                let ghost pre = combos@;
                let entry = ThreeNoteChord::new([&notes[i], &notes[j], &notes[k]]);
                combos.push(entry);
                proof {
                    let tail = spec_combos_from_k(s, i as int, j as int, k as int + 1);
                    assert(entry.0 == spec_chord_key(s[i as int], s[j as int], s[k as int]) as u64);
                    assert(spec_combos_from_k(s, i as int, j as int, k as int) == seq![entry]
                        + tail);
                    assert(combos@ =~= pre + seq![entry]);
                    assert(pre + (seq![entry] + tail) =~= (pre + seq![entry]) + tail);
                }
                k = k + 1;
            }
            proof {
                assert(spec_combos_from_k(s, i as int, j as int, k as int).len() == 0);
                assert(combos@ + spec_combos_from_k(s, i as int, j as int, k as int) =~= combos@);
            }
            j = j + 1;
        }
        proof {
            assert(spec_combos_from_j(s, i as int, j as int).len() == 0);
            assert(combos@ + spec_combos_from_j(s, i as int, j as int) =~= combos@);
        }
        i = i + 1;
    }
    proof {
        assert(spec_combos_from_i(s, i as int).len() == 0);
        assert(combos@ + spec_combos_from_i(s, i as int) =~= combos@);
    }
    combos
}

} // verus!
