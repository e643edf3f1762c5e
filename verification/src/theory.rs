//! Theory engine: notes, fretboard coordinates, pitch arithmetic and the
//! guess validator.
//!
//! A `Note` is a white key, an accidental and an octave; its pitch is the
//! MIDI-like semitone index `midi_of`. A `FretCoord` resolves to a pitch
//! through the fixed standard open-string tuning plus the fret offset.
//! A guess is correct exactly when the two pitches coincide: enharmonic
//! spellings of the same pitch match, the same pitch class in a different
//! octave does not.

use vstd::prelude::*;

verus! {

/// The seven white keys of the keyboard.
#[derive(Clone, Copy, Debug, PartialEq, Eq, Structural)]
pub enum WhiteKey {
    A,
    B,
    C,
    D,
    E,
    F,
    G,
}

/// Raising or lowering of a white key by one semitone, or neither.
#[derive(Clone, Copy, Debug, PartialEq, Eq, Structural)]
pub enum Accidental {
    Natural,
    Sharp,
    Flat,
}

/// A pitch spelled as white key, accidental and octave.
#[derive(Clone, Copy, Debug, PartialEq, Eq, Structural)]
pub struct Note {
    pub white_key: WhiteKey,
    pub accidental: Accidental,
    pub octave: i32,
}

/// A fretboard position: string number (1 is the highest-pitched string,
/// 6 the lowest) and fret number (0 is the open string).
#[derive(Clone, Copy, Debug, PartialEq, Eq, Structural)]
pub struct FretCoord {
    pub string: i32,
    pub fret: i32,
}

/// Semitone offset of a white key within its octave, counted from C.
pub open spec fn white_key_semitones(k: WhiteKey) -> int {
    match k {
        WhiteKey::C => 0,
        WhiteKey::D => 2,
        WhiteKey::E => 4,
        WhiteKey::F => 5,
        WhiteKey::G => 7,
        WhiteKey::A => 9,
        WhiteKey::B => 11,
    }
}

/// Semitone offset contributed by an accidental.
pub open spec fn accidental_semitones(a: Accidental) -> int {
    match a {
        Accidental::Natural => 0,
        Accidental::Sharp => 1,
        Accidental::Flat => -1,
    }
}

/// The MIDI-like semitone index of a note: middle C (C, natural, octave 4)
/// is 60. Enharmonic spellings resolve to the same index.
pub open spec fn midi_of(n: Note) -> int {
    (n.octave + 1) * 12 + white_key_semitones(n.white_key) + accidental_semitones(n.accidental)
}

/// Lowest note a round may ask for (the open sixth string, E2).
pub const MIDI_MIN: i64 = 40;

/// Highest note a round may ask for (the first string at the fourth fret, G#4).
pub const MIDI_MAX: i64 = 68;

/// White key of the canonical (sharp-spelled) note for a semitone class.
pub open spec fn class_white_key(class: int) -> WhiteKey {
    if class == 0 || class == 1 {
        WhiteKey::C
    } else if class == 2 || class == 3 {
        WhiteKey::D
    } else if class == 4 {
        WhiteKey::E
    } else if class == 5 || class == 6 {
        WhiteKey::F
    } else if class == 7 || class == 8 {
        WhiteKey::G
    } else if class == 9 || class == 10 {
        WhiteKey::A
    } else {
        WhiteKey::B
    }
}

/// Accidental of the canonical (sharp-spelled) note for a semitone class.
pub open spec fn class_accidental(class: int) -> Accidental {
    if class == 1 || class == 3 || class == 6 || class == 8 || class == 10 {
        Accidental::Sharp
    } else {
        Accidental::Natural
    }
}

/// The canonical spelling of a semitone index: sharps only, octave chosen
/// so that the index is recovered exactly.
pub open spec fn note_from_midi(m: int) -> Note {
    Note {
        white_key: class_white_key(m % 12),
        accidental: class_accidental(m % 12),
        octave: (m / 12 - 1) as i32,
    }
}

/// Pitch of the open string with the given number under the fixed standard
/// tuning: E4, B3, G3, D3, A2, E2 from string 1 to string 6.
pub open spec fn open_string_midi(s: int) -> int {
    if s == 1 {
        64
    } else if s == 2 {
        59
    } else if s == 3 {
        55
    } else if s == 4 {
        50
    } else if s == 5 {
        45
    } else if s == 6 {
        40
    } else {
        0
    }
}

/// Whether a coordinate names a position of the fretboard at all: a string
/// of the tuning and a non-negative fret.
pub open spec fn coord_playable(c: FretCoord) -> bool {
    1 <= c.string <= 6 && 0 <= c.fret
}

/// Pitch a playable coordinate sounds: open string plus fret offset.
pub open spec fn coord_midi(c: FretCoord) -> int {
    open_string_midi(c.string as int) + c.fret
}

/// The grading rule: a coordinate is a correct guess for a note exactly
/// when it is playable and sounds the note's pitch.
pub open spec fn spec_is_correct(note_to_guess: Note, coord: FretCoord) -> bool {
    coord_playable(coord) && coord_midi(coord) == midi_of(note_to_guess)
}

impl Note {
    /// The note's semitone index, as `midi_of` gives it.
    pub fn midi(&self) -> (m: i64)
        ensures
            m == midi_of(*self),
    {
        let octave_base: i64 = (self.octave as i64 + 1) * 12;
        let key: i64 = match self.white_key {
            WhiteKey::C => 0,
            WhiteKey::D => 2,
            WhiteKey::E => 4,
            WhiteKey::F => 5,
            WhiteKey::G => 7,
            WhiteKey::A => 9,
            WhiteKey::B => 11,
        };
        let acc: i64 = match self.accidental {
            Accidental::Natural => 0,
            Accidental::Sharp => 1,
            Accidental::Flat => -1,
        };
        octave_base + key + acc
    }

    /// The canonical spelling of a semitone index, per `note_from_midi`.
    pub fn from_midi(m: i64) -> (n: Note)
        requires
            0 <= m <= 127,
        ensures
            n == note_from_midi(m as int),
            midi_of(n) == m,
    {
        let class: i64 = m % 12;
        let white_key = if class == 0 || class == 1 {
            WhiteKey::C
        } else if class == 2 || class == 3 {
            WhiteKey::D
        } else if class == 4 {
            WhiteKey::E
        } else if class == 5 || class == 6 {
            WhiteKey::F
        } else if class == 7 || class == 8 {
            WhiteKey::G
        } else if class == 9 || class == 10 {
            WhiteKey::A
        } else {
            WhiteKey::B
        };
        let accidental = if class == 1 || class == 3 || class == 6 || class == 8 || class == 10 {
            Accidental::Sharp
        } else {
            Accidental::Natural
        };
        let octave: i32 = (m / 12 - 1) as i32;
        proof {
            lemma_note_midi_round_trip(m as int);
        }
        Note { white_key, accidental, octave }
    }
}

/// The canonical spelling of a pitch index recovers that index: spelling a
/// semitone index as a note and resolving the note's pitch round-trips.
pub proof fn lemma_note_midi_round_trip(m: int)
    requires
        0 <= m <= 127,
    ensures
        midi_of(note_from_midi(m)) == m,
{
    let n = note_from_midi(m);
    assert(white_key_semitones(n.white_key) + accidental_semitones(n.accidental) == m % 12);
    assert(m == 12 * (m / 12) + m % 12) by {
        vstd::arithmetic::div_mod::lemma_fundamental_div_mod(m, 12);
    }
}

/// Resolving a playable coordinate to a note and grading that note at the
/// same coordinate judges the guess correct: pitch resolution round-trips
/// with the grading rule.
pub proof fn lemma_coord_note_round_trip(c: FretCoord)
    requires
        coord_playable(c),
        c.fret <= 63,
    ensures
        spec_is_correct(note_from_midi(coord_midi(c)), c),
{
    lemma_note_midi_round_trip(coord_midi(c));
}

/// Whether a clicked coordinate is a correct guess for the round's target
/// note. Unplayable coordinates are never correct; otherwise the clicked
/// pitch must equal the target pitch, octave included.
pub fn is_correct(note_to_guess: &Note, coord: &FretCoord) -> (r: bool)
    ensures
        r == spec_is_correct(*note_to_guess, *coord),
{
    if coord.string < 1 || coord.string > 6 || coord.fret < 0 {
        return false;
    }
    let open: i64 = match coord.string {
        1 => 64,
        2 => 59,
        3 => 55,
        4 => 50,
        5 => 45,
        _ => 40,
    };
    open + coord.fret as i64 == note_to_guess.midi()
}

/// The note a fresh round asks for, derived from a raw random sample:
/// the sample is reduced onto the supported range `MIDI_MIN ..= MIDI_MAX`
/// and spelled canonically.
pub open spec fn note_from_seed(seed: u64) -> Note {
    note_from_midi(MIDI_MIN + seed % 29)
}

/// Reduce a raw random sample to a target note in the supported range.
pub fn sample_note(seed: u64) -> (n: Note)
    ensures
        n == note_from_seed(seed),
        MIDI_MIN <= midi_of(n) <= MIDI_MAX,
{
    let m: i64 = MIDI_MIN + (seed % 29) as i64;
    Note::from_midi(m)
}

} // verus!
