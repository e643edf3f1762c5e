use fq::theory::{Accidental, FretCoord, Note, WhiteKey, is_correct, sample_note};

fn note(white_key: WhiteKey, accidental: Accidental, octave: i32) -> Note {
    Note { white_key, accidental, octave }
}

#[test]
fn midi_of_reference_notes() {
    // Middle C.
    assert_eq!(note(WhiteKey::C, Accidental::Natural, 4).midi(), 60);
    // The open sixth string.
    assert_eq!(note(WhiteKey::E, Accidental::Natural, 2).midi(), 40);
    // The open first string.
    assert_eq!(note(WhiteKey::E, Accidental::Natural, 4).midi(), 64);
    // Accidentals shift by one semitone each way.
    assert_eq!(note(WhiteKey::F, Accidental::Sharp, 3).midi(), 54);
    assert_eq!(note(WhiteKey::B, Accidental::Flat, 3).midi(), 58);
}

#[test]
fn enharmonic_spellings_share_a_pitch() {
    let d_sharp = note(WhiteKey::D, Accidental::Sharp, 4);
    let e_flat = note(WhiteKey::E, Accidental::Flat, 4);
    assert_eq!(d_sharp.midi(), e_flat.midi());
    // The same spelling an octave apart does not.
    let e_flat_5 = note(WhiteKey::E, Accidental::Flat, 5);
    assert_ne!(e_flat.midi(), e_flat_5.midi());
}

#[test]
fn from_midi_round_trips() {
    for m in 0..=127i64 {
        let n = Note::from_midi(m);
        assert_eq!(n.midi(), m);
    }
    let c_sharp_4 = Note::from_midi(61);
    assert_eq!(c_sharp_4, note(WhiteKey::C, Accidental::Sharp, 4));
    let e_2 = Note::from_midi(40);
    assert_eq!(e_2, note(WhiteKey::E, Accidental::Natural, 2));
}

#[test]
fn validator_grades_open_strings() {
    let e2 = note(WhiteKey::E, Accidental::Natural, 2);
    assert!(is_correct(&e2, &FretCoord { string: 6, fret: 0 }));
    // Same pitch class, wrong octave: not correct.
    let e3 = note(WhiteKey::E, Accidental::Natural, 3);
    assert!(!is_correct(&e3, &FretCoord { string: 6, fret: 0 }));
    // The open fifth string is A2.
    let a2 = note(WhiteKey::A, Accidental::Natural, 2);
    assert!(is_correct(&a2, &FretCoord { string: 5, fret: 0 }));
}

#[test]
fn validator_accepts_enharmonic_targets() {
    // F-flat 4 is the same pitch as the open first string, E4.
    let f_flat_4 = note(WhiteKey::F, Accidental::Flat, 4);
    assert!(is_correct(&f_flat_4, &FretCoord { string: 1, fret: 0 }));
    // B3 at the second string, and as C-flat 4.
    let b3 = note(WhiteKey::B, Accidental::Natural, 3);
    assert!(is_correct(&b3, &FretCoord { string: 2, fret: 0 }));
    let c_flat_4 = note(WhiteKey::C, Accidental::Flat, 4);
    assert!(is_correct(&c_flat_4, &FretCoord { string: 2, fret: 0 }));
}

#[test]
fn validator_rejects_unplayable_coordinates() {
    let e2 = note(WhiteKey::E, Accidental::Natural, 2);
    assert!(!is_correct(&e2, &FretCoord { string: 0, fret: 0 }));
    assert!(!is_correct(&e2, &FretCoord { string: 7, fret: 0 }));
    assert!(!is_correct(&e2, &FretCoord { string: 6, fret: -1 }));
}

#[test]
fn validator_is_deterministic() {
    let g3 = note(WhiteKey::G, Accidental::Natural, 3);
    let coord = FretCoord { string: 3, fret: 0 };
    let first = is_correct(&g3, &coord);
    for _ in 0..10 {
        assert_eq!(is_correct(&g3, &coord), first);
    }
    assert!(first);
}

#[test]
fn sampled_notes_stay_in_range() {
    for seed in [0u64, 1, 28, 29, 57, u64::MAX] {
        let n = sample_note(seed);
        let m = n.midi();
        assert!((40..=68).contains(&m));
    }
    // The reduction is the sample modulo the range width.
    assert_eq!(sample_note(0).midi(), 40);
    assert_eq!(sample_note(28).midi(), 68);
    assert_eq!(sample_note(29).midi(), 40);
}
