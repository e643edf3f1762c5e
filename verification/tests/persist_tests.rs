use fq::game::Status;
use fq::persist::{GuessRow, OptsRow, RoundRow, WriteOutcome, WriteTask, assemble_game,
    decode_note, str_eq};
use fq::theory::{Accidental, FretCoord, Note, WhiteKey};

#[test]
fn string_equality_matches_exactly() {
    assert!(str_eq("Playing", "Playing"));
    assert!(!str_eq("Playing", "playing"));
    assert!(!str_eq("Playing", "Playin"));
    assert!(str_eq("", ""));
}

#[test]
fn white_key_text_round_trips() {
    let keys = [
        WhiteKey::A,
        WhiteKey::B,
        WhiteKey::C,
        WhiteKey::D,
        WhiteKey::E,
        WhiteKey::F,
        WhiteKey::G,
    ];
    for k in keys {
        assert_eq!(WhiteKey::from(k.as_str()), Some(k));
    }
    assert_eq!(WhiteKey::from("H"), None);
    assert_eq!(WhiteKey::from("a"), None);
}

#[test]
fn accidental_text_round_trips() {
    for a in [Accidental::Natural, Accidental::Sharp, Accidental::Flat] {
        assert_eq!(Accidental::from(a.as_str()), Some(a));
    }
    assert_eq!(Accidental::from("DoubleSharp"), None);
}

#[test]
fn decode_note_reads_the_columns() {
    assert_eq!(
        decode_note("C", Some("Sharp"), 4),
        Some(Note { white_key: WhiteKey::C, accidental: Accidental::Sharp, octave: 4 }),
    );
    // A missing accidental column means natural.
    assert_eq!(
        decode_note("E", None, 2),
        Some(Note { white_key: WhiteKey::E, accidental: Accidental::Natural, octave: 2 }),
    );
    assert_eq!(decode_note("X", None, 2), None);
    assert_eq!(decode_note("E", Some("Huge"), 2), None);
}

#[test]
fn assemble_game_rebuilds_everything() {
    let opts = OptsRow { id: 7, num_rounds: 2, start_fret: 0, end_fret: 4 };
    let rounds = vec![
        RoundRow { id: 100, white_key: String::from("E"), accidental: None, octave: 2 },
        RoundRow {
            id: 101,
            white_key: String::from("C"),
            accidental: Some(String::from("Sharp")),
            octave: 4,
        },
    ];
    let guesses = vec![
        GuessRow {
            id: 500,
            user_id: 2,
            round_id: 100,
            clicked_fret: 1,
            clicked_string: 6,
            is_correct: false,
        },
        GuessRow {
            id: 501,
            user_id: 3,
            round_id: 101,
            clicked_fret: 0,
            clicked_string: 2,
            is_correct: false,
        },
        GuessRow {
            id: 502,
            user_id: 3,
            round_id: 100,
            clicked_fret: 0,
            clicked_string: 6,
            is_correct: true,
        },
    ];
    let game = assemble_game(9, 1, "RoundOver", opts, vec![1, 2, 3], &rounds, &guesses).unwrap();
    assert_eq!(game.id, Some(9));
    assert_eq!(game.host_id, Some(1));
    assert!(matches!(game.status, Status::RoundOver));
    assert_eq!(game.player_ids, vec![1, 2, 3]);
    assert_eq!(game.opts.id, Some(7));
    assert_eq!(game.opts.game_id, Some(9));
    assert_eq!(game.opts.num_rounds, 2);
    assert_eq!(game.rounds.len(), 2);

    let r0 = &game.rounds[0];
    assert_eq!(r0.id, Some(100));
    assert_eq!(
        r0.note_to_guess,
        Note { white_key: WhiteKey::E, accidental: Accidental::Natural, octave: 2 },
    );
    // Guesses are attached to their own round, in fetched order.
    assert_eq!(r0.guesses.len(), 2);
    assert_eq!(r0.guesses[0].id, Some(500));
    assert_eq!(r0.guesses[0].user_id, Some(2));
    assert_eq!(r0.guesses[0].clicked_fret_coord, FretCoord { string: 6, fret: 1 });
    assert!(!r0.guesses[0].is_correct);
    assert_eq!(r0.guesses[1].id, Some(502));
    assert!(r0.guesses[1].is_correct);

    let r1 = &game.rounds[1];
    assert_eq!(r1.id, Some(101));
    assert_eq!(
        r1.note_to_guess,
        Note { white_key: WhiteKey::C, accidental: Accidental::Sharp, octave: 4 },
    );
    assert_eq!(r1.guesses.len(), 1);
    assert_eq!(r1.guesses[0].id, Some(501));
}

#[test]
fn assemble_game_refuses_bad_rows() {
    let opts = OptsRow { id: 7, num_rounds: 2, start_fret: 0, end_fret: 4 };
    let none = assemble_game(9, 1, "Parked", opts, vec![1], &vec![], &vec![]);
    assert!(none.is_none());
    let bad_round = vec![RoundRow {
        id: 100,
        white_key: String::from("Q"),
        accidental: None,
        octave: 2,
    }];
    let none2 = assemble_game(9, 1, "Playing", opts, vec![1], &bad_round, &vec![]);
    assert!(none2.is_none());
}

#[test]
fn retry_policy_backs_off_then_degrades() {
    let mut task = WriteTask::new(4);
    assert_eq!(task.record_attempt(false), WriteOutcome::Retry { backoff_ms: 100 });
    assert_eq!(task.record_attempt(false), WriteOutcome::Retry { backoff_ms: 200 });
    assert_eq!(task.record_attempt(false), WriteOutcome::Retry { backoff_ms: 400 });
    // The budget of 4 attempts is spent: the write degrades, nothing is
    // rolled back.
    assert_eq!(task.record_attempt(false), WriteOutcome::Degraded);
    assert_eq!(task.attempts_used, 3);
}

#[test]
fn retry_policy_commits_on_success() {
    let mut task = WriteTask::new(4);
    assert_eq!(task.record_attempt(false), WriteOutcome::Retry { backoff_ms: 100 });
    assert_eq!(task.record_attempt(true), WriteOutcome::Committed);
    assert_eq!(task.attempts_used, 1);
}

#[test]
fn backoff_is_capped() {
    let mut task = WriteTask::new(100);
    let mut last = 0u64;
    for _ in 0..20 {
        match task.record_attempt(false) {
            WriteOutcome::Retry { backoff_ms } => {
                assert!(backoff_ms <= 6400);
                assert!(backoff_ms >= last.min(6400));
                last = backoff_ms;
            }
            other => panic!("unexpected outcome {:?}", other),
        }
    }
    assert_eq!(last, 6400);
}
