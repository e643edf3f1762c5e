use fq::game::{Delta, Game, GameError, Opts, Status};
use fq::theory::FretCoord;

const HOST: i64 = 1;
const PLAYER_ONE: i64 = 2;
const PLAYER_TWO: i64 = 3;

// A seed that makes the target note the open sixth string, E2.
const SEED_E2: u64 = 0;

fn one_round_game() -> Game {
    let opts = Opts { id: None, game_id: None, num_rounds: 1, start_fret: 0, end_fret: 4 };
    let mut game = Game::create(HOST, opts).unwrap();
    game.join(PLAYER_ONE).unwrap();
    game.join(PLAYER_TWO).unwrap();
    game
}

#[test]
fn new_game_defaults() {
    let g = Game::new(HOST);
    assert!(g.id.is_none());
    assert_eq!(g.host_id, Some(HOST));
    assert!(matches!(g.status, Status::Init));
    assert_eq!(g.player_ids, vec![HOST]);
    assert_eq!(g.opts.num_rounds, 4);
    assert_eq!(g.opts.start_fret, 0);
    assert_eq!(g.opts.end_fret, 4);
    assert!(g.rounds.is_empty());
}

#[test]
fn create_rejects_invalid_opts() {
    let no_rounds = Opts { id: None, game_id: None, num_rounds: 0, start_fret: 0, end_fret: 4 };
    assert_eq!(Game::create(HOST, no_rounds).unwrap_err(), GameError::InvalidOpts);
    let bad_range = Opts { id: None, game_id: None, num_rounds: 2, start_fret: 5, end_fret: 4 };
    assert_eq!(Game::create(HOST, bad_range).unwrap_err(), GameError::InvalidOpts);
}

#[test]
fn full_one_round_game_first_correct_wins() {
    let mut game = one_round_game();
    let d = game.start(HOST, SEED_E2).unwrap();
    assert!(matches!(d, Delta::RoundStarted { round_index: 0, .. }));
    assert!(matches!(game.status, Status::Playing));
    assert_eq!(game.rounds.len(), 1);

    // PLAYER_ONE clicks a wrong coordinate: recorded, round stays open.
    let wrong = FretCoord { string: 6, fret: 1 };
    let d1 = game.submit_guess(PLAYER_ONE, wrong).unwrap();
    assert_eq!(
        d1,
        Delta::GuessRecorded { player_id: PLAYER_ONE, coord: wrong, is_correct: false, round_closed: false },
    );
    assert!(matches!(game.status, Status::Playing));

    // PLAYER_TWO clicks the target: the round closes with PLAYER_TWO's guess winning.
    let right = FretCoord { string: 6, fret: 0 };
    let d2 = game.submit_guess(PLAYER_TWO, right).unwrap();
    assert_eq!(
        d2,
        Delta::GuessRecorded { player_id: PLAYER_TWO, coord: right, is_correct: true, round_closed: true },
    );
    assert!(matches!(game.status, Status::RoundOver));
    let round = &game.rounds[0];
    assert_eq!(round.guesses.len(), 2);
    let winner = &round.guesses[1];
    assert_eq!(winner.user_id, Some(PLAYER_TWO));
    assert!(winner.is_correct);
    assert_eq!(round.guesses.iter().filter(|g| g.is_correct).count(), 1);

    // The single configured round is played: advancing ends the game.
    let d3 = game.advance(HOST, 7).unwrap();
    assert_eq!(d3, Delta::GameEnded);
    assert!(matches!(game.status, Status::GameOver));
    assert_eq!(game.rounds.len(), 1);
}

#[test]
fn non_host_cannot_start() {
    let mut game = one_round_game();
    assert_eq!(game.start(PLAYER_ONE, SEED_E2).unwrap_err(), GameError::Unauthorized);
    assert!(matches!(game.status, Status::Init));
    assert!(game.rounds.is_empty());
}

#[test]
fn second_guess_in_a_round_is_refused() {
    let mut game = one_round_game();
    game.start(HOST, SEED_E2).unwrap();
    let wrong = FretCoord { string: 6, fret: 1 };
    game.submit_guess(PLAYER_ONE, wrong).unwrap();
    let again = FretCoord { string: 6, fret: 2 };
    assert_eq!(game.submit_guess(PLAYER_ONE, again).unwrap_err(), GameError::DuplicateGuess);
    // The round is unchanged.
    assert_eq!(game.rounds[0].guesses.len(), 1);
    assert_eq!(game.rounds[0].guesses[0].clicked_fret_coord, wrong);
    assert!(matches!(game.status, Status::Playing));
}

#[test]
fn join_is_idempotent() {
    let mut game = Game::new(HOST);
    let first = game.join(PLAYER_ONE).unwrap();
    assert_eq!(first, Delta::PlayerJoined { player_id: PLAYER_ONE, rejoined: false });
    let again = game.join(PLAYER_ONE).unwrap();
    assert_eq!(again, Delta::PlayerJoined { player_id: PLAYER_ONE, rejoined: true });
    assert_eq!(game.player_ids, vec![HOST, PLAYER_ONE]);
}

#[test]
fn join_after_start_is_refused() {
    let mut game = one_round_game();
    game.start(HOST, SEED_E2).unwrap();
    assert_eq!(game.join(42).unwrap_err(), GameError::GameAlreadyStarted);
}

#[test]
fn leave_empties_to_no_players() {
    let mut game = one_round_game();
    game.start(HOST, SEED_E2).unwrap();
    assert_eq!(
        game.leave(PLAYER_ONE).unwrap(),
        Delta::PlayerLeft { player_id: PLAYER_ONE, roster_emptied: false },
    );
    assert!(matches!(game.status, Status::Playing));
    game.leave(PLAYER_TWO).unwrap();
    let d = game.leave(HOST).unwrap();
    assert_eq!(d, Delta::PlayerLeft { player_id: HOST, roster_emptied: true });
    assert!(matches!(game.status, Status::NoPlayers));
    assert!(game.player_ids.is_empty());
    // A terminal session accepts no guesses.
    let coord = FretCoord { string: 6, fret: 0 };
    assert_eq!(game.submit_guess(PLAYER_ONE, coord).unwrap_err(), GameError::InvalidState);
}

#[test]
fn leave_of_non_member_is_refused() {
    let mut game = Game::new(HOST);
    assert_eq!(game.leave(PLAYER_ONE).unwrap_err(), GameError::NotAMember);
    assert_eq!(game.player_ids, vec![HOST]);
}

#[test]
fn round_count_never_exceeds_configured() {
    let opts = Opts { id: None, game_id: None, num_rounds: 2, start_fret: 0, end_fret: 4 };
    let mut game = Game::create(HOST, opts).unwrap();
    game.join(PLAYER_ONE).unwrap();
    game.start(HOST, SEED_E2).unwrap();
    let right = FretCoord { string: 6, fret: 0 };
    game.submit_guess(PLAYER_ONE, right).unwrap();
    assert!(matches!(game.status, Status::RoundOver));
    // Second round.
    let d = game.advance(HOST, SEED_E2).unwrap();
    assert!(matches!(d, Delta::RoundStarted { round_index: 1, .. }));
    assert_eq!(game.rounds.len(), 2);
    game.submit_guess(PLAYER_ONE, right).unwrap();
    // Exactly num_rounds rounds have been played: the next advance ends it.
    assert_eq!(game.advance(HOST, 9).unwrap(), Delta::GameEnded);
    assert!(matches!(game.status, Status::GameOver));
    assert_eq!(game.rounds.len(), 2);
    // No further advance or guess is accepted.
    assert_eq!(game.advance(HOST, 9).unwrap_err(), GameError::InvalidState);
    assert_eq!(game.submit_guess(PLAYER_ONE, right).unwrap_err(), GameError::InvalidState);
}

#[test]
fn round_closes_when_every_member_guessed() {
    let mut game = one_round_game();
    game.start(HOST, SEED_E2).unwrap();
    let wrong = FretCoord { string: 6, fret: 1 };
    let d_host = game.submit_guess(HOST, wrong).unwrap();
    assert!(matches!(d_host, Delta::GuessRecorded { round_closed: false, .. }));
    let d1 = game.submit_guess(PLAYER_ONE, wrong).unwrap();
    assert!(matches!(d1, Delta::GuessRecorded { round_closed: false, .. }));
    // The last member's (wrong) guess closes the round with no winner.
    let d2 = game.submit_guess(PLAYER_TWO, wrong).unwrap();
    assert_eq!(
        d2,
        Delta::GuessRecorded { player_id: PLAYER_TWO, coord: wrong, is_correct: false, round_closed: true },
    );
    assert!(matches!(game.status, Status::RoundOver));
    assert!(game.rounds[0].guesses.iter().all(|g| !g.is_correct));
}

#[test]
fn out_of_range_coordinates_are_refused() {
    let mut game = one_round_game();
    game.start(HOST, SEED_E2).unwrap();
    // Fret beyond the configured range.
    let far = FretCoord { string: 6, fret: 5 };
    assert_eq!(game.submit_guess(PLAYER_ONE, far).unwrap_err(), GameError::CoordOutOfRange);
    // String outside the tuning.
    let off = FretCoord { string: 7, fret: 0 };
    assert_eq!(game.submit_guess(PLAYER_ONE, off).unwrap_err(), GameError::CoordOutOfRange);
    assert!(game.rounds[0].guesses.is_empty());
}

#[test]
fn non_member_cannot_guess() {
    let mut game = one_round_game();
    game.start(HOST, SEED_E2).unwrap();
    let coord = FretCoord { string: 6, fret: 0 };
    assert_eq!(game.submit_guess(99, coord).unwrap_err(), GameError::NotAMember);
}

#[test]
fn advance_is_host_only_and_round_over_only() {
    let mut game = one_round_game();
    assert_eq!(game.advance(HOST, 4).unwrap_err(), GameError::InvalidState);
    game.start(HOST, SEED_E2).unwrap();
    assert_eq!(game.advance(HOST, 4).unwrap_err(), GameError::InvalidState);
    let right = FretCoord { string: 6, fret: 0 };
    game.submit_guess(PLAYER_ONE, right).unwrap();
    assert_eq!(game.advance(PLAYER_ONE, 4).unwrap_err(), GameError::Unauthorized);
    assert!(matches!(game.status, Status::RoundOver));
}

#[test]
fn status_text_round_trips() {
    let all = [
        Status::Init,
        Status::Playing,
        Status::RoundOver,
        Status::GameOver,
        Status::NoPlayers,
    ];
    for st in all {
        let text = st.status_str();
        assert_eq!(Status::from(text), Some(st));
    }
    assert_eq!(Status::Init.status_str(), "Init");
    assert_eq!(Status::NoPlayers.status_str(), "NoPlayers");
    assert_eq!(Status::from("Resting"), None);
    assert_eq!(Status::from(""), None);
}
