//! The whole control flow in one piece: a client action resolves a
//! session through the registry, the session returns a delta, and the
//! room's fan-out delivers that delta to every attached connection.

use fq::fanout::Room;
use fq::game::{Delta, Status};
use fq::registry::Registry;
use fq::theory::FretCoord;

const GAME: i64 = 77;
const HOST: i64 = 1;
const GUEST: i64 = 2;

#[test]
fn deltas_flow_from_session_to_connections() {
    let mut reg = Registry::new();
    let mut room = Room::new();

    assert!(reg.get_or_create(GAME, HOST));
    room.attach(HOST, 8);

    // The guest joins and attaches; the join delta reaches both.
    let joined = reg.join_game(GAME, GUEST).unwrap();
    room.attach(GUEST, 8);
    assert!(room.broadcast(joined).is_empty());

    // The host starts; seed 0 targets the open sixth string, E2.
    let started = reg.start_game(GAME, HOST, 0).unwrap();
    assert!(room.broadcast(started).is_empty());

    // The guest wins the only interesting round with the right click.
    let coord = FretCoord { string: 6, fret: 0 };
    let graded = reg.submit_guess(GAME, GUEST, coord).unwrap();
    assert_eq!(
        graded,
        Delta::GuessRecorded { player_id: GUEST, coord, is_correct: true, round_closed: true },
    );
    assert!(room.broadcast(graded).is_empty());

    // The host's connection drains exactly the broadcast history, in
    // delivery order.
    let seen = room.drain(HOST).unwrap();
    assert_eq!(seen.len(), 3);
    assert_eq!(seen[0], Delta::PlayerJoined { player_id: GUEST, rejoined: false });
    assert!(matches!(seen[1], Delta::RoundStarted { round_index: 0, .. }));
    assert_eq!(seen[2], graded);

    // Everyone disconnects: the roster empties, the session parks in
    // NoPlayers and can be evicted; the identifier is free again.
    for p in [HOST, GUEST] {
        room.detach(p);
        reg.leave_game(GAME, p).unwrap();
    }
    assert_eq!(reg.status_of(GAME).unwrap(), Status::NoPlayers);
    assert_eq!(reg.evict(GAME), Ok(()));
    assert!(!reg.contains(GAME));
}
