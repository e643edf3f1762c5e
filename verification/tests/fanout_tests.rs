use fq::fanout::{Room, attach_with_join, disconnect};
use fq::game::{Delta, Game, GameError, Status};

const HOST: i64 = 1;
const PLAYER_ONE: i64 = 2;

#[test]
fn attach_is_idempotent_per_player() {
    let mut room = Room::new();
    assert!(room.attach(PLAYER_ONE, 4));
    assert!(!room.attach(PLAYER_ONE, 4));
    assert_eq!(room.conns.len(), 1);
}

#[test]
fn broadcast_reaches_every_attached_connection() {
    let mut room = Room::new();
    room.attach(HOST, 4);
    room.attach(PLAYER_ONE, 4);
    let msg = Delta::PlayerJoined { player_id: PLAYER_ONE, rejoined: false };
    let dropped = room.broadcast(msg);
    assert!(dropped.is_empty());
    for conn in &room.conns {
        assert_eq!(conn.queue, vec![msg]);
    }
}

#[test]
fn full_connection_is_dropped_not_blocking_siblings() {
    let mut room = Room::new();
    room.attach(HOST, 1);
    room.attach(PLAYER_ONE, 2);
    let first = Delta::GameEnded;
    let second = Delta::PlayerLeft { player_id: PLAYER_ONE, roster_emptied: false };
    assert!(room.broadcast(first).is_empty());
    // HOST's queue (bound 1) is full now: the second delivery drops HOST
    // and still reaches PLAYER_ONE.
    let dropped = room.broadcast(second);
    assert_eq!(dropped, vec![HOST]);
    assert_eq!(room.conns.len(), 1);
    assert_eq!(room.conns[0].player_id, PLAYER_ONE);
    assert_eq!(room.conns[0].queue, vec![first, second]);
}

#[test]
fn drain_hands_back_the_queue_once() {
    let mut room = Room::new();
    room.attach(PLAYER_ONE, 4);
    let msg = Delta::GameEnded;
    room.broadcast(msg);
    assert_eq!(room.drain(PLAYER_ONE), Some(vec![msg]));
    assert_eq!(room.drain(PLAYER_ONE), Some(vec![]));
    assert_eq!(room.drain(99), None);
}

#[test]
fn disconnect_detaches_and_leaves() {
    let mut room = Room::new();
    let mut game = Game::new(HOST);
    game.join(PLAYER_ONE).unwrap();
    room.attach(HOST, 4);
    room.attach(PLAYER_ONE, 4);
    let d = disconnect(&mut room, &mut game, PLAYER_ONE).unwrap();
    assert_eq!(d, Delta::PlayerLeft { player_id: PLAYER_ONE, roster_emptied: false });
    assert_eq!(game.player_ids, vec![HOST]);
    assert_eq!(room.conns.len(), 1);
    assert_eq!(room.conns[0].player_id, HOST);
    // Disconnecting the last member empties the roster.
    let d2 = disconnect(&mut room, &mut game, HOST).unwrap();
    assert_eq!(d2, Delta::PlayerLeft { player_id: HOST, roster_emptied: true });
    assert!(matches!(game.status, Status::NoPlayers));
    assert!(room.conns.is_empty());
}

#[test]
fn attaching_a_stranger_joins_first() {
    let mut room = Room::new();
    let mut game = Game::new(HOST);
    let r = attach_with_join(&mut room, &mut game, PLAYER_ONE, 4).unwrap();
    assert_eq!(r, Some(Delta::PlayerJoined { player_id: PLAYER_ONE, rejoined: false }));
    assert_eq!(game.player_ids, vec![HOST, PLAYER_ONE]);
    assert_eq!(room.conns.len(), 1);
    // A member attaching again joins nothing.
    let r2 = attach_with_join(&mut room, &mut game, PLAYER_ONE, 4).unwrap();
    assert_eq!(r2, None);
    assert_eq!(room.conns.len(), 1);
}

#[test]
fn attach_to_a_started_game_is_refused_for_strangers() {
    let mut room = Room::new();
    let mut game = Game::new(HOST);
    game.start(HOST, 0).unwrap();
    let err = attach_with_join(&mut room, &mut game, PLAYER_ONE, 4).unwrap_err();
    assert_eq!(err, GameError::GameAlreadyStarted);
    assert!(room.conns.is_empty());
    assert_eq!(game.player_ids, vec![HOST]);
}
