//! Connection fan-out: the per-room set of live player connections.
//!
//! Each attached connection owns a bounded outbound queue of state
//! deltas. Broadcasting appends the delta to every connection with room
//! left in its queue, independently: a full (slow or broken) connection
//! never blocks delivery to its siblings — it is dropped instead, and the
//! caller invokes the session's `leave` for the dropped players, keeping
//! roster and liveness consistent. Attaching to a room one is not yet a
//! player of joins the session first.

use vstd::prelude::*;

use crate::game::{Delta, Game, GameError, no_duplicates, spec_join, spec_leave};

verus! {

/// One live player connection: who it belongs to and its bounded
/// outbound queue of not-yet-delivered deltas.
pub struct Conn {
    pub player_id: i64,
    pub queue: Vec<Delta>,
    pub capacity: usize,
}

/// Mathematical view of a `Conn`.
#[verifier::ext_equal]
pub ghost struct ConnV {
    pub player_id: i64,
    pub queue: Seq<Delta>,
    pub capacity: usize,
}

impl View for Conn {
    type V = ConnV;

    open spec fn view(&self) -> ConnV {
        ConnV { player_id: self.player_id, queue: self.queue@, capacity: self.capacity }
    }
}

/// The set of connections attached to one room.
pub struct Room {
    pub conns: Vec<Conn>,
}

impl View for Room {
    type V = Seq<ConnV>;

    open spec fn view(&self) -> Seq<ConnV> {
        self.conns@.map_values(|c: Conn| c@)
    }
}

/// The owners of a connection sequence, in attach order.
pub open spec fn conn_ids(s: Seq<ConnV>) -> Seq<i64> {
    s.map_values(|c: ConnV| c.player_id)
}

impl Room {
    /// Room invariant: one connection per player, every queue within its
    /// bound, every bound positive.
    pub open spec fn inv(self) -> bool {
        &&& no_duplicates(conn_ids(self@))
        &&& forall|i: int|
            0 <= i < self@.len() ==> (#[trigger] self@[i]).capacity >= 1 && self@[i].queue.len()
                <= self@[i].capacity
    }
}

/// Result of broadcasting a delta: the connections that accepted it —
/// each with the delta appended — in order, and the owners of the
/// connections that were full and are dropped.
pub open spec fn spec_broadcast(conns: Seq<ConnV>, msg: Delta) -> (Seq<ConnV>, Seq<i64>)
    decreases conns.len(),
{
    if conns.len() == 0 {
        (Seq::empty(), Seq::empty())
    } else {
        let (rest_kept, rest_dropped) = spec_broadcast(conns.drop_last(), msg);
        let c = conns.last();
        if c.queue.len() < c.capacity {
            (rest_kept.push(ConnV { queue: c.queue.push(msg), ..c }), rest_dropped)
        } else {
            (rest_kept, rest_dropped.push(c.player_id))
        }
    }
}

/// Broadcasting partitions the room — every connection is either kept or
/// dropped — and every kept connection receives the delta, regardless of
/// how many siblings overflowed.
pub proof fn lemma_broadcast_delivers(conns: Seq<ConnV>, msg: Delta)
    ensures
        spec_broadcast(conns, msg).0.len() + spec_broadcast(conns, msg).1.len() == conns.len(),
        forall|j: int|
            0 <= j < spec_broadcast(conns, msg).0.len() ==> (#[trigger] spec_broadcast(
                conns,
                msg,
            ).0[j]).queue.len() >= 1 && spec_broadcast(conns, msg).0[j].queue.last() == msg,
    decreases conns.len(),
{
    if conns.len() > 0 {
        lemma_broadcast_delivers(conns.drop_last(), msg);
    }
}

/// A connection with room in its queue is never dropped by a broadcast:
/// siblings overflowing cannot cost a healthy connection its place.
pub proof fn lemma_broadcast_spares_ready(conns: Seq<ConnV>, msg: Delta)
    requires
        no_duplicates(conn_ids(conns)),
    ensures
        forall|i: int|
            0 <= i < conns.len() && (#[trigger] conns[i]).queue.len() < conns[i].capacity
                ==> !spec_broadcast(conns, msg).1.contains(conns[i].player_id),
    decreases conns.len(),
{
    if conns.len() > 0 {
        let pre = conns.drop_last();
        let c = conns.last();
        assert(conn_ids(conns)[conns.len() - 1] == c.player_id);
        assert forall|a: int, b: int|
            0 <= a < b < conn_ids(pre).len() implies conn_ids(pre)[a] != conn_ids(pre)[b] by {
            assert(conn_ids(conns)[a] == conn_ids(pre)[a]);
            assert(conn_ids(conns)[b] == conn_ids(pre)[b]);
        }
        lemma_broadcast_spares_ready(pre, msg);
        lemma_broadcast_inv(pre, msg);
        let rest_dropped = spec_broadcast(pre, msg).1;
        let dropped = spec_broadcast(conns, msg).1;
        assert(!conn_ids(pre).contains(c.player_id)) by {
            if conn_ids(pre).contains(c.player_id) {
                let j = choose|j: int|
                    0 <= j < conn_ids(pre).len() && conn_ids(pre)[j] == c.player_id;
                assert(conn_ids(conns)[j] == conn_ids(conns)[conns.len() - 1]);
            }
        }
        assert forall|i: int|
            0 <= i < conns.len() && (#[trigger] conns[i]).queue.len() < conns[i].capacity
                implies !dropped.contains(conns[i].player_id) by {
            if c.queue.len() < c.capacity {
                assert(dropped == rest_dropped);
                if i < conns.len() - 1 {
                    assert(conns[i] == pre[i]);
                } else {
                    assert(!rest_dropped.contains(c.player_id));
                }
            } else {
                assert(dropped == rest_dropped.push(c.player_id));
                assert(i < conns.len() - 1);
                assert(conns[i] == pre[i]);
                assert(conn_ids(pre)[i] == pre[i].player_id);
                assert(pre[i].player_id != c.player_id) by {
                    assert(conn_ids(conns)[i] == pre[i].player_id);
                }
                if dropped.contains(conns[i].player_id) {
                    let j = choose|j: int|
                        0 <= j < dropped.len() && dropped[j] == conns[i].player_id;
                    if j < dropped.len() - 1 {
                        assert(rest_dropped[j] == conns[i].player_id);
                        assert(rest_dropped.contains(conns[i].player_id));
                    } else {
                        assert(dropped[j] == c.player_id);
                    }
                }
            }
        }
    }
}

/// Broadcasting keeps the room invariant: kept connections still belong
/// to distinct players, stay within their bounds, and every kept or
/// dropped owner was attached before.
pub proof fn lemma_broadcast_inv(conns: Seq<ConnV>, msg: Delta)
    ensures
        forall|q: i64|
            #[trigger] conn_ids(spec_broadcast(conns, msg).0).contains(q) ==> conn_ids(
                conns,
            ).contains(q),
        forall|q: i64|
            #[trigger] spec_broadcast(conns, msg).1.contains(q) ==> conn_ids(conns).contains(q),
        no_duplicates(conn_ids(conns)) ==> no_duplicates(conn_ids(spec_broadcast(conns, msg).0)),
        (forall|i: int|
            0 <= i < conns.len() ==> (#[trigger] conns[i]).capacity >= 1 && conns[i].queue.len()
                <= conns[i].capacity) ==> (forall|j: int|
            0 <= j < spec_broadcast(conns, msg).0.len() ==> (#[trigger] spec_broadcast(
                conns,
                msg,
            ).0[j]).capacity >= 1 && spec_broadcast(conns, msg).0[j].queue.len()
                <= spec_broadcast(conns, msg).0[j].capacity),
    decreases conns.len(),
{
    if conns.len() > 0 {
        let pre = conns.drop_last();
        lemma_broadcast_inv(pre, msg);
        let c = conns.last();
        let (rest_kept, rest_dropped) = spec_broadcast(pre, msg);
        let (kept, dropped) = spec_broadcast(conns, msg);
        assert(conn_ids(conns).len() == conns.len());
        assert(conn_ids(conns)[conns.len() - 1] == c.player_id);
        assert forall|q: i64| #[trigger]
            conn_ids(pre).contains(q) implies conn_ids(conns).contains(q) by {
            let j = choose|j: int| 0 <= j < conn_ids(pre).len() && conn_ids(pre)[j] == q;
            assert(pre[j] == conns[j]);
            assert(conn_ids(conns)[j] == q);
        }
        if c.queue.len() < c.capacity {
            assert(conn_ids(kept) =~= conn_ids(rest_kept).push(c.player_id));
            assert forall|q: i64| #[trigger] conn_ids(kept).contains(q) implies conn_ids(
                conns,
            ).contains(q) by {
                let j = choose|j: int| 0 <= j < conn_ids(kept).len() && conn_ids(kept)[j] == q;
                if j < conn_ids(kept).len() - 1 {
                    assert(conn_ids(rest_kept)[j] == q);
                    assert(conn_ids(rest_kept).contains(q));
                } else {
                    assert(q == c.player_id);
                }
            }
            if no_duplicates(conn_ids(conns)) {
                assert forall|a: int, b: int|
                    0 <= a < b < conn_ids(pre).len() implies conn_ids(pre)[a] != conn_ids(
                    pre,
                )[b] by {
                    assert(conn_ids(conns)[a] == conn_ids(pre)[a]);
                    assert(conn_ids(conns)[b] == conn_ids(pre)[b]);
                }
                assert(!conn_ids(pre).contains(c.player_id)) by {
                    if conn_ids(pre).contains(c.player_id) {
                        let j = choose|j: int|
                            0 <= j < conn_ids(pre).len() && conn_ids(pre)[j] == c.player_id;
                        assert(conn_ids(conns)[j] == conn_ids(conns)[conns.len() - 1]);
                    }
                }
                assert(!conn_ids(rest_kept).contains(c.player_id));
                assert forall|a: int, b: int|
                    0 <= a < b < conn_ids(kept).len() implies conn_ids(kept)[a] != conn_ids(
                    kept,
                )[b] by {
                    if b < conn_ids(kept).len() - 1 {
                        assert(conn_ids(kept)[a] == conn_ids(rest_kept)[a]);
                        assert(conn_ids(kept)[b] == conn_ids(rest_kept)[b]);
                    } else {
                        assert(conn_ids(kept)[a] == conn_ids(rest_kept)[a]);
                        assert(conn_ids(rest_kept).contains(conn_ids(rest_kept)[a]));
                    }
                }
            }
        } else {
            assert forall|q: i64| #[trigger] dropped.contains(q) implies conn_ids(
                conns,
            ).contains(q) by {
                let j = choose|j: int| 0 <= j < dropped.len() && dropped[j] == q;
                if j < dropped.len() - 1 {
                    assert(rest_dropped[j] == q);
                    assert(rest_dropped.contains(q));
                } else {
                    assert(q == c.player_id);
                }
            }
            if no_duplicates(conn_ids(conns)) {
                assert forall|a: int, b: int|
                    0 <= a < b < conn_ids(pre).len() implies conn_ids(pre)[a] != conn_ids(
                    pre,
                )[b] by {
                    assert(conn_ids(conns)[a] == conn_ids(pre)[a]);
                    assert(conn_ids(conns)[b] == conn_ids(pre)[b]);
                }
            }
        }
    }
}

impl Room {
    /// A room with no connections attached.
    pub fn new() -> (r: Room)
        ensures
            r@ =~= Seq::<ConnV>::empty(),
            r.inv(),
    {
        let r = Room { conns: Vec::new() };
        proof {
            assert(r@ =~= Seq::<ConnV>::empty());
        }
        r
    }

    /// Index of this player's connection, if attached.
    fn find(&self, player_id: i64) -> (r: Option<usize>)
        ensures
            match r {
                Some(i) => 0 <= i < self@.len() && self@[i as int].player_id == player_id,
                None => !conn_ids(self@).contains(player_id),
            },
    {
        let mut i: usize = 0;
        while i < self.conns.len()
            invariant
                0 <= i <= self.conns.len(),
                forall|k: int| 0 <= k < i ==> self@[k].player_id != player_id,
            decreases self.conns.len() - i,
        {
            if self.conns[i].player_id == player_id {
                return Some(i);
            }
            i += 1;
        }
        proof {
            if conn_ids(self@).contains(player_id) {
                let j = choose|j: int|
                    0 <= j < conn_ids(self@).len() && conn_ids(self@)[j] == player_id;
                assert(self@[j].player_id == player_id);
            }
        }
        None
    }

    /// Attach a connection for `player_id` with the given queue bound
    /// (raised to 1 if 0 was asked). An already-attached player keeps
    /// the existing connection.
    pub fn attach(&mut self, player_id: i64, capacity: usize) -> (attached: bool)
        ensures
            final(self)@ == (if conn_ids(old(self)@).contains(player_id) {
                old(self)@
            } else {
                old(self)@.push(
                    ConnV {
                        player_id,
                        queue: Seq::empty(),
                        capacity: if capacity == 0 {
                            1usize
                        } else {
                            capacity
                        },
                    },
                )
            }),
            attached == !conn_ids(old(self)@).contains(player_id),
            old(self).inv() ==> final(self).inv(),
    {
        match self.find(player_id) {
            Some(i) => {
                proof {
                    assert(conn_ids(self@)[i as int] == player_id);
                    assert(conn_ids(self@).contains(player_id));
                }
                false
            },
            None => {
                let cap = if capacity == 0 {
                    1
                } else {
                    capacity
                };
                self.conns.push(Conn { player_id, queue: Vec::new(), capacity: cap });
                proof {
                    let c = ConnV { player_id, queue: Seq::empty(), capacity: cap };
                    assert(self@ =~~= old(self)@.push(c));
                    if old(self).inv() {
                        assert(conn_ids(self@) =~= conn_ids(old(self)@).push(player_id));
                        assert forall|a: int, b: int|
                            0 <= a < b < conn_ids(self@).len() implies conn_ids(self@)[a]
                            != conn_ids(self@)[b] by {
                            if b == conn_ids(self@).len() - 1 {
                                assert(conn_ids(old(self)@).contains(conn_ids(old(self)@)[a]));
                            }
                        }
                    }
                }
                true
            },
        }
    }

    /// Detach this player's connection, if attached.
    pub fn detach(&mut self, player_id: i64) -> (was_attached: bool)
        ensures
            was_attached == conn_ids(old(self)@).contains(player_id),
            !was_attached ==> final(self)@ == old(self)@,
            was_attached ==> exists|i: int|
                0 <= i < old(self)@.len() && old(self)@[i].player_id == player_id && final(self)@
                    =~= old(self)@.remove(i),
            old(self).inv() ==> final(self).inv(),
    {
        let idx = match self.find(player_id) {
            Some(i) => i,
            None => {
                return false;
            },
        };
        proof {
            assert(conn_ids(self@)[idx as int] == player_id);
            assert(conn_ids(self@).contains(player_id));
        }
        let _ = self.conns.remove(idx);
        proof {
            let s = old(self)@;
            assert(self@ =~= s.remove(idx as int));
            if old(self).inv() {
                let ks = conn_ids(self@);
                assert forall|a: int, b: int| 0 <= a < b < ks.len() implies ks[a] != ks[b] by {
                    let oa = if a < idx as int {
                        a
                    } else {
                        a + 1
                    };
                    let ob = if b < idx as int {
                        b
                    } else {
                        b + 1
                    };
                    assert(ks[a] == conn_ids(s)[oa]);
                    assert(ks[b] == conn_ids(s)[ob]);
                }
                assert forall|i: int| 0 <= i < self@.len() implies (#[trigger] self@[i]).capacity
                    >= 1 && self@[i].queue.len() <= self@[i].capacity by {
                    let oi = if i < idx as int {
                        i
                    } else {
                        i + 1
                    };
                    assert(self@[i] == s[oi]);
                }
            }
        }
        true
    }

    /// Deliver a delta to every attached connection. A connection with
    /// room in its queue receives it; a full one is dropped from the
    /// room, never delaying its siblings, and its owner is returned so
    /// the caller can invoke the session's `leave` for it.
    pub fn broadcast(&mut self, msg: Delta) -> (dropped: Vec<i64>)
        ensures
            final(self)@ == spec_broadcast(old(self)@, msg).0,
            dropped@ == spec_broadcast(old(self)@, msg).1,
            old(self).inv() ==> final(self).inv(),
    {
        let ghost orig = self@;
        let mut kept: Vec<Conn> = Vec::new();
        let mut dropped: Vec<i64> = Vec::new();
        let ghost mut i: int = 0;
        while self.conns.len() > 0
            invariant
                0 <= i <= orig.len(),
                self.conns@.map_values(|c: Conn| c@) =~= orig.subrange(i, orig.len() as int),
                (kept@.map_values(|c: Conn| c@), dropped@) == spec_broadcast(
                    orig.take(i),
                    msg,
                ),
            decreases self.conns.len(),
        {
            proof {
                assert(self.conns@.map_values(|c: Conn| c@).len() == self.conns@.len());
                assert(i < orig.len());
                assert(orig.take(i + 1).drop_last() =~= orig.take(i));
                assert(orig.take(i + 1).last() == orig[i]);
                assert(self.conns@.map_values(|c: Conn| c@)[0] == orig[i]);
            }
            let ghost pre = self.conns@;
            let mut c = self.conns.remove(0);
            proof {
                assert(self.conns@ =~= pre.subrange(1, pre.len() as int));
                assert forall|k: int|
                    0 <= k < self.conns@.len() implies #[trigger] self.conns@[k]@ == orig[i + 1
                    + k] by {
                    assert(self.conns@[k] == pre[k + 1]);
                    assert(pre.map_values(|c: Conn| c@)[k + 1] == orig[i + 1 + k]);
                }
            }
            let ghost kept_pre = kept@.map_values(|c: Conn| c@);
            if c.queue.len() < c.capacity {
                c.queue.push(msg);
                kept.push(c);
                proof {
                    assert(kept@.map_values(|c: Conn| c@) =~= kept_pre.push(
                        ConnV { queue: orig[i].queue.push(msg), ..orig[i] },
                    ));
                }
            } else {
                dropped.push(c.player_id);
            }
            proof {
                assert(self.conns@.map_values(|c: Conn| c@) =~= orig.subrange(
                    i + 1,
                    orig.len() as int,
                ));
                i = i + 1;
                assert((kept@.map_values(|c: Conn| c@), dropped@) == spec_broadcast(
                    orig.take(i),
                    msg,
                ));
            }
        }
        proof {
            assert(orig.take(orig.len() as int) =~= orig);
        }
        self.conns = kept;
        proof {
            lemma_broadcast_inv(orig, msg);
            lemma_broadcast_delivers(orig, msg);
        }
        dropped
    }

    /// Hand back everything queued for this player's connection and
    /// leave the queue empty, ready for the connection task to deliver.
    pub fn drain(&mut self, player_id: i64) -> (r: Option<Vec<Delta>>)
        ensures
            r is None ==> !conn_ids(old(self)@).contains(player_id) && final(self)@ == old(
                self,
            )@,
            r matches Some(q) ==> exists|i: int|
                0 <= i < old(self)@.len() && (#[trigger] old(self)@[i]).player_id == player_id
                    && q@ == old(self)@[i].queue && final(self)@ =~= old(self)@.update(
                    i,
                    ConnV { queue: Seq::empty(), ..old(self)@[i] },
                ),
            old(self).inv() ==> final(self).inv(),
    {
        let idx = match self.find(player_id) {
            Some(i) => i,
            None => {
                return None;
            },
        };
        let mut conn = self.conns.remove(idx);
        let queue = conn.queue;
        conn.queue = Vec::new();
        self.conns.insert(idx, conn);
        proof {
            let s = old(self)@;
            let i = idx as int;
            assert(self@ =~~= s.update(i, ConnV { queue: Seq::empty(), ..s[i] }));
            if old(self).inv() {
                assert(conn_ids(self@) =~= conn_ids(s));
                assert forall|k: int| 0 <= k < self@.len() implies (#[trigger] self@[k]).capacity
                    >= 1 && self@[k].queue.len() <= self@[k].capacity by {
                    if k != i {
                        assert(self@[k] == s[k]);
                    }
                }
            }
        }
        Some(queue)
    }
}

/// Handle a disconnect: the connection is detached from the room and the
/// session's `leave` is invoked for the same player, so roster and
/// liveness stay consistent.
pub fn disconnect(room: &mut Room, game: &mut Game, player_id: i64) -> (r: Result<
    Delta,
    GameError,
>)
    ensures
        conn_ids(old(room)@).contains(player_id) ==> exists|i: int|
            0 <= i < old(room)@.len() && (#[trigger] old(room)@[i]).player_id == player_id
                && final(room)@ =~= old(room)@.remove(i),
        !conn_ids(old(room)@).contains(player_id) ==> final(room)@ == old(room)@,
        final(game)@ == spec_leave(old(game)@, player_id).0,
        r == spec_leave(old(game)@, player_id).1,
        old(room).inv() ==> final(room).inv(),
        old(game)@.wf() ==> final(game)@.wf(),
{
    let _ = room.detach(player_id);
    game.leave(player_id)
}

/// Attach a connection for a player, joining the session first when the
/// player is not yet on the roster, as an attach to an unfamiliar room
/// requires. Fails — attaching nothing — when that join is refused.
pub fn attach_with_join(room: &mut Room, game: &mut Game, player_id: i64, capacity: usize) -> (r:
    Result<Option<Delta>, GameError>)
    ensures
        old(game)@.player_ids.contains(player_id) ==> final(game)@ == old(game)@ && r == Ok::<
            Option<Delta>,
            GameError,
        >(None),
        !old(game)@.player_ids.contains(player_id) ==> {
            let (g2, jr) = spec_join(old(game)@, player_id);
            match jr {
                Ok(d) => final(game)@ == g2 && r == Ok::<Option<Delta>, GameError>(Some(d)),
                Err(e) => final(game)@ == old(game)@ && r == Err::<Option<Delta>, GameError>(e),
            }
        },
        (r is Ok) ==> final(room)@ == (if conn_ids(old(room)@).contains(player_id) {
            old(room)@
        } else {
            old(room)@.push(
                ConnV {
                    player_id,
                    queue: Seq::empty(),
                    capacity: if capacity == 0 {
                        1usize
                    } else {
                        capacity
                    },
                },
            )
        }),
        (r is Err) ==> final(room)@ == old(room)@,
        old(room).inv() ==> final(room).inv(),
        old(game)@.wf() ==> final(game)@.wf(),
{
    if !game.is_member(player_id) {
        match game.join(player_id) {
            Ok(d) => {
                let _ = room.attach(player_id, capacity);
                Ok(Some(d))
            },
            Err(e) => Err(e),
        }
    } else {
        let _ = room.attach(player_id, capacity);
        Ok(None)
    }
}

} // verus!
