//! The room registry: the process-wide directory of live game sessions.
//!
//! The registry maps a game identifier to at most one live session, and
//! is the only owner of a session's existence: callers reach a session
//! through the registry's own operations, never around them. Its view is
//! the finite map from identifier to session view; every gameplay
//! operation routed through it updates exactly the addressed entry, and
//! an unknown identifier fails with `GameNotFound`. The registry is used
//! under one exclusion scope of its own (`&mut self`), so two racing
//! creations of the same identifier resolve to the same session.

use vstd::prelude::*;

use crate::game::{Delta, Game, GameError, GameV, Status, default_opts, fresh_game, no_duplicates,
    spec_advance, spec_join, spec_leave, spec_start, spec_submit_guess};
use crate::theory::FretCoord;

verus! {

/// The identifiers of an entry sequence, in storage order.
pub open spec fn entries_keys(s: Seq<(i64, Game)>) -> Seq<i64> {
    s.map_values(|e: (i64, Game)| e.0)
}

/// The finite map an entry sequence denotes; on duplicate identifiers
/// the later entry wins.
pub open spec fn map_of(s: Seq<(i64, Game)>) -> Map<i64, GameV>
    decreases s.len(),
{
    if s.len() == 0 {
        Map::empty()
    } else {
        map_of(s.drop_last()).insert(s.last().0, s.last().1@)
    }
}

/// An identifier is in the denoted map exactly when some entry carries
/// it.
pub proof fn lemma_map_of_domain(s: Seq<(i64, Game)>)
    ensures
        forall|k: i64| #[trigger] map_of(s).dom().contains(k) <==> entries_keys(s).contains(k),
    decreases s.len(),
{
    if s.len() > 0 {
        let pre = s.drop_last();
        lemma_map_of_domain(pre);
        assert(entries_keys(s).len() == s.len());
        assert(entries_keys(pre).len() == pre.len());
        assert(entries_keys(s)[s.len() - 1] == s.last().0);
        assert forall|k: i64| #[trigger]
            map_of(s).dom().contains(k) implies entries_keys(s).contains(k) by {
            if k == s.last().0 {
                assert(entries_keys(s)[s.len() - 1] == k);
            } else {
                assert(map_of(pre).dom().contains(k));
                assert(entries_keys(pre).contains(k));
                let j = choose|j: int|
                    0 <= j < entries_keys(pre).len() && entries_keys(pre)[j] == k;
                assert(entries_keys(pre)[j] == pre[j].0);
                assert(pre[j] == s[j]);
                assert(entries_keys(s)[j] == k);
            }
        }
        assert forall|k: i64|
            entries_keys(s).contains(k) implies #[trigger] map_of(s).dom().contains(k) by {
            let j = choose|j: int|
                0 <= j < entries_keys(s).len() && entries_keys(s)[j] == k;
            assert(entries_keys(s)[j] == s[j].0);
            if j < s.len() - 1 {
                assert(pre[j] == s[j]);
                assert(entries_keys(pre)[j] == k);
                assert(entries_keys(pre).contains(k));
                assert(map_of(pre).dom().contains(k));
            } else {
                assert(k == s.last().0);
            }
        }
    }
}

/// With distinct identifiers, each entry is what the denoted map holds
/// under its identifier.
pub proof fn lemma_map_of_index(s: Seq<(i64, Game)>, i: int)
    requires
        no_duplicates(entries_keys(s)),
        0 <= i < s.len(),
    ensures
        map_of(s).dom().contains(s[i].0),
        map_of(s)[s[i].0] == s[i].1@,
    decreases s.len(),
{
    if i == s.len() - 1 {
    } else {
        let pre = s.drop_last();
        assert forall|a: int, b: int|
            0 <= a < b < pre.len() implies entries_keys(pre)[a] != entries_keys(pre)[b] by {
            assert(entries_keys(s)[a] == entries_keys(pre)[a]);
            assert(entries_keys(s)[b] == entries_keys(pre)[b]);
        }
        lemma_map_of_index(pre, i);
        assert(entries_keys(s)[i] != entries_keys(s)[s.len() - 1]);
    }
}

/// Replacing the session of one entry, identifier kept, denotes the map
/// with just that identifier re-bound.
pub proof fn lemma_map_of_update(s: Seq<(i64, Game)>, i: int, g: Game)
    requires
        no_duplicates(entries_keys(s)),
        0 <= i < s.len(),
    ensures
        map_of(s.update(i, (s[i].0, g))) =~= map_of(s).insert(s[i].0, g@),
    decreases s.len(),
{
    let s2 = s.update(i, (s[i].0, g));
    if i == s.len() - 1 {
        assert(s2.drop_last() =~= s.drop_last());
        assert(s2.last() == (s[i].0, g));
    } else {
        let pre = s.drop_last();
        assert forall|a: int, b: int|
            0 <= a < b < pre.len() implies entries_keys(pre)[a] != entries_keys(pre)[b] by {
            assert(entries_keys(s)[a] == entries_keys(pre)[a]);
            assert(entries_keys(s)[b] == entries_keys(pre)[b]);
        }
        lemma_map_of_update(pre, i, g);
        assert(s2.drop_last() =~= pre.update(i, (s[i].0, g)));
        assert(s2.last() == s.last());
        assert(entries_keys(s)[i] != entries_keys(s)[s.len() - 1]);
    }
}

/// Removing one entry denotes the map without its identifier, when the
/// identifiers are distinct.
pub proof fn lemma_map_of_remove(s: Seq<(i64, Game)>, i: int)
    requires
        no_duplicates(entries_keys(s)),
        0 <= i < s.len(),
    ensures
        map_of(s.remove(i)) =~= map_of(s).remove(s[i].0),
    decreases s.len(),
{
    let s2 = s.remove(i);
    let pre = s.drop_last();
    assert forall|a: int, b: int|
        0 <= a < b < pre.len() implies entries_keys(pre)[a] != entries_keys(pre)[b] by {
        assert(entries_keys(s)[a] == entries_keys(pre)[a]);
        assert(entries_keys(s)[b] == entries_keys(pre)[b]);
    }
    if i == s.len() - 1 {
        assert(s2 =~= pre);
        lemma_map_of_domain(pre);
        assert(!entries_keys(pre).contains(s[i].0)) by {
            if entries_keys(pre).contains(s[i].0) {
                let j = choose|j: int| 0 <= j < pre.len() && entries_keys(pre)[j] == s[i].0;
                assert(entries_keys(s)[j] == entries_keys(s)[s.len() - 1]);
            }
        }
        assert(map_of(s).remove(s[i].0) =~= map_of(pre));
    } else {
        lemma_map_of_remove(pre, i);
        assert(s2.drop_last() =~= pre.remove(i));
        assert(s2.last() == s.last());
        assert(entries_keys(s)[i] != entries_keys(s)[s.len() - 1]);
    }
}

/// Appending an entry under a fresh identifier denotes the map with that
/// identifier bound.
pub proof fn lemma_map_of_push(s: Seq<(i64, Game)>, id: i64, g: Game)
    ensures
        map_of(s.push((id, g))) =~= map_of(s).insert(id, g@),
        entries_keys(s.push((id, g))) =~= entries_keys(s).push(id),
{
    let s2 = s.push((id, g));
    assert(s2.drop_last() =~= s);
    assert(s2.last() == (id, g));
}

/// Re-binding the entry at `idx` to a well-formed session that keeps its
/// identifier preserves the registry invariant and re-binds exactly that
/// identifier in the denoted map.
pub proof fn lemma_registry_update(s: Seq<(i64, Game)>, idx: int, id: i64, g2: Game)
    requires
        no_duplicates(entries_keys(s)),
        forall|i: int|
            0 <= i < s.len() ==> (#[trigger] s[i]).1@.id == Some(s[i].0) && s[i].1@.wf(),
        0 <= idx < s.len(),
        s[idx].0 == id,
        g2@.wf(),
        g2@.id == Some(id),
    ensures
        ({
            let s2 = s.update(idx, (id, g2));
            &&& map_of(s2) =~= map_of(s).insert(id, g2@)
            &&& no_duplicates(entries_keys(s2))
            &&& forall|i: int|
                0 <= i < s2.len() ==> (#[trigger] s2[i]).1@.id == Some(s2[i].0) && s2[i].1@.wf()
        }),
{
    let s2 = s.update(idx, (id, g2));
    lemma_map_of_update(s, idx, g2);
    assert(entries_keys(s2) =~= entries_keys(s));
    assert forall|i: int| 0 <= i < s2.len() implies (#[trigger] s2[i]).1@.id == Some(s2[i].0)
        && s2[i].1@.wf() by {
        if i != idx {
            assert(s2[i] == s[i]);
        }
    }
}

/// The process-wide directory of live sessions, keyed by game
/// identifier.
pub struct Registry {
    entries: Vec<(i64, Game)>,
}

impl Registry {
    /// The live entries, in creation order.
    pub closed spec fn entries_seq(self) -> Seq<(i64, Game)> {
        self.entries@
    }

    /// The directory as a finite map from identifier to session view.
    pub open spec fn as_map(self) -> Map<i64, GameV> {
        map_of(self.entries_seq())
    }

    /// Registry invariant: identifiers are distinct — at most one live
    /// session per identifier — each entry's session knows its own
    /// identifier, and every live session is well-formed.
    pub open spec fn inv(self) -> bool {
        &&& no_duplicates(entries_keys(self.entries_seq()))
        &&& forall|i: int|
            0 <= i < self.entries_seq().len() ==> (#[trigger] self.entries_seq()[i]).1@.id == Some(
                self.entries_seq()[i].0,
            ) && self.entries_seq()[i].1@.wf()
    }

    /// An empty directory.
    pub fn new() -> (r: Registry)
        ensures
            r.inv(),
            r.as_map() =~= Map::<i64, GameV>::empty(),
    {
        let r = Registry { entries: Vec::new() };
        proof {
            assert(r.entries_seq() =~= Seq::<(i64, Game)>::empty());
        }
        r
    }

    /// Index of the entry with this identifier, if one is live.
    fn find(&self, id: i64) -> (r: Option<usize>)
        ensures
            match r {
                Some(i) => 0 <= i < self.entries_seq().len() && self.entries_seq()[i as int].0
                    == id,
                None => !entries_keys(self.entries_seq()).contains(id),
            },
    {
        let mut i: usize = 0;
        while i < self.entries.len()
            invariant
                0 <= i <= self.entries.len(),
                forall|k: int| 0 <= k < i ==> self.entries@[k].0 != id,
            decreases self.entries.len() - i,
        {
            if self.entries[i].0 == id {
                return Some(i);
            }
            i += 1;
        }
        proof {
            if entries_keys(self.entries_seq()).contains(id) {
                let j = choose|j: int|
                    0 <= j < self.entries@.len() && entries_keys(self.entries@)[j] == id;
            }
        }
        None
    }

    /// Whether a live session exists under this identifier.
    pub fn contains(&self, id: i64) -> (b: bool)
        ensures
            b == self.as_map().dom().contains(id),
    {
        proof {
            lemma_map_of_domain(self.entries_seq());
        }
        match self.find(id) {
            Some(i) => {
                proof {
                    assert(entries_keys(self.entries_seq())[i as int] == id);
                }
                true
            },
            None => false,
        }
    }

    /// Resolve the session under `id`, creating it — hosted by
    /// `host_id`, in `Init`, with default settings — if none is live.
    /// Racing callers serialized on the registry observe one session,
    /// never two: an existing entry is never replaced.
    pub fn get_or_create(&mut self, id: i64, host_id: i64) -> (created: bool)
        ensures
            old(self).inv() ==> final(self).inv(),
            old(self).inv() ==> {
                if old(self).as_map().dom().contains(id) {
                    !created && final(self).as_map() == old(self).as_map()
                } else {
                    created && final(self).as_map() =~= old(self).as_map().insert(
                        id,
                        fresh_game(Some(id), host_id, default_opts()),
                    )
                }
            },
    {
        proof {
            lemma_map_of_domain(self.entries_seq());
        }
        match self.find(id) {
            Some(i) => {
                proof {
                    assert(entries_keys(self.entries_seq())[i as int] == id);
                }
                false
            },
            None => {
                let mut g = Game::new(host_id);
                g.id = Some(id);
                proof {
                    lemma_map_of_push(old(self).entries_seq(), id, g);
                }
                self.entries.push((id, g));
                proof {
                    if old(self).inv() {
                        let ks = entries_keys(self.entries_seq());
                        assert forall|a: int, b: int| 0 <= a < b < ks.len() implies ks[a]
                            != ks[b] by {
                            if b == ks.len() - 1 {
                                assert(entries_keys(old(self).entries_seq()).contains(ks[a]));
                            }
                        }
                        assert forall|i: int| 0 <= i < self.entries_seq().len() implies (
                        #[trigger] self.entries_seq()[i]).1@.id == Some(self.entries_seq()[i].0)
                            && self.entries_seq()[i].1@.wf() by {
                            if i < self.entries_seq().len() - 1 {
                                assert(self.entries_seq()[i] == old(self).entries_seq()[i]);
                            }
                        }
                    }
                }
                true
            },
        }
    }

    /// Status of the session under `id`.
    pub fn status_of(&self, id: i64) -> (r: Result<Status, GameError>)
        ensures
            self.inv() ==> r == (if self.as_map().dom().contains(id) {
                Ok::<Status, GameError>(self.as_map()[id].status)
            } else {
                Err::<Status, GameError>(GameError::GameNotFound)
            }),
    {
        proof {
            lemma_map_of_domain(self.entries_seq());
        }
        match self.find(id) {
            Some(i) => {
                proof {
                    assert(entries_keys(self.entries_seq())[i as int] == id);
                    if self.inv() {
                        lemma_map_of_index(self.entries_seq(), i as int);
                    }
                }
                Ok(self.entries[i].1.status)
            },
            None => Err(GameError::GameNotFound),
        }
    }

    /// The roster of the session under `id`, in join order.
    pub fn roster_of(&self, id: i64) -> (r: Result<Vec<i64>, GameError>)
        ensures
            self.inv() ==> match r {
                Ok(v) => self.as_map().dom().contains(id) && v@ == self.as_map()[id].player_ids,
                Err(e) => e == GameError::GameNotFound && !self.as_map().dom().contains(id),
            },
    {
        proof {
            lemma_map_of_domain(self.entries_seq());
        }
        match self.find(id) {
            Some(i) => {
                proof {
                    assert(entries_keys(self.entries_seq())[i as int] == id);
                    if self.inv() {
                        lemma_map_of_index(self.entries_seq(), i as int);
                    }
                }
                let roster = &self.entries[i].1.player_ids;
                let mut out: Vec<i64> = Vec::new();
                let mut k: usize = 0;
                while k < roster.len()
                    invariant
                        0 <= k <= roster.len(),
                        out@ == roster@.take(k as int),
                    decreases roster.len() - k,
                {
                    out.push(roster[k]);
                    proof {
                        assert(out@ =~= roster@.take(k + 1));
                    }
                    k += 1;
                }
                proof {
                    assert(roster@.take(roster@.len() as int) =~= roster@);
                }
                Ok(out)
            },
            None => Err(GameError::GameNotFound),
        }
    }

    /// Evict the session under `id` once it is terminal (`GameOver` or
    /// `NoPlayers`); refused with `InvalidState` while gameplay could
    /// still continue, with `GameNotFound` when no session is live.
    pub fn evict(&mut self, id: i64) -> (r: Result<(), GameError>)
        ensures
            old(self).inv() ==> final(self).inv(),
            old(self).inv() ==> {
                if !old(self).as_map().dom().contains(id) {
                    r == Err::<(), GameError>(GameError::GameNotFound) && final(self).as_map()
                        == old(self).as_map()
                } else if !(old(self).as_map()[id].status is GameOver || old(
                    self,
                ).as_map()[id].status is NoPlayers) {
                    r == Err::<(), GameError>(GameError::InvalidState) && final(self).as_map()
                        == old(self).as_map()
                } else {
                    r == Ok::<(), GameError>(()) && final(self).as_map() =~= old(
                        self,
                    ).as_map().remove(id)
                }
            },
    {
        proof {
            lemma_map_of_domain(self.entries_seq());
        }
        let idx = match self.find(id) {
            Some(i) => i,
            None => {
                return Err(GameError::GameNotFound);
            },
        };
        proof {
            assert(entries_keys(self.entries_seq())[idx as int] == id);
            if self.inv() {
                lemma_map_of_index(self.entries_seq(), idx as int);
            }
        }
        let terminal = match self.entries[idx].1.status {
            Status::GameOver => true,
            Status::NoPlayers => true,
            _ => false,
        };
        if !terminal {
            return Err(GameError::InvalidState);
        }
        proof {
            if old(self).inv() {
                lemma_map_of_remove(self.entries_seq(), idx as int);
            }
        }
        let _ = self.entries.remove(idx);
        proof {
            if old(self).inv() {
                let s = old(self).entries_seq();
                let ks = entries_keys(self.entries_seq());
                assert(self.entries_seq() =~= s.remove(idx as int));
                assert forall|a: int, b: int| 0 <= a < b < ks.len() implies ks[a] != ks[b] by {
                    let oa = if a < idx as int {
                        a
                    } else {
                        a + 1
                    };
                    let ob = if b < idx as int {
                        b
                    } else {
                        b + 1
                    };
                    assert(ks[a] == entries_keys(s)[oa]);
                    assert(ks[b] == entries_keys(s)[ob]);
                }
                assert forall|i: int| 0 <= i < self.entries_seq().len() implies (
                #[trigger] self.entries_seq()[i]).1@.id == Some(self.entries_seq()[i].0)
                    && self.entries_seq()[i].1@.wf() by {
                    let oi = if i < idx as int {
                        i
                    } else {
                        i + 1
                    };
                    assert(self.entries_seq()[i] == s[oi]);
                }
            }
        }
        Ok(())
    }

    /// Route `join` to the session under `id`.
    pub fn join_game(&mut self, id: i64, player_id: i64) -> (r: Result<Delta, GameError>)
        ensures
            old(self).inv() ==> final(self).inv(),
            old(self).inv() ==> {
                if !old(self).as_map().dom().contains(id) {
                    r == Err::<Delta, GameError>(GameError::GameNotFound) && final(self).as_map()
                        == old(self).as_map()
                } else {
                    final(self).as_map() =~= old(self).as_map().insert(
                        id,
                        spec_join(old(self).as_map()[id], player_id).0,
                    ) && r == spec_join(old(self).as_map()[id], player_id).1
                }
            },
    {
        proof {
            lemma_map_of_domain(self.entries_seq());
        }
        let idx = match self.find(id) {
            Some(i) => i,
            None => {
                return Err(GameError::GameNotFound);
            },
        };
        proof {
            assert(entries_keys(self.entries_seq())[idx as int] == id);
            if self.inv() {
                lemma_map_of_index(self.entries_seq(), idx as int);
            }
        }
        let mut entry = self.entries.remove(idx);
        let r = entry.1.join(player_id);
        self.entries.insert(idx, entry);
        proof {
            assert(self.entries_seq() =~= old(self).entries_seq().update(
                idx as int,
                self.entries_seq()[idx as int],
            ));
            if old(self).inv() {
                lemma_registry_update(
                    old(self).entries_seq(),
                    idx as int,
                    id,
                    self.entries_seq()[idx as int].1,
                );
            }
        }
        r
    }

    /// Route `leave` to the session under `id`.
    pub fn leave_game(&mut self, id: i64, player_id: i64) -> (r: Result<Delta, GameError>)
        ensures
            old(self).inv() ==> final(self).inv(),
            old(self).inv() ==> {
                if !old(self).as_map().dom().contains(id) {
                    r == Err::<Delta, GameError>(GameError::GameNotFound) && final(self).as_map()
                        == old(self).as_map()
                } else {
                    final(self).as_map() =~= old(self).as_map().insert(
                        id,
                        spec_leave(old(self).as_map()[id], player_id).0,
                    ) && r == spec_leave(old(self).as_map()[id], player_id).1
                }
            },
    {
        proof {
            lemma_map_of_domain(self.entries_seq());
        }
        let idx = match self.find(id) {
            Some(i) => i,
            None => {
                return Err(GameError::GameNotFound);
            },
        };
        proof {
            assert(entries_keys(self.entries_seq())[idx as int] == id);
            if self.inv() {
                lemma_map_of_index(self.entries_seq(), idx as int);
            }
        }
        let mut entry = self.entries.remove(idx);
        let r = entry.1.leave(player_id);
        self.entries.insert(idx, entry);
        proof {
            assert(self.entries_seq() =~= old(self).entries_seq().update(
                idx as int,
                self.entries_seq()[idx as int],
            ));
            if old(self).inv() {
                lemma_registry_update(
                    old(self).entries_seq(),
                    idx as int,
                    id,
                    self.entries_seq()[idx as int].1,
                );
            }
        }
        r
    }

    /// Route `start` to the session under `id`.
    pub fn start_game(&mut self, id: i64, requester_id: i64, seed: u64) -> (r: Result<
        Delta,
        GameError,
    >)
        ensures
            old(self).inv() ==> final(self).inv(),
            old(self).inv() ==> {
                if !old(self).as_map().dom().contains(id) {
                    r == Err::<Delta, GameError>(GameError::GameNotFound) && final(self).as_map()
                        == old(self).as_map()
                } else {
                    final(self).as_map() =~= old(self).as_map().insert(
                        id,
                        spec_start(old(self).as_map()[id], requester_id, seed).0,
                    ) && r == spec_start(old(self).as_map()[id], requester_id, seed).1
                }
            },
    {
        proof {
            lemma_map_of_domain(self.entries_seq());
        }
        let idx = match self.find(id) {
            Some(i) => i,
            None => {
                return Err(GameError::GameNotFound);
            },
        };
        proof {
            assert(entries_keys(self.entries_seq())[idx as int] == id);
            if self.inv() {
                lemma_map_of_index(self.entries_seq(), idx as int);
            }
        }
        let mut entry = self.entries.remove(idx);
        let r = entry.1.start(requester_id, seed);
        self.entries.insert(idx, entry);
        proof {
            assert(self.entries_seq() =~= old(self).entries_seq().update(
                idx as int,
                self.entries_seq()[idx as int],
            ));
            if old(self).inv() {
                lemma_registry_update(
                    old(self).entries_seq(),
                    idx as int,
                    id,
                    self.entries_seq()[idx as int].1,
                );
            }
        }
        r
    }

    /// Route `submit_guess` to the session under `id`.
    pub fn submit_guess(&mut self, id: i64, player_id: i64, coord: FretCoord) -> (r: Result<
        Delta,
        GameError,
    >)
        ensures
            old(self).inv() ==> final(self).inv(),
            old(self).inv() ==> {
                if !old(self).as_map().dom().contains(id) {
                    r == Err::<Delta, GameError>(GameError::GameNotFound) && final(self).as_map()
                        == old(self).as_map()
                } else {
                    final(self).as_map() =~= old(self).as_map().insert(
                        id,
                        spec_submit_guess(old(self).as_map()[id], player_id, coord).0,
                    ) && r == spec_submit_guess(old(self).as_map()[id], player_id, coord).1
                }
            },
    {
        proof {
            lemma_map_of_domain(self.entries_seq());
        }
        let idx = match self.find(id) {
            Some(i) => i,
            None => {
                return Err(GameError::GameNotFound);
            },
        };
        proof {
            assert(entries_keys(self.entries_seq())[idx as int] == id);
            if self.inv() {
                lemma_map_of_index(self.entries_seq(), idx as int);
            }
        }
        let mut entry = self.entries.remove(idx);
        let r = entry.1.submit_guess(player_id, coord);
        self.entries.insert(idx, entry);
        proof {
            assert(self.entries_seq() =~= old(self).entries_seq().update(
                idx as int,
                self.entries_seq()[idx as int],
            ));
            if old(self).inv() {
                lemma_registry_update(
                    old(self).entries_seq(),
                    idx as int,
                    id,
                    self.entries_seq()[idx as int].1,
                );
            }
        }
        r
    }

    /// Route `advance` to the session under `id`.
    pub fn advance_game(&mut self, id: i64, requester_id: i64, seed: u64) -> (r: Result<
        Delta,
        GameError,
    >)
        ensures
            old(self).inv() ==> final(self).inv(),
            old(self).inv() ==> {
                if !old(self).as_map().dom().contains(id) {
                    r == Err::<Delta, GameError>(GameError::GameNotFound) && final(self).as_map()
                        == old(self).as_map()
                } else {
                    final(self).as_map() =~= old(self).as_map().insert(
                        id,
                        spec_advance(old(self).as_map()[id], requester_id, seed).0,
                    ) && r == spec_advance(old(self).as_map()[id], requester_id, seed).1
                }
            },
    {
        proof {
            lemma_map_of_domain(self.entries_seq());
        }
        let idx = match self.find(id) {
            Some(i) => i,
            None => {
                return Err(GameError::GameNotFound);
            },
        };
        proof {
            assert(entries_keys(self.entries_seq())[idx as int] == id);
            if self.inv() {
                lemma_map_of_index(self.entries_seq(), idx as int);
            }
        }
        let mut entry = self.entries.remove(idx);
        let r = entry.1.advance(requester_id, seed);
        self.entries.insert(idx, entry);
        proof {
            assert(self.entries_seq() =~= old(self).entries_seq().update(
                idx as int,
                self.entries_seq()[idx as int],
            ));
            if old(self).inv() {
                lemma_registry_update(
                    old(self).entries_seq(),
                    idx as int,
                    id,
                    self.entries_seq()[idx as int].1,
                );
            }
        }
        r
    }
}

} // verus!
