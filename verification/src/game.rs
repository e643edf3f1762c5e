//! The per-game session state machine.
//!
//! A `Game` moves through `Init` → `Playing` ⇄ `RoundOver` → `GameOver`,
//! with `NoPlayers` reachable the instant the roster empties. Every
//! operation is specified by a pure transition function over the game's
//! mathematical view (`GameV`): the executable method returns exactly the
//! state and delta the transition function gives, and preserves the
//! session invariant `GameV::wf`. Operations take `&mut self`, so two
//! concurrent calls on one session are serialized by exclusive access;
//! the recorded order of guesses is the order in which that exclusion was
//! acquired.

use vstd::prelude::*;

use crate::theory::{FretCoord, Note, coord_playable, is_correct, note_from_seed, spec_is_correct,
    sample_note};
use crate::persist::str_eq;

verus! {

/// Lifecycle status of a game session. `Init`, `GameOver` and `NoPlayers`
/// accept no guesses.
#[derive(Clone, Copy, Debug, PartialEq, Eq, Structural)]
pub enum Status {
    Init,
    Playing,
    RoundOver,
    GameOver,
    NoPlayers,
}

/// Why a gameplay operation was refused. A refused operation changes no
/// state.
#[derive(Clone, Copy, Debug, PartialEq, Eq, Structural)]
pub enum GameError {
    /// Game settings rejected at creation.
    InvalidOpts,
    /// The operation is not legal in the current status.
    InvalidState,
    /// A non-host attempted a host-only action.
    Unauthorized,
    /// The acting player is not on the roster.
    NotAMember,
    /// The player already guessed in the current round.
    DuplicateGuess,
    /// The clicked coordinate is outside the game's fret range.
    CoordOutOfRange,
    /// Joining was attempted after the game left `Init`.
    GameAlreadyStarted,
    /// No live session exists under the requested identifier.
    GameNotFound,
    /// A durable history write failed permanently; gameplay continues.
    PersistenceDegraded,
}

/// Settings a game is created with. `num_rounds` is how many rounds are
/// played; guesses must land between `start_fret` and `end_fret`
/// inclusive. The identifiers are assigned by the persistence layer.
#[derive(Clone, Copy, Debug, PartialEq, Eq)]
pub struct Opts {
    pub id: Option<i64>,
    pub game_id: Option<i64>,
    pub num_rounds: i32,
    pub start_fret: i32,
    pub end_fret: i32,
}

impl Opts {
    /// The default settings: four rounds on the first five frets.
    pub fn new() -> (o: Opts)
        ensures
            o == (Opts { id: None, game_id: None, num_rounds: 4, start_fret: 0, end_fret: 4 }),
    {
        Opts { id: None, game_id: None, num_rounds: 4, start_fret: 0, end_fret: 4 }
    }
}

/// Whether settings are acceptable: at least one round and a non-empty
/// fret range.
pub open spec fn opts_valid(o: Opts) -> bool {
    o.num_rounds >= 1 && o.start_fret <= o.end_fret
}

/// The default settings, as `Opts::new` builds them.
pub open spec fn default_opts() -> Opts {
    Opts { id: None, game_id: None, num_rounds: 4, start_fret: 0, end_fret: 4 }
}

/// A fresh session view: in `Init`, hosted by `host_id` and so far only
/// populated by the host, with no rounds yet.
pub open spec fn fresh_game(id: Option<i64>, host_id: i64, opts: Opts) -> GameV {
    GameV {
        id,
        host_id: Some(host_id),
        status: Status::Init,
        player_ids: seq![host_id],
        opts,
        rounds: Seq::empty(),
    }
}

/// One player's graded submission for one round. `round_id` is the owning
/// round's durable identifier, or -1 while the round has none yet.
/// `is_correct` is fixed at submission time and never changes.
#[derive(Clone, Copy, Debug, PartialEq, Eq)]
pub struct Guess {
    pub id: Option<i64>,
    pub user_id: Option<i64>,
    pub round_id: i64,
    pub clicked_fret_coord: FretCoord,
    pub is_correct: bool,
}

/// One round: the target note and the guesses so far, in submission
/// order.
#[derive(Debug)]
pub struct Round {
    pub id: Option<i64>,
    pub note_to_guess: Note,
    pub guesses: Vec<Guess>,
}

/// Mathematical view of a `Round`.
#[verifier::ext_equal]
pub ghost struct RoundV {
    pub id: Option<i64>,
    pub note_to_guess: Note,
    pub guesses: Seq<Guess>,
}

impl View for Round {
    type V = RoundV;

    open spec fn view(&self) -> RoundV {
        RoundV { id: self.id, note_to_guess: self.note_to_guess, guesses: self.guesses@ }
    }
}

impl Round {
    /// A fresh round with no guesses: the target note is derived from
    /// `seed`, a raw random sample the caller draws.
    pub fn new(seed: u64) -> (r: Round)
        ensures
            r@ == fresh_round(note_from_seed(seed)),
    {
        let r = Round { id: None, note_to_guess: sample_note(seed), guesses: Vec::new() };
        proof {
            assert(r@ =~~= fresh_round(note_from_seed(seed)));
        }
        r
    }
}

/// The durable identifier guesses of this round carry: the round's own
/// identifier, or -1 while none is assigned.
pub open spec fn round_id_of(r: RoundV) -> i64 {
    match r.id {
        Some(i) => i,
        None => -1i64,
    }
}

impl RoundV {
    /// Whether this player already has a guess in the round.
    pub open spec fn player_has_guessed(self, player_id: i64) -> bool {
        exists|k: int| 0 <= k < self.guesses.len() && self.guesses[k].user_id == Some(player_id)
    }

    /// Whether some guess in the round is correct.
    pub open spec fn has_correct(self) -> bool {
        exists|k: int| 0 <= k < self.guesses.len() && self.guesses[k].is_correct
    }

    /// No two guesses in the round share a submitter.
    pub open spec fn distinct_guessers(self) -> bool {
        forall|i: int, j: int|
            0 <= i < j < self.guesses.len() ==> self.guesses[i].user_id != self.guesses[j].user_id
    }

    /// At most one guess in the round is marked correct: the round
    /// closed the moment the first correct guess was recorded.
    pub open spec fn at_most_one_correct(self) -> bool {
        forall|i: int, j: int|
            0 <= i < self.guesses.len() && 0 <= j < self.guesses.len()
                && self.guesses[i].is_correct && self.guesses[j].is_correct ==> i == j
    }

    /// Every guess carries a submitter, the round's identifier, and the
    /// grade the validator gives its coordinate against the round's
    /// target note.
    pub open spec fn guesses_wf(self) -> bool {
        forall|k: int|
            0 <= k < self.guesses.len() ==> {
                let g = #[trigger] self.guesses[k];
                &&& g.user_id is Some
                &&& g.round_id == round_id_of(self)
                &&& g.is_correct == spec_is_correct(self.note_to_guess, g.clicked_fret_coord)
            }
    }
}

/// A game session: host, lifecycle status, roster in join order (the
/// host is the first entry), settings, and rounds in play order.
#[derive(Debug)]
pub struct Game {
    pub id: Option<i64>,
    pub host_id: Option<i64>,
    pub status: Status,
    pub player_ids: Vec<i64>,
    pub opts: Opts,
    pub rounds: Vec<Round>,
}

/// Mathematical view of a `Game`.
#[verifier::ext_equal]
pub ghost struct GameV {
    pub id: Option<i64>,
    pub host_id: Option<i64>,
    pub status: Status,
    pub player_ids: Seq<i64>,
    pub opts: Opts,
    pub rounds: Seq<RoundV>,
}

impl View for Game {
    type V = GameV;

    open spec fn view(&self) -> GameV {
        GameV {
            id: self.id,
            host_id: self.host_id,
            status: self.status,
            player_ids: self.player_ids@,
            opts: self.opts,
            rounds: self.rounds@.map_values(|r: Round| r@),
        }
    }
}

/// No identifier occurs twice in the sequence.
pub open spec fn no_duplicates(s: Seq<i64>) -> bool {
    forall|i: int, j: int| 0 <= i < j < s.len() ==> s[i] != s[j]
}

/// Every current member has a guess in the round.
pub open spec fn all_members_guessed(players: Seq<i64>, r: RoundV) -> bool {
    forall|q: i64| players.contains(q) ==> r.player_has_guessed(q)
}

impl GameV {
    /// The session invariant. Constructors establish it and every
    /// operation preserves it.
    pub open spec fn wf(self) -> bool {
        &&& opts_valid(self.opts)
        &&& self.rounds.len() <= self.opts.num_rounds
        &&& no_duplicates(self.player_ids)
        &&& ((self.status is Init || self.status is Playing || self.status is RoundOver)
            ==> self.player_ids.len() >= 1)
        &&& ((self.status is Playing || self.status is RoundOver) ==> self.rounds.len() >= 1)
        &&& (self.status is Init ==> self.rounds.len() == 0)
        &&& (self.status is GameOver ==> self.rounds.len() == self.opts.num_rounds)
        &&& (self.status is NoPlayers ==> self.player_ids.len() == 0)
        &&& (forall|i: int|
            0 <= i < self.rounds.len() ==> {
                let r = #[trigger] self.rounds[i];
                r.guesses_wf() && r.distinct_guessers() && r.at_most_one_correct()
            })
        &&& (self.status is Playing ==> !self.rounds.last().has_correct())
        &&& (forall|i: int|
            0 <= i < self.rounds.len() - 1 ==> (#[trigger] self.rounds[i]).guesses.len() >= 1)
        &&& ((self.status is RoundOver || self.status is GameOver) ==> self.rounds.last().guesses.len() >= 1)
    }
}

/// What a session operation reports for the fan-out to broadcast: the
/// exact change it applied.
#[derive(Clone, Copy, Debug, PartialEq, Eq)]
pub enum Delta {
    /// A player is on the roster; `rejoined` if the player already was.
    PlayerJoined { player_id: i64, rejoined: bool },
    /// A player left; `roster_emptied` when that made the session
    /// `NoPlayers`.
    PlayerLeft { player_id: i64, roster_emptied: bool },
    /// A new round began at this index with this target note.
    RoundStarted { round_index: usize, note_to_guess: Note },
    /// A guess was graded and recorded; `round_closed` when it ended the
    /// round.
    GuessRecorded { player_id: i64, coord: FretCoord, is_correct: bool, round_closed: bool },
    /// The final round was closed and the game is over.
    GameEnded,
}

/// The roster with every occurrence of `player_id` removed, order kept.
pub open spec fn roster_without(s: Seq<i64>, player_id: i64) -> Seq<i64>
    decreases s.len(),
{
    if s.len() == 0 {
        Seq::empty()
    } else {
        let rest = roster_without(s.drop_last(), player_id);
        if s.last() == player_id {
            rest
        } else {
            rest.push(s.last())
        }
    }
}

/// Removing a player keeps exactly the other members, keeps the roster
/// duplicate-free, and never grows it.
pub proof fn lemma_roster_without_props(s: Seq<i64>, player_id: i64)
    ensures
        forall|q: i64|
            #[trigger] roster_without(s, player_id).contains(q) <==> (s.contains(q) && q
                != player_id),
        no_duplicates(s) ==> no_duplicates(roster_without(s, player_id)),
        roster_without(s, player_id).len() <= s.len(),
    decreases s.len(),
{
    if s.len() == 0 {
    } else {
        let pre = s.drop_last();
        lemma_roster_without_props(pre, player_id);
        let rest = roster_without(pre, player_id);
        assert forall|q: i64| s.contains(q) <==> (pre.contains(q) || s.last() == q) by {
            if s.contains(q) {
                let k = choose|k: int| 0 <= k < s.len() && s[k] == q;
                if k < s.len() - 1 {
                    assert(pre[k] == q);
                    assert(pre.contains(q));
                }
            }
            if pre.contains(q) {
                let k = choose|k: int| 0 <= k < pre.len() && pre[k] == q;
                assert(s[k] == q);
            }
            if s.last() == q {
                assert(s[s.len() - 1] == q);
            }
        }
        if s.last() == player_id {
        } else {
            let out = rest.push(s.last());
            assert forall|q: i64| #[trigger] out.contains(q) <==> (rest.contains(q) || q
                == s.last()) by {
                if out.contains(q) {
                    let k = choose|k: int| 0 <= k < out.len() && out[k] == q;
                    if k < rest.len() {
                        assert(rest[k] == q);
                        assert(rest.contains(q));
                    }
                }
                if rest.contains(q) {
                    let k = choose|k: int| 0 <= k < rest.len() && rest[k] == q;
                    assert(out[k] == q);
                }
                assert(out[out.len() - 1] == s.last());
            }
            if no_duplicates(s) {
                assert(no_duplicates(pre));
                assert(!pre.contains(s.last())) by {
                    if pre.contains(s.last()) {
                        let k = choose|k: int| 0 <= k < pre.len() && pre[k] == s.last();
                        assert(s[k] == s[s.len() - 1]);
                    }
                }
                assert(!rest.contains(s.last()));
                assert forall|i: int, j: int| 0 <= i < j < out.len() implies out[i] != out[j] by {
                    if j < out.len() - 1 {
                        assert(out[i] == rest[i] && out[j] == rest[j]);
                    } else {
                        assert(out[i] == rest[i]);
                        assert(rest.contains(rest[i]));
                    }
                }
            }
        }
    }
}

/// Transition for `join`: only legal in `Init`; appends an absent player,
/// leaves a present one in place.
pub open spec fn spec_join(g: GameV, player_id: i64) -> (GameV, Result<Delta, GameError>) {
    if !(g.status is Init) {
        (g, Err(GameError::GameAlreadyStarted))
    } else if g.player_ids.contains(player_id) {
        (g, Ok(Delta::PlayerJoined { player_id, rejoined: true }))
    } else {
        (
            GameV { player_ids: g.player_ids.push(player_id), ..g },
            Ok(Delta::PlayerJoined { player_id, rejoined: false }),
        )
    }
}

/// Transition for `leave`: removes a member at any status; the instant
/// the roster empties, the session becomes `NoPlayers`.
pub open spec fn spec_leave(g: GameV, player_id: i64) -> (GameV, Result<Delta, GameError>) {
    if !g.player_ids.contains(player_id) {
        (g, Err(GameError::NotAMember))
    } else {
        let roster = roster_without(g.player_ids, player_id);
        let emptied = roster.len() == 0;
        let status = if emptied {
            Status::NoPlayers
        } else {
            g.status
        };
        (
            GameV { player_ids: roster, status, ..g },
            Ok(Delta::PlayerLeft { player_id, roster_emptied: emptied }),
        )
    }
}

/// A fresh round with the given target note and no guesses yet.
pub open spec fn fresh_round(note: Note) -> RoundV {
    RoundV { id: None, note_to_guess: note, guesses: Seq::empty() }
}

/// Transition for `start`: host-only, `Init` only; samples round 1's
/// target note from the raw sample and begins play.
pub open spec fn spec_start(g: GameV, requester_id: i64, seed: u64) -> (
    GameV,
    Result<Delta, GameError>,
) {
    if !(g.status is Init) {
        (g, Err(GameError::InvalidState))
    } else if g.host_id != Some(requester_id) {
        (g, Err(GameError::Unauthorized))
    } else {
        let note = note_from_seed(seed);
        (
            GameV { status: Status::Playing, rounds: seq![fresh_round(note)], ..g },
            Ok(Delta::RoundStarted { round_index: 0, note_to_guess: note }),
        )
    }
}

/// Whether a coordinate may be guessed under these settings: a playable
/// position whose fret lies in the configured range.
pub open spec fn coord_in_range(o: Opts, coord: FretCoord) -> bool {
    coord_playable(coord) && o.start_fret <= coord.fret <= o.end_fret
}

/// Transition for `submit_guess`: legal only while `Playing`, for a
/// member with no guess in the current round and a coordinate in range.
/// The guess is graded by the validator and appended; the round closes at
/// once on a correct guess, or when every current member has guessed.
pub open spec fn spec_submit_guess(g: GameV, player_id: i64, coord: FretCoord) -> (
    GameV,
    Result<Delta, GameError>,
) {
    if !(g.status is Playing && g.rounds.len() >= 1) {
        (g, Err(GameError::InvalidState))
    } else if !g.player_ids.contains(player_id) {
        (g, Err(GameError::NotAMember))
    } else if !coord_in_range(g.opts, coord) {
        (g, Err(GameError::CoordOutOfRange))
    } else if g.rounds.last().player_has_guessed(player_id) {
        (g, Err(GameError::DuplicateGuess))
    } else {
        let round = g.rounds.last();
        let correct = spec_is_correct(round.note_to_guess, coord);
        let guess = Guess {
            id: None,
            user_id: Some(player_id),
            round_id: round_id_of(round),
            clicked_fret_coord: coord,
            is_correct: correct,
        };
        let round2 = RoundV { guesses: round.guesses.push(guess), ..round };
        let closed = correct || all_members_guessed(g.player_ids, round2);
        let status = if closed {
            Status::RoundOver
        } else {
            Status::Playing
        };
        (
            GameV { status, rounds: g.rounds.update(g.rounds.len() - 1, round2), ..g },
            Ok(
                Delta::GuessRecorded {
                    player_id,
                    coord,
                    is_correct: correct,
                    round_closed: closed,
                },
            ),
        )
    }
}

/// How many rounds this game plays in total (never negative).
pub open spec fn rounds_target(o: Opts) -> int {
    if o.num_rounds <= 0 {
        0
    } else {
        o.num_rounds as int
    }
}

/// Transition for `advance`: host-only, `RoundOver` only; begins the next
/// round with a freshly sampled note, or ends the game once every round
/// has been played.
pub open spec fn spec_advance(g: GameV, requester_id: i64, seed: u64) -> (
    GameV,
    Result<Delta, GameError>,
) {
    if !(g.status is RoundOver) {
        (g, Err(GameError::InvalidState))
    } else if g.host_id != Some(requester_id) {
        (g, Err(GameError::Unauthorized))
    } else if g.rounds.len() >= rounds_target(g.opts) {
        (GameV { status: Status::GameOver, ..g }, Ok(Delta::GameEnded))
    } else {
        let note = note_from_seed(seed);
        (
            GameV { status: Status::Playing, rounds: g.rounds.push(fresh_round(note)), ..g },
            Ok(
                Delta::RoundStarted {
                    round_index: g.rounds.len() as usize,
                    note_to_guess: note,
                },
            ),
        )
    }
}

/// `contains` for a roster vector.
fn roster_contains(v: &Vec<i64>, player_id: i64) -> (b: bool)
    ensures
        b == v@.contains(player_id),
{
    let mut i: usize = 0;
    while i < v.len()
        invariant
            0 <= i <= v.len(),
            forall|k: int| 0 <= k < i ==> v@[k] != player_id,
        decreases v.len() - i,
    {
        if v[i] == player_id {
            return true;
        }
        i += 1;
    }
    false
}

/// Whether this player already has a guess in the round.
fn round_has_guess_by(r: &Round, player_id: i64) -> (b: bool)
    ensures
        b == r@.player_has_guessed(player_id),
{
    let mut i: usize = 0;
    while i < r.guesses.len()
        invariant
            0 <= i <= r.guesses.len(),
            forall|k: int| 0 <= k < i ==> r@.guesses[k].user_id != Some(player_id),
        decreases r.guesses.len() - i,
    {
        let has_it = match r.guesses[i].user_id {
            Some(u) => u == player_id,
            None => false,
        };
        if has_it {
            return true;
        }
        i += 1;
    }
    false
}

/// Whether every current member has a guess in the round.
fn check_all_members_guessed(players: &Vec<i64>, r: &Round) -> (b: bool)
    ensures
        b == all_members_guessed(players@, r@),
{
    let mut i: usize = 0;
    while i < players.len()
        invariant
            0 <= i <= players.len(),
            forall|k: int| 0 <= k < i ==> r@.player_has_guessed(players@[k]),
        decreases players.len() - i,
    {
        if !round_has_guess_by(r, players[i]) {
            assert(players@.contains(players@[i as int]));
            return false;
        }
        i += 1;
    }
    assert forall|q: i64| players@.contains(q) implies r@.player_has_guessed(q) by {
        let k = choose|k: int| 0 <= k < players@.len() && players@[k] == q;
    }
    true
}

impl Status {
    /// The status's durable text form, as the persistence layer stores
    /// it.
    pub fn status_str(&self) -> (r: &'static str)
        ensures
            r@ == status_name(*self),
    {
        match self {
            Status::Init => "Init",
            Status::Playing => "Playing",
            Status::RoundOver => "RoundOver",
            Status::GameOver => "GameOver",
            Status::NoPlayers => "NoPlayers",
        }
    }

    /// Decode a status from its durable text form; `None` for any other
    /// text.
    pub fn from(s: &str) -> (r: Option<Status>)
        ensures
            r == spec_status_from(s@),
    {
        if str_eq(s, "Init") {
            Some(Status::Init)
        } else if str_eq(s, "Playing") {
            Some(Status::Playing)
        } else if str_eq(s, "RoundOver") {
            Some(Status::RoundOver)
        } else if str_eq(s, "GameOver") {
            Some(Status::GameOver)
        } else if str_eq(s, "NoPlayers") {
            Some(Status::NoPlayers)
        } else {
            None
        }
    }
}

/// The durable text form of each status.
pub open spec fn status_name(s: Status) -> Seq<char> {
    match s {
        Status::Init => "Init"@,
        Status::Playing => "Playing"@,
        Status::RoundOver => "RoundOver"@,
        Status::GameOver => "GameOver"@,
        Status::NoPlayers => "NoPlayers"@,
    }
}

/// The status a durable text form decodes to, if any.
pub open spec fn spec_status_from(s: Seq<char>) -> Option<Status> {
    if s == status_name(Status::Init) {
        Some(Status::Init)
    } else if s == status_name(Status::Playing) {
        Some(Status::Playing)
    } else if s == status_name(Status::RoundOver) {
        Some(Status::RoundOver)
    } else if s == status_name(Status::GameOver) {
        Some(Status::GameOver)
    } else if s == status_name(Status::NoPlayers) {
        Some(Status::NoPlayers)
    } else {
        None
    }
}

/// Encoding a status and decoding the text recovers the status: the five
/// durable text forms are pairwise distinct.
pub proof fn lemma_status_round_trip(s: Status)
    ensures
        spec_status_from(status_name(s)) == Some(s),
{
    reveal_strlit("Init");
    reveal_strlit("Playing");
    reveal_strlit("RoundOver");
    reveal_strlit("GameOver");
    reveal_strlit("NoPlayers");
    assert(status_name(Status::Init).len() == 4);
    assert(status_name(Status::Playing).len() == 7);
    assert(status_name(Status::RoundOver).len() == 9);
    assert(status_name(Status::GameOver).len() == 8);
    assert(status_name(Status::NoPlayers).len() == 9);
    assert(status_name(Status::RoundOver)[0] == 'R');
    assert(status_name(Status::NoPlayers)[0] == 'N');
}

impl Game {
    /// A fresh session in `Init`, hosted and so far only populated by
    /// `host_id`, with the default settings and no rounds.
    pub fn new(host_id: i64) -> (g: Game)
        ensures
            g@ == fresh_game(None, host_id, default_opts()),
            g@.wf(),
    {
        let g = Game {
            id: None,
            host_id: Some(host_id),
            status: Status::Init,
            opts: Opts::new(),
            rounds: Vec::new(),
            player_ids: vec![host_id],
        };
        proof {
            assert(g@.rounds =~= Seq::<RoundV>::empty());
            assert(g@.player_ids =~= seq![host_id]);
        }
        g
    }

    /// A fresh session with the given settings; refused with
    /// `InvalidOpts` when the settings ask for no rounds or an empty fret
    /// range.
    pub fn create(host_id: i64, opts: Opts) -> (r: Result<Game, GameError>)
        ensures
            opts_valid(opts) ==> (r matches Ok(g) && g@ == fresh_game(None, host_id, opts)
                && g@.wf()),
            !opts_valid(opts) ==> r == Err::<Game, GameError>(GameError::InvalidOpts),
    {
        if opts.num_rounds < 1 || opts.start_fret > opts.end_fret {
            return Err(GameError::InvalidOpts);
        }
        let g = Game {
            id: None,
            host_id: Some(host_id),
            status: Status::Init,
            opts,
            rounds: Vec::new(),
            player_ids: vec![host_id],
        };
        proof {
            assert(g@.rounds =~= Seq::<RoundV>::empty());
            assert(g@.player_ids =~= seq![host_id]);
        }
        Ok(g)
    }

    /// Whether `player_id` is on the roster.
    pub fn is_member(&self, player_id: i64) -> (b: bool)
        ensures
            b == self@.player_ids.contains(player_id),
    {
        roster_contains(&self.player_ids, player_id)
    }

    /// Append `player_id` to the roster. Only legal before the game
    /// starts; joining again is accepted and changes nothing.
    pub fn join(&mut self, player_id: i64) -> (r: Result<Delta, GameError>)
        ensures
            final(self)@ == spec_join(old(self)@, player_id).0,
            r == spec_join(old(self)@, player_id).1,
            old(self)@.wf() ==> final(self)@.wf(),
    {
        match self.status {
            Status::Init => {},
            _ => {
                return Err(GameError::GameAlreadyStarted);
            },
        }
        if roster_contains(&self.player_ids, player_id) {
            return Ok(Delta::PlayerJoined { player_id, rejoined: true });
        }
        self.player_ids.push(player_id);
        proof {
            assert(self@ =~~= spec_join(old(self)@, player_id).0);
            if old(self)@.wf() {
                let g2 = self@;
                assert forall|i: int, j: int|
                    0 <= i < j < g2.player_ids.len() implies g2.player_ids[i]
                    != g2.player_ids[j] by {
                    if j < g2.player_ids.len() - 1 {
                    } else {
                        assert(old(self)@.player_ids.contains(old(self)@.player_ids[i]));
                    }
                }
            }
        }
        Ok(Delta::PlayerJoined { player_id, rejoined: false })
    }

    /// Remove `player_id` from the roster, at any status; the session
    /// becomes `NoPlayers` the instant the roster empties.
    pub fn leave(&mut self, player_id: i64) -> (r: Result<Delta, GameError>)
        ensures
            final(self)@ == spec_leave(old(self)@, player_id).0,
            r == spec_leave(old(self)@, player_id).1,
            old(self)@.wf() ==> final(self)@.wf(),
    {
        if !roster_contains(&self.player_ids, player_id) {
            return Err(GameError::NotAMember);
        }
        let ghost orig = self.player_ids@;
        let mut kept: Vec<i64> = Vec::new();
        let mut i: usize = 0;
        while i < self.player_ids.len()
            invariant
                0 <= i <= self.player_ids.len(),
                self.player_ids@ == orig,
                kept@ == roster_without(orig.take(i as int), player_id),
            decreases self.player_ids.len() - i,
        {
            proof {
                assert(orig.take(i + 1).drop_last() =~= orig.take(i as int));
                assert(orig.take(i + 1).last() == orig[i as int]);
            }
            let q = self.player_ids[i];
            if q != player_id {
                kept.push(q);
            }
            i += 1;
        }
        proof {
            assert(orig.take(orig.len() as int) =~= orig);
        }
        self.player_ids = kept;
        let emptied = self.player_ids.len() == 0;
        if emptied {
            self.status = Status::NoPlayers;
        }
        proof {
            lemma_roster_without_props(orig, player_id);
            assert(self@ =~~= spec_leave(old(self)@, player_id).0);
        }
        Ok(Delta::PlayerLeft { player_id, roster_emptied: emptied })
    }

    /// Start play: host-only, from `Init`. Round 1's target note is
    /// derived from `seed`, a raw random sample the caller draws.
    pub fn start(&mut self, requester_id: i64, seed: u64) -> (r: Result<Delta, GameError>)
        ensures
            final(self)@ == spec_start(old(self)@, requester_id, seed).0,
            r == spec_start(old(self)@, requester_id, seed).1,
            old(self)@.wf() ==> final(self)@.wf(),
    {
        match self.status {
            Status::Init => {},
            _ => {
                return Err(GameError::InvalidState);
            },
        }
        let authorized = match self.host_id {
            Some(h) => h == requester_id,
            None => false,
        };
        if !authorized {
            return Err(GameError::Unauthorized);
        }
        let round = Round::new(seed);
        let note = round.note_to_guess;
        let mut rounds: Vec<Round> = Vec::new();
        rounds.push(round);
        self.rounds = rounds;
        self.status = Status::Playing;
        proof {
            assert(self@.rounds =~= seq![fresh_round(note_from_seed(seed))]);
            assert(self@ =~~= spec_start(old(self)@, requester_id, seed).0);
        }
        Ok(Delta::RoundStarted { round_index: 0, note_to_guess: note })
    }

    /// Grade and record a guess. Legal only while `Playing`, for a
    /// member with no guess in the current round and a coordinate within
    /// the configured fret range. A correct guess closes the round at
    /// once — under the session's exclusive access, the first correct
    /// submission to be serialized wins — and the round also closes when
    /// every member has guessed.
    pub fn submit_guess(&mut self, player_id: i64, coord: FretCoord) -> (r: Result<
        Delta,
        GameError,
    >)
        ensures
            final(self)@ == spec_submit_guess(old(self)@, player_id, coord).0,
            r == spec_submit_guess(old(self)@, player_id, coord).1,
            old(self)@.wf() ==> final(self)@.wf(),
    {
        let playing = match self.status {
            Status::Playing => true,
            _ => false,
        };
        if !playing || self.rounds.len() == 0 {
            return Err(GameError::InvalidState);
        }
        if !roster_contains(&self.player_ids, player_id) {
            return Err(GameError::NotAMember);
        }
        if coord.string < 1 || coord.string > 6 || coord.fret < 0 || coord.fret
            < self.opts.start_fret || coord.fret > self.opts.end_fret {
            return Err(GameError::CoordOutOfRange);
        }
        let mut round = self.rounds.pop().unwrap();
        if round_has_guess_by(&round, player_id) {
            self.rounds.push(round);
            proof {
                assert(self@ =~~= old(self)@);
            }
            return Err(GameError::DuplicateGuess);
        }
        let correct = is_correct(&round.note_to_guess, &coord);
        let round_id = match round.id {
            Some(rid) => rid,
            None => -1,
        };
        let guess = Guess {
            id: None,
            user_id: Some(player_id),
            round_id,
            clicked_fret_coord: coord,
            is_correct: correct,
        };
        round.guesses.push(guess);
        let closed = correct || check_all_members_guessed(&self.player_ids, &round);
        self.rounds.push(round);
        if closed {
            self.status = Status::RoundOver;
        }
        proof {
            let g = old(self)@;
            let spec_round2 = RoundV {
                guesses: g.rounds.last().guesses.push(guess),
                ..g.rounds.last()
            };
            assert(self@.rounds =~~= g.rounds.update(g.rounds.len() - 1, spec_round2));
            assert(self@ =~~= spec_submit_guess(g, player_id, coord).0);
            if g.wf() {
                lemma_submit_guess_preserves_wf(g, player_id, coord);
            }
        }
        Ok(Delta::GuessRecorded { player_id, coord, is_correct: correct, round_closed: closed })
    }

    /// Advance past a closed round: host-only, from `RoundOver`. Either
    /// begins the next round with a note derived from `seed`, or ends
    /// the game once `num_rounds` rounds have been played.
    pub fn advance(&mut self, requester_id: i64, seed: u64) -> (r: Result<Delta, GameError>)
        ensures
            final(self)@ == spec_advance(old(self)@, requester_id, seed).0,
            r == spec_advance(old(self)@, requester_id, seed).1,
            old(self)@.wf() ==> final(self)@.wf(),
    {
        let round_over = match self.status {
            Status::RoundOver => true,
            _ => false,
        };
        if !round_over {
            return Err(GameError::InvalidState);
        }
        let authorized = match self.host_id {
            Some(h) => h == requester_id,
            None => false,
        };
        if !authorized {
            return Err(GameError::Unauthorized);
        }
        let target: usize = if self.opts.num_rounds <= 0 {
            0
        } else {
            self.opts.num_rounds as usize
        };
        if self.rounds.len() >= target {
            self.status = Status::GameOver;
            proof {
                assert(self@ =~~= spec_advance(old(self)@, requester_id, seed).0);
            }
            return Ok(Delta::GameEnded);
        }
        let round_index = self.rounds.len();
        let round = Round::new(seed);
        let note = round.note_to_guess;
        self.rounds.push(round);
        self.status = Status::Playing;
        proof {
            assert(self@.rounds =~~= old(self)@.rounds.push(fresh_round(note_from_seed(seed))));
            assert(self@ =~~= spec_advance(old(self)@, requester_id, seed).0);
        }
        Ok(Delta::RoundStarted { round_index, note_to_guess: note })
    }
}

/// A successful guess submission preserves the session invariant.
pub proof fn lemma_submit_guess_preserves_wf(g: GameV, player_id: i64, coord: FretCoord)
    requires
        g.wf(),
    ensures
        spec_submit_guess(g, player_id, coord).0.wf(),
{
    let (g2, r) = spec_submit_guess(g, player_id, coord);
    if g.status is Playing && g.rounds.len() >= 1 && g.player_ids.contains(player_id)
        && coord_in_range(g.opts, coord) && !g.rounds.last().player_has_guessed(player_id) {
        let round = g.rounds.last();
        let correct = spec_is_correct(round.note_to_guess, coord);
        let n = round.guesses.len() as int;
        let round2 = g2.rounds.last();
        assert(g2.rounds.last() == g2.rounds[g2.rounds.len() - 1]);
        assert(round2.guesses.len() == n + 1);
        assert(forall|k: int| 0 <= k < n ==> round2.guesses[k] == round.guesses[k]);
        assert(round.guesses_wf() && round.distinct_guessers() && round.at_most_one_correct());
        assert(!round.has_correct());
        assert(forall|k: int| 0 <= k < n ==> !round2.guesses[k].is_correct);
        assert(round2.guesses_wf());
        assert forall|i: int, j: int| 0 <= i < j < round2.guesses.len() implies round2.guesses[i].user_id
            != round2.guesses[j].user_id by {
            if j == n {
                if round2.guesses[i].user_id == Some(player_id) {
                    assert(round.player_has_guessed(player_id));
                }
            }
        }
        assert(round2.at_most_one_correct());
        if !(correct || all_members_guessed(g.player_ids, round2)) {
            assert(!round2.has_correct());
        }
        assert forall|i: int| 0 <= i < g2.rounds.len() implies {
            let r2 = #[trigger] g2.rounds[i];
            r2.guesses_wf() && r2.distinct_guessers() && r2.at_most_one_correct()
        } by {
            if i < g2.rounds.len() - 1 {
                assert(g2.rounds[i] == g.rounds[i]);
            }
        }
    }
}

/// Joining is idempotent: joining a player twice leaves the session
/// exactly as joining once did, and never duplicates a roster entry.
pub proof fn lemma_join_idempotent(g: GameV, player_id: i64)
    ensures
        spec_join(spec_join(g, player_id).0, player_id).0 == spec_join(g, player_id).0,
        no_duplicates(g.player_ids) ==> no_duplicates(spec_join(g, player_id).0.player_ids),
{
    let g2 = spec_join(g, player_id).0;
    if g.status is Init && !g.player_ids.contains(player_id) {
        assert(g2.player_ids[g2.player_ids.len() - 1] == player_id);
        assert(g2.player_ids.contains(player_id));
        if no_duplicates(g.player_ids) {
            assert forall|i: int, j: int| 0 <= i < j < g2.player_ids.len() implies g2.player_ids[i]
                != g2.player_ids[j] by {
                if j < g2.player_ids.len() - 1 {
                } else {
                    assert(g.player_ids.contains(g.player_ids[i]));
                }
            }
        }
    }
}

/// Whenever removing a member leaves the roster empty, the session is
/// `NoPlayers` afterwards — from any prior status.
pub proof fn lemma_leave_empties_to_no_players(g: GameV, player_id: i64)
    requires
        g.player_ids.contains(player_id),
    ensures
        spec_leave(g, player_id).0.player_ids.len() == 0 ==> spec_leave(
            g,
            player_id,
        ).0.status is NoPlayers,
{
}

/// The round count never exceeds the configured number of rounds, and a
/// finished game has played exactly that many — each of them closed by at
/// least one recorded guess.
pub proof fn lemma_round_count_bound(g: GameV)
    requires
        g.wf(),
    ensures
        g.rounds.len() <= g.opts.num_rounds,
        g.status is GameOver ==> g.rounds.len() == g.opts.num_rounds && (forall|i: int|
            0 <= i < g.rounds.len() ==> (#[trigger] g.rounds[i]).guesses.len() >= 1),
{
}

/// In every reachable session, each round holds at most one correct
/// guess: exactly one submission is ever recorded as a round's winner.
pub proof fn lemma_unique_winner(g: GameV)
    requires
        g.wf(),
    ensures
        forall|i: int| 0 <= i < g.rounds.len() ==> (#[trigger] g.rounds[i]).at_most_one_correct(),
{
}

/// The first correct guess to be serialized wins the round: it closes
/// the round, it is the only correct guess recorded in it, and any
/// submission serialized after it is refused without changing state.
pub proof fn lemma_first_correct_guess_wins(
    g: GameV,
    player_id: i64,
    coord: FretCoord,
    later_player: i64,
    later_coord: FretCoord,
)
    requires
        g.wf(),
        g.status is Playing,
        g.rounds.len() >= 1,
        g.player_ids.contains(player_id),
        coord_in_range(g.opts, coord),
        !g.rounds.last().player_has_guessed(player_id),
        spec_is_correct(g.rounds.last().note_to_guess, coord),
    ensures
        ({
            let g2 = spec_submit_guess(g, player_id, coord).0;
            &&& spec_submit_guess(g, player_id, coord).1 == Ok::<Delta, GameError>(
                Delta::GuessRecorded {
                    player_id,
                    coord,
                    is_correct: true,
                    round_closed: true,
                },
            )
            &&& g2.status is RoundOver
            &&& g2.rounds.last().guesses.last().user_id == Some(player_id)
            &&& g2.rounds.last().guesses.last().is_correct
            &&& forall|k: int|
                0 <= k < g2.rounds.last().guesses.len() - 1 ==> !g2.rounds.last().guesses[k].is_correct
            &&& spec_submit_guess(g2, later_player, later_coord).1 == Err::<Delta, GameError>(
                GameError::InvalidState,
            )
            &&& spec_submit_guess(g2, later_player, later_coord).0 == g2
        }),
{
    let g2 = spec_submit_guess(g, player_id, coord).0;
    assert(g2.rounds.last() == g2.rounds[g2.rounds.len() - 1]);
    assert(!g.rounds.last().has_correct());
    assert(forall|k: int|
        0 <= k < g2.rounds.last().guesses.len() - 1 ==> g2.rounds.last().guesses[k]
            == g.rounds.last().guesses[k]);
}

} // verus!
