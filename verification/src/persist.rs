//! Pure halves of the persistence boundary.
//!
//! The durable store keeps games, settings, rounds and guesses as plain
//! rows, with statuses and note spellings in text columns. This module
//! holds everything about that boundary that is pure: the text codecs,
//! the reassembly of a full game from fetched rows, and the bounded
//! retry policy for a failed history write. The queries themselves are
//! I/O and live outside the library.

use vstd::prelude::*;

use crate::game::{Game, GameV, Guess, Opts, Round, RoundV, Status, spec_status_from};
use crate::theory::{Accidental, FretCoord, Note, WhiteKey};

verus! {

/// Character-for-character string equality, specified by the views.
pub fn str_eq(a: &str, b: &str) -> (r: bool)
    ensures
        r == (a@ == b@),
{
    let a_len = a.unicode_len();
    let b_len = b.unicode_len();
    if a_len != b_len {
        assert(a@ != b@);
        return false;
    }
    let mut i: usize = 0;
    while i < a_len
        invariant
            0 <= i <= a_len,
            a_len == a@.len(),
            a_len == b@.len(),
            forall|k: int| 0 <= k < i ==> a@[k] == b@[k],
        decreases a_len - i,
    {
        if a.get_char(i) != b.get_char(i) {
            return false;
        }
        i += 1;
    }
    proof {
        assert(a@ =~= b@);
    }
    true
}

/// The durable text form of each white key.
pub open spec fn white_key_name(k: WhiteKey) -> Seq<char> {
    match k {
        WhiteKey::A => "A"@,
        WhiteKey::B => "B"@,
        WhiteKey::C => "C"@,
        WhiteKey::D => "D"@,
        WhiteKey::E => "E"@,
        WhiteKey::F => "F"@,
        WhiteKey::G => "G"@,
    }
}

/// The white key a durable text form decodes to, if any.
pub open spec fn spec_white_key_from(s: Seq<char>) -> Option<WhiteKey> {
    if s == white_key_name(WhiteKey::A) {
        Some(WhiteKey::A)
    } else if s == white_key_name(WhiteKey::B) {
        Some(WhiteKey::B)
    } else if s == white_key_name(WhiteKey::C) {
        Some(WhiteKey::C)
    } else if s == white_key_name(WhiteKey::D) {
        Some(WhiteKey::D)
    } else if s == white_key_name(WhiteKey::E) {
        Some(WhiteKey::E)
    } else if s == white_key_name(WhiteKey::F) {
        Some(WhiteKey::F)
    } else if s == white_key_name(WhiteKey::G) {
        Some(WhiteKey::G)
    } else {
        None
    }
}

impl WhiteKey {
    /// The key's durable text form.
    pub fn as_str(&self) -> (r: &'static str)
        ensures
            r@ == white_key_name(*self),
    {
        match self {
            WhiteKey::A => "A",
            WhiteKey::B => "B",
            WhiteKey::C => "C",
            WhiteKey::D => "D",
            WhiteKey::E => "E",
            WhiteKey::F => "F",
            WhiteKey::G => "G",
        }
    }

    /// Decode a white key from its durable text form; `None` for any
    /// other text.
    pub fn from(s: &str) -> (r: Option<WhiteKey>)
        ensures
            r == spec_white_key_from(s@),
    {
        if str_eq(s, "A") {
            Some(WhiteKey::A)
        } else if str_eq(s, "B") {
            Some(WhiteKey::B)
        } else if str_eq(s, "C") {
            Some(WhiteKey::C)
        } else if str_eq(s, "D") {
            Some(WhiteKey::D)
        } else if str_eq(s, "E") {
            Some(WhiteKey::E)
        } else if str_eq(s, "F") {
            Some(WhiteKey::F)
        } else if str_eq(s, "G") {
            Some(WhiteKey::G)
        } else {
            None
        }
    }
}

/// Encoding a white key and decoding the text recovers the key: the
/// seven text forms are pairwise distinct.
pub proof fn lemma_white_key_round_trip(k: WhiteKey)
    ensures
        spec_white_key_from(white_key_name(k)) == Some(k),
{
    reveal_strlit("A");
    reveal_strlit("B");
    reveal_strlit("C");
    reveal_strlit("D");
    reveal_strlit("E");
    reveal_strlit("F");
    reveal_strlit("G");
    assert(white_key_name(WhiteKey::A)[0] == 'A');
    assert(white_key_name(WhiteKey::B)[0] == 'B');
    assert(white_key_name(WhiteKey::C)[0] == 'C');
    assert(white_key_name(WhiteKey::D)[0] == 'D');
    assert(white_key_name(WhiteKey::E)[0] == 'E');
    assert(white_key_name(WhiteKey::F)[0] == 'F');
    assert(white_key_name(WhiteKey::G)[0] == 'G');
}

/// The durable text form of each accidental.
pub open spec fn accidental_name(a: Accidental) -> Seq<char> {
    match a {
        Accidental::Natural => "Natural"@,
        Accidental::Sharp => "Sharp"@,
        Accidental::Flat => "Flat"@,
    }
}

/// The accidental a durable text form decodes to, if any.
pub open spec fn spec_accidental_from(s: Seq<char>) -> Option<Accidental> {
    if s == accidental_name(Accidental::Natural) {
        Some(Accidental::Natural)
    } else if s == accidental_name(Accidental::Sharp) {
        Some(Accidental::Sharp)
    } else if s == accidental_name(Accidental::Flat) {
        Some(Accidental::Flat)
    } else {
        None
    }
}

impl Accidental {
    /// The accidental's durable text form.
    pub fn as_str(&self) -> (r: &'static str)
        ensures
            r@ == accidental_name(*self),
    {
        match self {
            Accidental::Natural => "Natural",
            Accidental::Sharp => "Sharp",
            Accidental::Flat => "Flat",
        }
    }

    /// Decode an accidental from its durable text form; `None` for any
    /// other text.
    pub fn from(s: &str) -> (r: Option<Accidental>)
        ensures
            r == spec_accidental_from(s@),
    {
        if str_eq(s, "Natural") {
            Some(Accidental::Natural)
        } else if str_eq(s, "Sharp") {
            Some(Accidental::Sharp)
        } else if str_eq(s, "Flat") {
            Some(Accidental::Flat)
        } else {
            None
        }
    }
}

/// Encoding an accidental and decoding the text recovers the
/// accidental: the three text forms are pairwise distinct.
pub proof fn lemma_accidental_round_trip(a: Accidental)
    ensures
        spec_accidental_from(accidental_name(a)) == Some(a),
{
    reveal_strlit("Natural");
    reveal_strlit("Sharp");
    reveal_strlit("Flat");
    assert(accidental_name(Accidental::Natural).len() == 7);
    assert(accidental_name(Accidental::Sharp).len() == 5);
    assert(accidental_name(Accidental::Flat).len() == 4);
}

/// View of an optional text column.
pub open spec fn opt_str_view(s: Option<&str>) -> Option<Seq<char>> {
    match s {
        Some(t) => Some(t@),
        None => None,
    }
}

/// The note a fetched round row's text columns decode to: the white key
/// is required, a missing accidental column means natural, and any
/// unknown text refuses the row.
pub open spec fn spec_decode_note(
    white_key: Seq<char>,
    accidental: Option<Seq<char>>,
    octave: i32,
) -> Option<Note> {
    match spec_white_key_from(white_key) {
        None => None,
        Some(k) => match accidental {
            None => Some(Note { white_key: k, accidental: Accidental::Natural, octave }),
            Some(a) => match spec_accidental_from(a) {
                None => None,
                Some(acc) => Some(Note { white_key: k, accidental: acc, octave }),
            },
        },
    }
}

/// Decode a note from its durable columns, per `spec_decode_note`.
pub fn decode_note(white_key: &str, accidental: Option<&str>, octave: i32) -> (r: Option<Note>)
    ensures
        r == spec_decode_note(white_key@, opt_str_view(accidental), octave),
{
    let k = match WhiteKey::from(white_key) {
        Some(k) => k,
        None => {
            return None;
        },
    };
    let acc = match accidental {
        None => Accidental::Natural,
        Some(a) => match Accidental::from(a) {
            Some(acc) => acc,
            None => {
                return None;
            },
        },
    };
    Some(Note { white_key: k, accidental: acc, octave })
}

/// Encoding a note's columns and decoding them recovers the note.
pub proof fn lemma_note_codec_round_trip(n: Note)
    ensures
        spec_decode_note(
            white_key_name(n.white_key),
            Some(accidental_name(n.accidental)),
            n.octave,
        ) == Some(n),
{
    lemma_white_key_round_trip(n.white_key);
    lemma_accidental_round_trip(n.accidental);
}

/// The settings row of a game, as fetched.
#[derive(Clone, Copy, Debug, PartialEq, Eq)]
pub struct OptsRow {
    pub id: i64,
    pub num_rounds: i32,
    pub start_fret: i32,
    pub end_fret: i32,
}

/// A round row of a game, as fetched: the target note is spelled over
/// two text columns and an octave column.
#[derive(Debug)]
pub struct RoundRow {
    pub id: i64,
    pub white_key: String,
    pub accidental: Option<String>,
    pub octave: i32,
}

/// Mathematical view of a `RoundRow`.
#[verifier::ext_equal]
pub ghost struct RoundRowV {
    pub id: i64,
    pub white_key: Seq<char>,
    pub accidental: Option<Seq<char>>,
    pub octave: i32,
}

impl View for RoundRow {
    type V = RoundRowV;

    open spec fn view(&self) -> RoundRowV {
        RoundRowV {
            id: self.id,
            white_key: self.white_key@,
            accidental: match self.accidental {
                Some(ref s) => Some(s@),
                None => None,
            },
            octave: self.octave,
        }
    }
}

/// A guess row, as fetched.
#[derive(Clone, Copy, Debug, PartialEq, Eq)]
pub struct GuessRow {
    pub id: i64,
    pub user_id: i64,
    pub round_id: i64,
    pub clicked_fret: i32,
    pub clicked_string: i32,
    pub is_correct: bool,
}

/// The in-memory guess a fetched guess row denotes.
pub open spec fn guess_of_row(g: GuessRow) -> Guess {
    Guess {
        id: Some(g.id),
        user_id: Some(g.user_id),
        round_id: g.round_id,
        clicked_fret_coord: FretCoord { string: g.clicked_string, fret: g.clicked_fret },
        is_correct: g.is_correct,
    }
}

/// The guesses belonging to one round, in fetched (submission) order.
pub open spec fn guesses_for(rows: Seq<GuessRow>, round_id: i64) -> Seq<Guess>
    decreases rows.len(),
{
    if rows.len() == 0 {
        Seq::empty()
    } else {
        let rest = guesses_for(rows.drop_last(), round_id);
        if rows.last().round_id == round_id {
            rest.push(guess_of_row(rows.last()))
        } else {
            rest
        }
    }
}

/// The round a fetched row denotes, with its guesses attached; `None`
/// when the note columns do not decode.
pub open spec fn spec_round_of_row(row: RoundRowV, guesses: Seq<GuessRow>) -> Option<RoundV> {
    match spec_decode_note(row.white_key, row.accidental, row.octave) {
        None => None,
        Some(n) => Some(
            RoundV { id: Some(row.id), note_to_guess: n, guesses: guesses_for(guesses, row.id) },
        ),
    }
}

/// The rounds a fetched row sequence denotes, in fetched (play) order;
/// `None` when any row refuses to decode.
pub open spec fn spec_assemble_rounds(rows: Seq<RoundRowV>, guesses: Seq<GuessRow>) -> Option<
    Seq<RoundV>,
>
    decreases rows.len(),
{
    if rows.len() == 0 {
        Some(Seq::empty())
    } else {
        match spec_assemble_rounds(rows.drop_last(), guesses) {
            None => None,
            Some(rs) => match spec_round_of_row(rows.last(), guesses) {
                None => None,
                Some(r) => Some(rs.push(r)),
            },
        }
    }
}

/// One undecodable row refuses the whole round sequence.
pub proof fn lemma_assemble_rounds_none(rows: Seq<RoundRowV>, guesses: Seq<GuessRow>, i: int)
    requires
        0 <= i < rows.len(),
        spec_round_of_row(rows[i], guesses) is None,
    ensures
        spec_assemble_rounds(rows, guesses) is None,
    decreases rows.len(),
{
    if i < rows.len() - 1 {
        assert(rows.drop_last()[i] == rows[i]);
        lemma_assemble_rounds_none(rows.drop_last(), guesses, i);
    }
}

/// The view of a fetched round-row vector.
pub open spec fn round_rows_view(rows: Seq<RoundRow>) -> Seq<RoundRowV> {
    rows.map_values(|r: RoundRow| r@)
}

/// The game a set of fetched rows denotes: the full reconstruction of
/// identifiers, settings, roster, rounds and guesses; `None` when the
/// status or any note refuses to decode.
pub open spec fn spec_assemble_game(
    game_id: i64,
    host_id: i64,
    status: Seq<char>,
    opts: OptsRow,
    player_ids: Seq<i64>,
    rounds: Seq<RoundRowV>,
    guesses: Seq<GuessRow>,
) -> Option<GameV> {
    match spec_status_from(status) {
        None => None,
        Some(st) => match spec_assemble_rounds(rounds, guesses) {
            None => None,
            Some(rs) => Some(
                GameV {
                    id: Some(game_id),
                    host_id: Some(host_id),
                    status: st,
                    player_ids,
                    opts: Opts {
                        id: Some(opts.id),
                        game_id: Some(game_id),
                        num_rounds: opts.num_rounds,
                        start_fret: opts.start_fret,
                        end_fret: opts.end_fret,
                    },
                    rounds: rs,
                },
            ),
        },
    }
}

/// Collect the guesses of one round from the fetched guess rows, in
/// order.
fn collect_guesses(rows: &Vec<GuessRow>, round_id: i64) -> (out: Vec<Guess>)
    ensures
        out@ == guesses_for(rows@, round_id),
{
    let mut out: Vec<Guess> = Vec::new();
    let mut i: usize = 0;
    while i < rows.len()
        invariant
            0 <= i <= rows.len(),
            out@ == guesses_for(rows@.take(i as int), round_id),
        decreases rows.len() - i,
    {
        proof {
            assert(rows@.take(i + 1).drop_last() =~= rows@.take(i as int));
            assert(rows@.take(i + 1).last() == rows@[i as int]);
        }
        let row = rows[i];
        if row.round_id == round_id {
            out.push(
                Guess {
                    id: Some(row.id),
                    user_id: Some(row.user_id),
                    round_id: row.round_id,
                    clicked_fret_coord: FretCoord {
                        string: row.clicked_string,
                        fret: row.clicked_fret,
                    },
                    is_correct: row.is_correct,
                },
            );
        }
        i += 1;
    }
    proof {
        assert(rows@.take(rows@.len() as int) =~= rows@);
    }
    out
}

/// Rebuild a full game from its fetched rows — identifiers, settings,
/// roster, rounds and their guesses — exactly as `spec_assemble_game`
/// denotes them; `None` when the status or any note refuses to decode.
pub fn assemble_game(
    game_id: i64,
    host_id: i64,
    status: &str,
    opts: OptsRow,
    player_ids: Vec<i64>,
    round_rows: &Vec<RoundRow>,
    guess_rows: &Vec<GuessRow>,
) -> (r: Option<Game>)
    ensures
        match r {
            Some(g) => Some(g@) == spec_assemble_game(
                game_id,
                host_id,
                status@,
                opts,
                player_ids@,
                round_rows_view(round_rows@),
                guess_rows@,
            ),
            None => spec_assemble_game(
                game_id,
                host_id,
                status@,
                opts,
                player_ids@,
                round_rows_view(round_rows@),
                guess_rows@,
            ) is None,
        },
{
    let st = match Status::from(status) {
        Some(s) => s,
        None => {
            return None;
        },
    };
    let ghost rows_v = round_rows_view(round_rows@);
    let mut rounds: Vec<Round> = Vec::new();
    let mut i: usize = 0;
    while i < round_rows.len()
        invariant
            0 <= i <= round_rows.len(),
            rows_v == round_rows_view(round_rows@),
            rows_v.len() == round_rows@.len(),
            Some(rounds@.map_values(|r: Round| r@)) == spec_assemble_rounds(
                rows_v.take(i as int),
                guess_rows@,
            ),
        decreases round_rows.len() - i,
    {
        proof {
            assert(rows_v.take(i + 1).drop_last() =~= rows_v.take(i as int));
            assert(rows_v.take(i + 1).last() == rows_v[i as int]);
            assert(rows_v[i as int] == round_rows@[i as int]@);
        }
        let row = &round_rows[i];
        let acc: Option<&str> = match &row.accidental {
            Some(s) => Some(s.as_str()),
            None => None,
        };
        let note = match decode_note(row.white_key.as_str(), acc, row.octave) {
            Some(n) => n,
            None => {
                proof {
                    lemma_assemble_rounds_none(rows_v, guess_rows@, i as int);
                }
                return None;
            },
        };
        let guesses = collect_guesses(guess_rows, row.id);
        let round = Round { id: Some(row.id), note_to_guess: note, guesses };
        rounds.push(round);
        proof {
            assert(rounds@.map_values(|r: Round| r@) =~= rounds@.map_values(
                |r: Round| r@,
            ).drop_last().push(rounds@.last()@));
        }
        i += 1;
    }
    proof {
        assert(rows_v.take(rows_v.len() as int) =~= rows_v);
    }
    let g = Game {
        id: Some(game_id),
        host_id: Some(host_id),
        status: st,
        player_ids,
        opts: Opts {
            id: Some(opts.id),
            game_id: Some(game_id),
            num_rounds: opts.num_rounds,
            start_fret: opts.start_fret,
            end_fret: opts.end_fret,
        },
        rounds,
    };
    proof {
        let expect = spec_assemble_game(
            game_id,
            host_id,
            status@,
            opts,
            player_ids@,
            round_rows_view(round_rows@),
            guess_rows@,
        );
        assert(g@ =~~= expect->Some_0);
    }
    Some(g)
}

/// What the caller of a durable write should do next, as the retry
/// policy decides it.
#[derive(Clone, Copy, Debug, PartialEq, Eq)]
pub enum WriteOutcome {
    /// The write landed; the task is finished.
    Committed,
    /// The write failed; try again after this backoff.
    Retry { backoff_ms: u64 },
    /// The attempt budget is spent: surface `PersistenceDegraded` to the
    /// caller as a non-fatal notice — gameplay continues, only history
    /// on disk is at risk.
    Degraded,
}

/// One pending durable write and its retry budget.
#[derive(Clone, Copy, Debug, PartialEq, Eq)]
pub struct WriteTask {
    pub attempts_used: u32,
    pub max_attempts: u32,
}

/// The backoff before retrying after this many failed attempts: doubling
/// from 100 ms, capped at 6400 ms.
pub open spec fn backoff_for(attempts: u32) -> u64 {
    if attempts == 0 {
        100
    } else if attempts == 1 {
        200
    } else if attempts == 2 {
        400
    } else if attempts == 3 {
        800
    } else if attempts == 4 {
        1600
    } else if attempts == 5 {
        3200
    } else {
        6400
    }
}

/// Transition of the retry policy on one attempt's result: success
/// commits; a failure within budget schedules a bounded backoff; a
/// failure that spends the budget degrades, without rolling anything
/// back.
pub open spec fn spec_record_attempt(t: WriteTask, succeeded: bool) -> (WriteTask, WriteOutcome) {
    if succeeded {
        (t, WriteOutcome::Committed)
    } else if t.attempts_used + 1 >= t.max_attempts {
        (t, WriteOutcome::Degraded)
    } else {
        (
            WriteTask { attempts_used: (t.attempts_used + 1) as u32, max_attempts: t.max_attempts },
            WriteOutcome::Retry { backoff_ms: backoff_for(t.attempts_used) },
        )
    }
}

impl WriteTask {
    /// A fresh write with this attempt budget.
    pub fn new(max_attempts: u32) -> (t: WriteTask)
        ensures
            t == (WriteTask { attempts_used: 0, max_attempts }),
    {
        WriteTask { attempts_used: 0, max_attempts }
    }

    /// Record one attempt's result and decide what to do next, per
    /// `spec_record_attempt`.
    pub fn record_attempt(&mut self, succeeded: bool) -> (o: WriteOutcome)
        ensures
            (*final(self), o) == spec_record_attempt(*old(self), succeeded),
    {
        if succeeded {
            return WriteOutcome::Committed;
        }
        if self.attempts_used as u64 + 1 >= self.max_attempts as u64 {
            return WriteOutcome::Degraded;
        }
        let backoff = if self.attempts_used == 0 {
            100
        } else if self.attempts_used == 1 {
            200
        } else if self.attempts_used == 2 {
            400
        } else if self.attempts_used == 3 {
            800
        } else if self.attempts_used == 4 {
            1600
        } else if self.attempts_used == 5 {
            3200
        } else {
            6400
        };
        self.attempts_used += 1;
        WriteOutcome::Retry { backoff_ms: backoff }
    }
}

} // verus!
