//! What an explorer answers for a position: the counts of all games, a row
//! for each move, and some games.
use vstd::prelude::*;

use crate::chess::{Color, Outcome, Uci};
use crate::date::{Month, Year};
use crate::game::{ByColor, GamePlayer, LichessGame};
use crate::game_id::GameId;
use crate::history::History;
use crate::importer::MastersGame;
use crate::mode::Mode;
use crate::opening::Opening;
use crate::replay::{uci_move, uci_san, Board};
use crate::speed::Speed;
use crate::stats::Stats;

verus! {

/// The row of one move in an answer.
#[derive(Debug, Clone, Copy, PartialEq, Eq, Structural)]
pub struct PreparedMove {
    pub uci: Uci,
    pub stats: Stats,
    /// The game, when the move was played in exactly one.
    pub game: Option<GameId>,
    pub average_rating: Option<u16>,
    pub average_opponent_rating: Option<u16>,
    pub performance: Option<i32>,
}

/// An answer for one position.
#[derive(Debug)]
pub struct PreparedResponse {
    pub total: Stats,
    pub moves: Vec<PreparedMove>,
    pub recent_games: Vec<(Uci, GameId)>,
    pub top_games: Vec<(Uci, GameId)>,
}

/// The number of games of a row, as the key that rows are sorted by.
pub open spec fn spec_move_key(m: PreparedMove) -> u128 {
    (m.stats.white + m.stats.draws + m.stats.black) as u128
}

/// Rows with their keys.
pub open spec fn spec_keyed_moves(ms: Seq<PreparedMove>) -> Seq<(u128, PreparedMove)> {
    ms.map_values(|m: PreparedMove| (spec_move_key(m), m))
}

/// Keyed values without their keys.
pub open spec fn spec_unkeyed<T>(s: Seq<(u128, T)>) -> Seq<T> {
    s.map_values(|x: (u128, T)| x.1)
}

/// The values without their keys.
pub fn unkeyed<T>(v: Vec<(u128, T)>) -> (r: Vec<T>)
    ensures
        r@ == spec_unkeyed(v@),
{
    let ghost input = v@;
    let n = v.len();
    let mut out: Vec<T> = Vec::new();
    let mut rest = v;
    let mut rev: Vec<T> = Vec::new();
    // Take the values from the back, then restore their order.
    while rest.len() > 0
        invariant
            rest@.len() + rev@.len() == n,
            n == input.len(),
            rest@ == input.take(rest@.len() as int),
            forall|i: int| 0 <= i < rev@.len() ==> #[trigger] rev@[i] == input[n - 1 - i].1,
        decreases rest@.len(),
    {
        let x = rest.pop().unwrap();
        rev.push(x.1);
        proof {
            assert(rest@ =~= input.take(rest@.len() as int));
        }
    }
    while rev.len() > 0
        invariant
            rev@.len() + out@.len() == n,
            n == input.len(),
            forall|i: int| 0 <= i < rev@.len() ==> #[trigger] rev@[i] == input[n - 1 - i].1,
            forall|i: int| 0 <= i < out@.len() ==> #[trigger] out@[i] == input[i].1,
        decreases rev@.len(),
    {
        let x = rev.pop().unwrap();
        out.push(x);
    }
    proof {
        assert(out@ =~= spec_unkeyed(input));
    }
    out
}

/// A game in an answer.
#[derive(Debug, Clone)]
pub struct ExplorerGame {
    pub id: GameId,
    pub winner: Option<Color>,
    pub speed: Option<Speed>,
    pub mode: Option<Mode>,
    pub players: ByColor<GamePlayer>,
    pub year: Year,
    pub month: Option<Month>,
}

/// A game in an answer, with the move played in it.
#[derive(Debug, Clone)]
pub struct ExplorerGameWithUci {
    pub uci: Uci,
    pub row: ExplorerGame,
}

/// The row of a move in an answer, with the move in SAN.
#[derive(Debug, Clone)]
pub struct ExplorerMove {
    pub uci: Uci,
    pub san: String,
    pub average_rating: Option<u16>,
    pub average_opponent_rating: Option<u16>,
    pub performance: Option<i32>,
    pub stats: Stats,
    pub game: Option<ExplorerGame>,
}

/// An answer of an explorer.
#[derive(Debug, Clone)]
pub struct ExplorerResponse {
    pub total: Stats,
    pub moves: Vec<ExplorerMove>,
    pub recent_games: Option<Vec<ExplorerGameWithUci>>,
    pub top_games: Option<Vec<ExplorerGameWithUci>>,
    pub opening: Option<Opening>,
    pub queue_position: Option<u64>,
    pub history: Option<History>,
}

/// A copy of the players' names and ratings.
fn copy_players(p: &ByColor<GamePlayer>) -> (r: ByColor<GamePlayer>)
    ensures
        r.white.name@ == p.white.name@ && r.white.rating == p.white.rating,
        r.black.name@ == p.black.name@ && r.black.rating == p.black.rating,
{
    ByColor {
        white: GamePlayer { name: p.white.name.clone(), rating: p.white.rating },
        black: GamePlayer { name: p.black.name.clone(), rating: p.black.rating },
    }
}

impl ExplorerGame {
    /// A game of the lichess database in an answer: its winner, speed,
    /// mode, players and month.
    pub fn from_lichess(id: GameId, info: &LichessGame) -> (g: ExplorerGame)
        ensures
            g.id == id,
            g.winner == info.outcome.spec_winner(),
            g.speed == Some(info.speed),
            g.mode == Some(info.mode),
            g.players.white.name@ == info.players.white.name@,
            g.players.white.rating == info.players.white.rating,
            g.players.black.name@ == info.players.black.name@,
            g.players.black.rating == info.players.black.rating,
            g.year.value() == info.month.value() / 12,
            g.month == Some(info.month),
    {
        ExplorerGame {
            id,
            winner: info.outcome.winner(),
            speed: Some(info.speed),
            mode: Some(info.mode),
            players: copy_players(&info.players),
            year: info.month.year(),
            month: Some(info.month),
        }
    }

    /// A game of the masters database in an answer: its winner, players,
    /// year and month if known; no speed or mode.
    pub fn from_masters(id: GameId, info: &MastersGame) -> (g: ExplorerGame)
        ensures
            g.id == id,
            g.winner == info.winner,
            g.speed is None,
            g.mode is None,
            g.players.white.name@ == info.players.white.name@,
            g.players.white.rating == info.players.white.rating,
            g.players.black.name@ == info.players.black.name@,
            g.players.black.rating == info.players.black.rating,
            g.year == info.date.spec_year(),
            match info.date.spec_month() {
                Some(m) => g.month matches Some(v) && v.value() == info.date.spec_year().value() * 12 + m - 1,
                None => g.month is None,
            },
    {
        ExplorerGame {
            id,
            winner: info.winner,
            speed: None,
            mode: None,
            players: copy_players(&info.players),
            year: info.date.year(),
            month: info.date.month(),
        }
    }
}

/// Whether `text` is the move `uci` in SAN, with its check or mate suffix,
/// in the position reached from `start` by `played`; the null move `--`
/// where it is not legal.
pub open spec fn spec_move_text(start: crate::replay::Start, played: Seq<Uci>, uci: Uci, text: Seq<char>) -> bool {
    if uci_move(start, played, uci) is Some {
        uci_san(start, played, uci) == Some(text)
    } else {
        text == seq!['-', '-']
    }
}

/// The rows of an answer with each move in SAN in the position `pos`, and
/// the game of each row that has one: `games` holds, for each row in order,
/// the game found for it, if any.
pub fn finalize_moves(
    moves: &[PreparedMove],
    pos: &Board,
    games: Vec<Option<ExplorerGame>>,
) -> (r: Vec<ExplorerMove>)
    requires
        games@.len() == moves@.len(),
    ensures
        r@.len() == moves@.len(),
        forall|i: int|
            0 <= i < r@.len() ==> {
                let m = #[trigger] moves@[i];
                &&& r@[i].uci == m.uci
                &&& r@[i].stats == m.stats
                &&& r@[i].average_rating == m.average_rating
                &&& r@[i].average_opponent_rating == m.average_opponent_rating
                &&& r@[i].performance == m.performance
                &&& (m.game is None ==> r@[i].game is None)
                &&& (m.game is Some ==> r@[i].game == games@[i])
                &&& spec_move_text(pos.spec_start(), pos.spec_played(), m.uci, r@[i].san@)
            },
{
    let mut out: Vec<ExplorerMove> = Vec::new();
    let mut games = games;
    let mut rev: Vec<Option<ExplorerGame>> = Vec::new();
    let ghost gs = games@;
    while games.len() > 0
        invariant
            games@.len() + rev@.len() == gs.len(),
            games@ == gs.take(games@.len() as int),
            forall|k: int| 0 <= k < rev@.len() ==> #[trigger] rev@[k] == gs[gs.len() - 1 - k],
        decreases games@.len(),
    {
        let g = games.pop().unwrap();
        rev.push(g);
        proof {
            assert(games@ =~= gs.take(games@.len() as int));
        }
    }
    let mut i: usize = 0;
    while i < moves.len()
        invariant
            i <= moves@.len(),
            gs.len() == moves@.len(),
            rev@.len() == moves@.len() - i,
            forall|k: int| 0 <= k < rev@.len() ==> #[trigger] rev@[k] == gs[gs.len() - 1 - k],
            out@.len() == i,
            forall|k: int|
                0 <= k < i ==> {
                    let m = #[trigger] moves@[k];
                    &&& out@[k].uci == m.uci
                    &&& out@[k].stats == m.stats
                    &&& out@[k].average_rating == m.average_rating
                    &&& out@[k].average_opponent_rating == m.average_opponent_rating
                    &&& out@[k].performance == m.performance
                    &&& (m.game is None ==> out@[k].game is None)
                    &&& (m.game is Some ==> out@[k].game == gs[k])
                    &&& spec_move_text(pos.spec_start(), pos.spec_played(), m.uci, out@[k].san@)
                },
        decreases moves@.len() - i,
    {
        let m = moves[i];
        let g = rev.pop().unwrap();
        proof {
            assert(g == gs[i as int]);
        }
        m.uci.check_wf();
        let san = pos.move_san(m.uci);
        let game = match m.game {
            Some(_) => g,
            None => None,
        };
        out.push(
            ExplorerMove {
                uci: m.uci,
                san,
                average_rating: m.average_rating,
                average_opponent_rating: m.average_opponent_rating,
                performance: m.performance,
                stats: m.stats,
                game,
            },
        );
        i = i + 1;
    }
    out
}

/// The games of an answer that were found, in order: `infos` holds, for
/// each game in order, its record if it was found.
pub open spec fn spec_found_games<R>(games: Seq<(Uci, GameId)>, infos: Seq<Option<R>>) -> Seq<(Uci, GameId, R)>
    decreases games.len(),
{
    if games.len() == 0 || infos.len() == 0 {
        Seq::empty()
    } else {
        let rest = spec_found_games(games.drop_last(), infos.drop_last());
        match infos.last() {
            Some(info) => rest.push((games.last().0, games.last().1, info)),
            None => rest,
        }
    }
}

/// The lichess games of an answer that were found, in order, each with the
/// move played in it.
pub fn finalize_lichess_games(games: &[(Uci, GameId)], infos: &[Option<LichessGame>]) -> (r: Vec<
    ExplorerGameWithUci,
>)
    requires
        infos@.len() == games@.len(),
    ensures
        r@.len() == spec_found_games(games@, infos@).len(),
        forall|i: int|
            0 <= i < r@.len() ==> {
                let (uci, id, info) = #[trigger] spec_found_games(games@, infos@)[i];
                &&& r@[i].uci == uci
                &&& r@[i].row.id == id
                &&& r@[i].row.winner == info.outcome.spec_winner()
                &&& r@[i].row.month == Some(info.month)
            },
{
    let mut out: Vec<ExplorerGameWithUci> = Vec::new();
    let mut i: usize = 0;
    while i < games.len()
        invariant
            i <= games@.len(),
            infos@.len() == games@.len(),
            out@.len() == spec_found_games(games@.take(i as int), infos@.take(i as int)).len(),
            forall|k: int|
                0 <= k < out@.len() ==> {
                    let (uci, id, info) = #[trigger] spec_found_games(
                        games@.take(i as int),
                        infos@.take(i as int),
                    )[k];
                    &&& out@[k].uci == uci
                    &&& out@[k].row.id == id
                    &&& out@[k].row.winner == info.outcome.spec_winner()
                    &&& out@[k].row.month == Some(info.month)
                },
        decreases games@.len() - i,
    {
        proof {
            assert(games@.take(i + 1).drop_last() =~= games@.take(i as int));
            assert(infos@.take(i + 1).drop_last() =~= infos@.take(i as int));
        }
        let (uci, id) = games[i];
        match &infos[i] {
            Some(info) => {
                out.push(ExplorerGameWithUci { uci, row: ExplorerGame::from_lichess(id, info) });
            },
            None => {},
        }
        i = i + 1;
    }
    proof {
        assert(games@.take(games@.len() as int) =~= games@);
        assert(infos@.take(infos@.len() as int) =~= infos@);
    }
    out
}

/// The masters games of an answer that were found, in order, each with the
/// move played in it.
pub fn finalize_masters_games(games: &[(Uci, GameId)], infos: &[Option<MastersGame>]) -> (r: Vec<
    ExplorerGameWithUci,
>)
    requires
        infos@.len() == games@.len(),
    ensures
        r@.len() == spec_found_games(games@, infos@).len(),
        forall|i: int|
            0 <= i < r@.len() ==> {
                let (uci, id, info) = #[trigger] spec_found_games(games@, infos@)[i];
                &&& r@[i].uci == uci
                &&& r@[i].row.id == id
                &&& r@[i].row.winner == info.winner
                &&& r@[i].row.year == info.date.spec_year()
            },
{
    let mut out: Vec<ExplorerGameWithUci> = Vec::new();
    let mut i: usize = 0;
    while i < games.len()
        invariant
            i <= games@.len(),
            infos@.len() == games@.len(),
            out@.len() == spec_found_games(games@.take(i as int), infos@.take(i as int)).len(),
            forall|k: int|
                0 <= k < out@.len() ==> {
                    let (uci, id, info) = #[trigger] spec_found_games(
                        games@.take(i as int),
                        infos@.take(i as int),
                    )[k];
                    &&& out@[k].uci == uci
                    &&& out@[k].row.id == id
                    &&& out@[k].row.winner == info.winner
                    &&& out@[k].row.year == info.date.spec_year()
                },
        decreases games@.len() - i,
    {
        proof {
            assert(games@.take(i + 1).drop_last() =~= games@.take(i as int));
            assert(infos@.take(i + 1).drop_last() =~= infos@.take(i as int));
        }
        let (uci, id) = games[i];
        match &infos[i] {
            Some(info) => {
                out.push(ExplorerGameWithUci { uci, row: ExplorerGame::from_masters(id, info) });
            },
            None => {},
        }
        i = i + 1;
    }
    proof {
        assert(games@.take(games@.len() as int) =~= games@);
        assert(infos@.take(infos@.len() as int) =~= infos@);
    }
    out
}

/// Whether the player explorer answers again with its first answer, only
/// updating the queue position: while indexing has not even started.
pub fn repeats_first_response(has_first: bool, preceding_tickets: u64) -> (b: bool)
    ensures
        b == (has_first && preceding_tickets > 0),
{
    has_first && preceding_tickets > 0
}

/// Whether an answer of the player explorer is sent: only when its queue
/// position or its number of games differs from the last one sent.
pub fn is_new_progress(last: Option<(Option<u64>, u64)>, next: (Option<u64>, u64)) -> (b: bool)
    ensures
        b == match last {
            Some(l) => l != next,
            None => true,
        },
{
    match last {
        Some(l) => {
            let same_queue = match (l.0, next.0) {
                (Some(a), Some(b)) => a == b,
                (None, None) => true,
                _ => false,
            };
            !(same_queue && l.1 == next.1)
        },
        None => true,
    }
}

/// One state of the player explorer's answer: the queue position, if
/// still waiting, and the number of games.
pub type Progress = (Option<u64>, u64);

/// The progress items that a deduplicated stream sends: the first, and
/// each one that differs from the one before it.
pub open spec fn spec_dedup_progress(items: Seq<Progress>) -> Seq<Progress>
    decreases items.len(),
{
    if items.len() == 0 {
        Seq::empty()
    } else {
        let rest = spec_dedup_progress(items.drop_last());
        if items.len() == 1 || items[items.len() - 2] != items.last() {
            rest.push(items.last())
        } else {
            rest
        }
    }
}

/// Deduplicates a stream of progress items, each decided by
/// `is_new_progress` against the last one sent.
pub fn dedup_progress(items: &[Progress]) -> (r: Vec<Progress>)
    ensures
        r@ == spec_dedup_progress(items@),
{
    let mut out: Vec<Progress> = Vec::new();
    let mut last: Option<Progress> = None;
    let mut i: usize = 0;
    while i < items.len()
        invariant
            i <= items@.len(),
            out@ == spec_dedup_progress(items@.take(i as int)),
            i == 0 ==> last is None && out@.len() == 0,
            i > 0 ==> out@.len() > 0 && last == Some(items@[i - 1]) && out@.last() == items@[i - 1],
        decreases items@.len() - i,
    {
        let next = items[i];
        proof {
            assert(items@.take(i + 1).drop_last() =~= items@.take(i as int));
        }
        if is_new_progress(last, next) {
            out.push(next);
        }
        last = Some(next);
        i = i + 1;
    }
    proof {
        assert(items@.take(i as int) =~= items@);
    }
    out
}

/// A deduplicated stream of progress never sends the same progress twice
/// in a row, sends something exactly when there is progress, and always
/// ends with the latest progress.
pub proof fn lemma_dedup_progress(items: Seq<Progress>)
    ensures
        ({
            let r = spec_dedup_progress(items);
            &&& forall|j: int| 0 <= j && j + 1 < r.len() ==> #[trigger] r[j] != r[j + 1]
            &&& r.len() <= items.len()
            &&& (r.len() == 0 <==> items.len() == 0)
            &&& items.len() > 0 ==> r.last() == items.last()
        }),
    decreases items.len(),
{
    if items.len() > 0 {
        let rest = items.drop_last();
        lemma_dedup_progress(rest);
        let r0 = spec_dedup_progress(rest);
        let r = spec_dedup_progress(items);
        if items.len() > 1 {
            assert(rest.last() == items[items.len() - 2]);
        }
        assert forall|j: int| 0 <= j && j + 1 < r.len() implies #[trigger] r[j] != r[j + 1] by {
            if r.len() == r0.len() + 1 && j + 1 == r0.len() {
                assert(r[j] == r0.last());
            } else {
                assert(r[j] == r0[j] && r[j + 1] == r0[j + 1]);
            }
        }
    }
}

} // verus!
