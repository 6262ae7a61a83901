//! Indexing a player's games: which games count, from which side, and the
//! records that one game adds to the database.
use vstd::prelude::*;

use crate::chess::{spec_lila_variant, Color, Outcome, Uci, ChessVariant, LilaVariant};
use crate::date::Month;
use crate::game::{ByColor, GamePlayer, LichessGame};
use crate::game_id::GameId;
use crate::key::{Key, KeyBuilder, ZobristKey};
use crate::mode::Mode;
use crate::personal::{spec_personal_single, PersonalEntry, PersonalStatus};
use crate::speed::Speed;
use crate::text::ascii_chars;
use crate::user::{lower_bytes, UserId, UserName};
use crate::importer::{spec_position_key, spec_positions_of};
use crate::replay::{opt_text, replay_game, spec_game_replay, spec_texts, Ply, MAX_PLIES};

verus! {

/// The state of a game on the server.
#[derive(Debug, Clone, Copy, PartialEq, Eq, Structural)]
pub enum Status {
    Created,
    Started,
    Aborted,
    Mate,
    Resign,
    Stalemate,
    Timeout,
    Draw,
    OutOfTime,
    Cheat,
    NoStart,
    UnknownFinish,
    VariantEnd,
}

impl Status {
    /// Whether the game is still being played.
    pub fn is_ongoing(self) -> (b: bool)
        ensures
            b == (self == Status::Created || self == Status::Started),
    {
        match self {
            Status::Created | Status::Started => true,
            _ => false,
        }
    }

    /// Whether the game ended without being played out.
    pub fn is_unindexable(self) -> (b: bool)
        ensures
            b == (self == Status::UnknownFinish || self == Status::NoStart || self
                == Status::Aborted),
    {
        match self {
            Status::UnknownFinish | Status::NoStart | Status::Aborted => true,
            _ => false,
        }
    }
}

/// A user of the server.
#[derive(Debug, Clone)]
pub struct User {
    pub name: UserName,
}

/// A player of a game of the server: the user, unless anonymous, and the
/// rating, if any.
#[derive(Debug, Clone)]
pub struct Player {
    pub user: Option<User>,
    pub rating: Option<u16>,
}

/// Whether `p` is the user `id`.
pub open spec fn spec_is_user(p: Player, id: UserId) -> bool {
    match p.user {
        Some(u) => lower_bytes(u.name.spec_bytes()) == lower_bytes(id.spec_bytes()),
        None => false,
    }
}

/// The side from which a game of the player `id` is indexed, after its
/// creation time and state are noted in the status: none when the game is
/// still played (it is noted to be revisited), ended without being played
/// out, has an anonymous or unrated player, or the player did not play in
/// it; else the player's color.
pub open spec fn spec_game_side(status_ongoing: bool, status_unindexable: bool, white: Player, black: Player, id: UserId) -> Option<Color> {
    if status_ongoing || status_unindexable || white.user is None || white.rating is None
        || black.user is None || black.rating is None {
        None
    } else if spec_is_user(white, id) {
        Some(Color::White)
    } else if spec_is_user(black, id) {
        Some(Color::Black)
    } else {
        None
    }
}

/// A game of the player, as the game server lists it: the time of its last
/// move is given by its year and month.
#[derive(Debug, Clone)]
pub struct Game {
    pub id: GameId,
    pub rated: bool,
    pub created_at: u64,
    pub last_move_year: i32,
    pub last_move_month: u8,
    pub status: Status,
    pub variant: LilaVariant,
    pub players: ByColor<Player>,
    pub speed: Speed,
    pub moves: Vec<String>,
    pub winner: Option<Color>,
    pub initial_fen: Option<String>,
}

/// Notes a game of the player `id` in the status (its creation time, and
/// the first ongoing game to revisit) and finds the side from which it is
/// indexed.
pub fn game_side(status: &mut PersonalStatus, id: &UserId, game: &Game) -> (r: Option<Color>)
    ensures
        final(status).latest_created_at == game.created_at,
        final(status).indexed_at == old(status).indexed_at,
        final(status).revisit_ongoing_created_at == if (game.status == Status::Created
            || game.status == Status::Started) && old(status).revisit_ongoing_created_at is None {
            Some(game.created_at)
        } else {
            old(status).revisit_ongoing_created_at
        },
        r == spec_game_side(
            game.status == Status::Created || game.status == Status::Started,
            game.status == Status::UnknownFinish || game.status == Status::NoStart
                || game.status == Status::Aborted,
            game.players.white,
            game.players.black,
            *id,
        ),
{
    let white = &game.players.white;
    let black = &game.players.black;
    status.latest_created_at = game.created_at;
    if game.status.is_ongoing() {
        if status.revisit_ongoing_created_at.is_none() {
            status.revisit_ongoing_created_at = Some(game.created_at);
        }
        return None;
    }
    if game.status.is_unindexable() {
        return None;
    }
    if white.user.is_none() || white.rating.is_none() || black.user.is_none()
        || black.rating.is_none() {
        return None;
    }
    let white_is = match &white.user {
        Some(u) => u.name.eq_user_id(id),
        None => false,
    };
    if white_is {
        return Some(Color::White);
    }
    let black_is = match &black.user {
        Some(u) => u.name.eq_user_id(id),
        None => false,
    };
    if black_is {
        Some(Color::Black)
    } else {
        None
    }
}

/// The value of the last entry with key `k`.
pub open spec fn spec_last_value<T>(items: Seq<(u128, T)>, k: u128) -> Option<T>
    decreases items.len(),
{
    if items.len() == 0 {
        None
    } else if items.last().0 == k {
        Some(items.last().1)
    } else {
        spec_last_value(items.drop_last(), k)
    }
}

/// The entries with their key first seen, each with the value last seen for
/// the key: repeated positions are counted once, with the move last played
/// from them.
pub fn dedup_keep_last<T: Copy>(items: &[(u128, T)]) -> (out: Vec<(u128, T)>)
    ensures
        forall|i: int, j: int| 0 <= i < j < out@.len() ==> out@[i].0 != out@[j].0,
        forall|i: int| 0 <= i < out@.len() ==> spec_last_value(items@, #[trigger] out@[i].0) == Some(out@[i].1),
        forall|k: u128| #[trigger] spec_last_value(items@, k) is Some ==> exists|i: int| 0 <= i < out@.len() && out@[i].0 == k,
        out@.len() == dedup_len(items@),
        out@.len() <= items@.len(),
{
    let mut out: Vec<(u128, T)> = Vec::new();
    let mut n: usize = 0;
    while n < items.len()
        invariant
            n <= items@.len(),
            forall|i: int, j: int| 0 <= i < j < out@.len() ==> out@[i].0 != out@[j].0,
            forall|i: int| 0 <= i < out@.len() ==> spec_last_value(items@.take(n as int), #[trigger] out@[i].0) == Some(out@[i].1),
            forall|k: u128| #[trigger] spec_last_value(items@.take(n as int), k) is Some ==> exists|i: int| 0 <= i < out@.len() && out@[i].0 == k,
        decreases items@.len() - n,
    {
        let (k, v) = items[n];
        let ghost pre = items@.take(n as int);
        let ghost post = items@.take(n + 1);
        proof {
            assert(post.drop_last() =~= pre);
            assert(post.last() == (k, v));
        }
        let mut i: usize = 0;
        while i < out.len() && out[i].0 != k
            invariant
                i <= out@.len(),
                forall|j: int| 0 <= j < i ==> out@[j].0 != k,
            decreases out@.len() - i,
        {
            i = i + 1;
        }
        let ghost before = out@;
        if i < out.len() {
            out.set(i, (k, v));
            proof {
                assert forall|a: int, b: int| 0 <= a < b < out@.len() implies out@[a].0 != out@[b].0 by {
                    assert(out@[a].0 == before[a].0);
                    assert(out@[b].0 == before[b].0);
                }
                assert forall|x: int| 0 <= x < out@.len() implies spec_last_value(post, #[trigger] out@[x].0) == Some(out@[x].1) by {
                    if x != i {
                        assert(out@[x] == before[x]);
                        assert(before[x].0 != k);
                    }
                }
                assert forall|kk: u128| #[trigger] spec_last_value(post, kk) is Some implies exists|x: int| 0 <= x < out@.len() && out@[x].0 == kk by {
                    if kk == k {
                        assert(out@[i as int].0 == k);
                    } else {
                        assert(spec_last_value(pre, kk) is Some);
                        let x = choose|x: int| 0 <= x < before.len() && before[x].0 == kk;
                        assert(out@[x].0 == kk);
                    }
                }
            }
        } else {
            out.push((k, v));
            proof {
                assert forall|x: int| 0 <= x < out@.len() implies spec_last_value(post, #[trigger] out@[x].0) == Some(out@[x].1) by {
                    if x < before.len() {
                        assert(out@[x] == before[x]);
                        assert(before[x].0 != k);
                    }
                }
                assert forall|kk: u128| #[trigger] spec_last_value(post, kk) is Some implies exists|x: int| 0 <= x < out@.len() && out@[x].0 == kk by {
                    if kk == k {
                        assert(out@[before.len() as int].0 == k);
                    } else {
                        assert(spec_last_value(pre, kk) is Some);
                        let x = choose|x: int| 0 <= x < before.len() && before[x].0 == kk;
                        assert(out@[x].0 == kk);
                    }
                }
            }
        }
        n = n + 1;
    }
    proof {
        assert(items@.take(n as int) =~= items@);
        lemma_dedup_len(items@, out@);
        let ks = items@.map_values(|x: (u128, T)| x.0);
        ks.lemma_cardinality_of_set();
    }
    out
}

/// The name a game record keeps of a player: the user's name, or an empty
/// name for an anonymous player.
pub open spec fn spec_player_name(p: Player) -> Seq<char> {
    match p.user {
        Some(u) => ascii_chars(u.name.spec_bytes()),
        None => Seq::empty(),
    }
}

/// The rating a game record keeps of a player: zero for an unrated player.
pub open spec fn spec_player_rating(p: Player) -> u16 {
    match p.rating {
        Some(r) => r,
        None => 0u16,
    }
}

/// The record of a game indexed from the side `color`: its outcome, speed,
/// mode, players (anonymous players with an empty name, unrated ones with
/// rating zero) and month, indexed for `color` only.
pub fn indexed_game_record(
    outcome: Outcome,
    speed: Speed,
    rated: bool,
    month: Month,
    white: &Player,
    black: &Player,
    color: Color,
) -> (g: LichessGame)
    ensures
        g.outcome == outcome,
        g.speed == speed,
        g.mode == (if rated { Mode::Rated } else { Mode::Casual }),
        g.month == month,
        g.players.white.name@ == spec_player_name(*white),
        g.players.white.rating == spec_player_rating(*white),
        g.players.black.name@ == spec_player_name(*black),
        g.players.black.rating == spec_player_rating(*black),
        g.indexed_player.white == (color == Color::White),
        g.indexed_player.black == (color == Color::Black),
        !g.indexed_lichess,
{
    LichessGame {
        outcome,
        speed,
        mode: Mode::from_rated(rated),
        players: ByColor { white: game_player(white), black: game_player(black) },
        month,
        indexed_player: ByColor { white: color == Color::White, black: color == Color::Black },
        indexed_lichess: false,
    }
}

/// A player as a game record keeps it.
fn game_player(p: &Player) -> (g: GamePlayer)
    ensures
        g.name@ == spec_player_name(*p),
        g.rating == spec_player_rating(*p),
{
    GamePlayer {
        name: match &p.user {
            Some(u) => u.name.to_string(),
            None => String::new(),
        },
        rating: match p.rating {
            Some(r) => r,
            None => 0,
        },
    }
}

/// The entries that one game adds to a player's explorer: for each
/// position (each counted once) the move played from it, under the key of
/// the player's side, the variant and the month.
pub fn player_entries(
    builder: &KeyBuilder,
    variant: ChessVariant,
    month: Month,
    positions: &[Ply],
    speed: Speed,
    rated: bool,
    id: GameId,
    outcome: Outcome,
    opponent_rating: u16,
) -> (r: Vec<(Key, PersonalEntry)>)
    requires
        id.wf(),
    ensures
        r@.len() == positions@.len(),
        forall|i: int| 0 <= i < r@.len() ==> (#[trigger] r@[i]).1.wf(),
        forall|i: int|
            0 <= i < r@.len() ==> {
                let (hash, (uci, turn)) = #[trigger] positions@[i];
                &&& r@[i].0.spec_bytes() == spec_position_key(builder.spec_base(), variant, hash, month.value())
                &&& r@[i].1@ == spec_personal_single(
                    uci,
                    speed,
                    if rated { Mode::Rated } else { Mode::Casual },
                    id,
                    outcome,
                    opponent_rating,
                )
            },
{
    let mode = Mode::from_rated(rated);
    let mut out: Vec<(Key, PersonalEntry)> = Vec::new();
    let mut i: usize = 0;
    while i < positions.len()
        invariant
            id.wf(),
            i <= positions@.len(),
            out@.len() == i,
            mode == (if rated { Mode::Rated } else { Mode::Casual }),
            forall|j: int| 0 <= j < out@.len() ==> (#[trigger] out@[j]).1.wf(),
            forall|j: int|
                0 <= j < i ==> {
                    let (hash, (uci, turn)) = #[trigger] positions@[j];
                    &&& out@[j].0.spec_bytes() == spec_position_key(
                        builder.spec_base(),
                        variant,
                        hash,
                        month.value(),
                    )
                    &&& out@[j].1@ == spec_personal_single(uci, speed, mode, id, outcome, opponent_rating)
                },
        decreases positions@.len() - i,
    {
        let (hash, (uci, _turn)) = positions[i];
        let key = builder.with_zobrist(variant, ZobristKey(hash)).with_month(month);
        let entry = PersonalEntry::new_single(uci, speed, mode, id, outcome, opponent_rating);
        out.push((key, entry));
        i = i + 1;
    }
    out
}

/// What indexing one game of a player writes: the record of the game and
/// the entries of its positions.
pub struct IndexedGame {
    pub game: LichessGame,
    pub entries: Vec<(Key, PersonalEntry)>,
}

/// The month of the game's last move, the year clamped to the range.
pub open spec fn spec_game_month(game: Game) -> int {
    crate::date::spec_month_number(
        if game.last_move_year < crate::date::MIN_YEAR {
            crate::date::MIN_YEAR as int
        } else if game.last_move_year > crate::date::MAX_YEAR {
            crate::date::MAX_YEAR as int
        } else {
            game.last_move_year as int
        },
        game.last_move_month - 1,
    )
}

/// Whether `entries` are the records of a player's game for `positions`:
/// under the key of each position (with the builder of the player's side),
/// the variant and the month, the single-game entry of the move played
/// from it, with the opponent's rating.
pub open spec fn spec_player_import_entries(
    builder: KeyBuilder,
    game: Game,
    color: Color,
    positions: Seq<Ply>,
    entries: Seq<(Key, PersonalEntry)>,
) -> bool {
    &&& entries.len() == positions.len()
    &&& forall|i: int|
        0 <= i < entries.len() ==> {
            let (hash, (uci, turn)) = #[trigger] positions[i];
            &&& entries[i].0.spec_bytes() == spec_position_key(
                builder.spec_base(),
                spec_lila_variant(game.variant),
                hash,
                spec_game_month(game) as u16,
            )
            &&& entries[i].1@ == spec_personal_single(
                uci,
                game.speed,
                if game.rated { Mode::Rated } else { Mode::Casual },
                game.id,
                Outcome::spec_from_winner(game.winner),
                game.players.spec_get(color.spec_other()).rating->0,
            )
        }
}

/// Indexes a game of the player from the side `color`, once it is known
/// not to be indexed from that side yet: nothing when its starting position
/// cannot be read or is not legal, when a move cannot be read or the
/// opponent has no rating; else the record of the game and, for its first
/// fifty plies up to the first move that is not legal (each position
/// counted once), the entries under the key of the player's side.
pub fn index_game_records(game: &Game, color: Color, builder: &KeyBuilder) -> (r: Option<IndexedGame>)
    requires
        game.id.wf(),
        1 <= game.last_move_month <= 12,
    ensures
        ({
            let replay = spec_game_replay(
                spec_lila_variant(game.variant),
                opt_text(game.initial_fen),
                spec_texts(game.moves@),
                MAX_PLIES as nat,
                true,
            );
            &&& r is None <==> (game.players.spec_get(color.spec_other()).rating is None
                || replay is Err)
            &&& r matches Some(ig) ==> replay matches Ok(plies) && exists|positions: Seq<Ply>|
                #![trigger spec_positions_of(plies, positions)]
                spec_positions_of(plies, positions) && spec_player_import_entries(
                    *builder,
                    *game,
                    color,
                    positions,
                    ig.entries@,
                )
        }),
        r matches Some(ig) ==> {
            &&& ig.game.outcome == Outcome::spec_from_winner(game.winner)
            &&& ig.game.speed == game.speed
            &&& ig.game.mode == (if game.rated { Mode::Rated } else { Mode::Casual })
            &&& ig.game.month.value() == spec_game_month(*game)
            &&& ig.game.players.white.name@ == spec_player_name(game.players.white)
            &&& ig.game.players.white.rating == spec_player_rating(game.players.white)
            &&& ig.game.players.black.name@ == spec_player_name(game.players.black)
            &&& ig.game.players.black.rating == spec_player_rating(game.players.black)
            &&& ig.game.indexed_player.white == (color == Color::White)
            &&& ig.game.indexed_player.black == (color == Color::Black)
            &&& !ig.game.indexed_lichess
            &&& ig.entries@.len() <= MAX_PLIES
            &&& forall|i: int| 0 <= i < ig.entries@.len() ==> (#[trigger] ig.entries@[i]).1.wf()
        },
{
    let month = Month::from_time_saturating(game.last_move_year, game.last_move_month);
    let outcome = Outcome::from_winner(game.winner);
    let variant = game.variant.to_variant();
    let opponent_rating = match game.players.get(color.other()).rating {
        Some(rating) => rating,
        None => {
            return None;
        },
    };
    let fen = match &game.initial_fen {
        Some(fen) => Some(fen.as_str()),
        None => None,
    };
    let plies = match replay_game(variant, fen, game.moves.as_slice(), MAX_PLIES, true) {
        Ok(plies) => plies,
        Err(_) => {
            return None;
        },
    };
    let positions = dedup_keep_last(plies.as_slice());
    let entries = player_entries(
        builder,
        variant,
        month,
        positions.as_slice(),
        game.speed,
        game.rated,
        game.id,
        outcome,
        opponent_rating,
    );
    let record = indexed_game_record(
        outcome,
        game.speed,
        game.rated,
        month,
        &game.players.white,
        &game.players.black,
        color,
    );
    proof {
        assert(spec_positions_of(plies@, positions@));
        assert(spec_player_import_entries(*builder, *game, color, positions@, entries@));
    }
    Some(IndexedGame { game: record, entries })
}

/// The number of distinct keys.
pub open spec fn dedup_len<T>(items: Seq<(u128, T)>) -> nat {
    items.map_values(|x: (u128, T)| x.0).to_set().len()
}

proof fn lemma_dedup_len<T>(items: Seq<(u128, T)>, out: Seq<(u128, T)>)
    requires
        forall|i: int, j: int| 0 <= i < j < out.len() ==> out[i].0 != out[j].0,
        forall|i: int| 0 <= i < out.len() ==> spec_last_value(items, #[trigger] out[i].0) == Some(out[i].1),
        forall|k: u128| #[trigger] spec_last_value(items, k) is Some ==> exists|i: int| 0 <= i < out.len() && out[i].0 == k,
    ensures
        out.len() == dedup_len(items),
{
    let ks = out.map_values(|x: (u128, T)| x.0);
    let ms = items.map_values(|x: (u128, T)| x.0);
    let s = ms.to_set();
    assert forall|k: u128| s.contains(k) implies #[trigger] ks.to_set().contains(k) by {
        assert(ms.contains(k));
        let j = choose|j: int| 0 <= j < ms.len() && ms[j] == k;
        assert(items[j].0 == k);
        lemma_last_value_some(items, j);
        let i = choose|i: int| 0 <= i < out.len() && out[i].0 == k;
        assert(ks[i] == k);
        assert(ks.contains(k));
    }
    assert forall|k: u128| ks.to_set().contains(k) implies #[trigger] s.contains(k) by {
        assert(ks.contains(k));
        let i = choose|i: int| 0 <= i < ks.len() && ks[i] == k;
        assert(out[i].0 == k);
        lemma_last_value_in(items, k);
        let j = choose|j: int| 0 <= j < items.len() && items[j].0 == k;
        assert(ms[j] == k);
        assert(ms.contains(k));
    }
    assert(s =~= ks.to_set());
    assert(ks.no_duplicates()) by {
        assert forall|i: int, j: int| 0 <= i < ks.len() && 0 <= j < ks.len() && i != j implies ks[i] != ks[j] by {
            if i < j {
                assert(out[i].0 != out[j].0);
            } else {
                assert(out[j].0 != out[i].0);
            }
        }
    }
    ks.unique_seq_to_set();
}

proof fn lemma_last_value_some<T>(items: Seq<(u128, T)>, j: int)
    requires
        0 <= j < items.len(),
    ensures
        spec_last_value(items, items[j].0) is Some,
    decreases items.len(),
{
    if j < items.len() - 1 && items.last().0 != items[j].0 {
        lemma_last_value_some(items.drop_last(), j);
    }
}

proof fn lemma_last_value_in<T>(items: Seq<(u128, T)>, k: u128)
    ensures
        spec_last_value(items, k) is Some ==> exists|j: int| 0 <= j < items.len() && items[j].0 == k,
    decreases items.len(),
{
    if items.len() > 0 && items.last().0 != k {
        lemma_last_value_in(items.drop_last(), k);
        if spec_last_value(items, k) is Some {
            let j = choose|j: int| 0 <= j < items.drop_last().len() && items.drop_last()[j].0 == k;
            assert(items[j].0 == k);
        }
    }
}

/// Where the game server is, and the token that speeds up indexing.
#[derive(Debug, Clone)]
pub struct LilaOpt {
    /// Base url of the game server.
    pub lila: String,
    /// Token of the explorer's account on the game server.
    pub bearer: Option<String>,
}

/// How the indexer reaches the game server, and how many players it
/// indexes at once.
#[derive(Debug, Clone)]
pub struct IndexerOpt {
    /// Base url of the game server.
    pub lila: String,
    /// Token of the explorer's account on the game server.
    pub bearer: Option<String>,
    /// Number of players indexed at once.
    pub indexers: usize,
}

/// How many players the player indexer indexes at once.
#[derive(Debug, Clone, Copy, PartialEq, Eq, Structural)]
pub struct PlayerIndexerOpt {
    /// Number of players indexed at once.
    pub indexers: usize,
}

} // verus!
