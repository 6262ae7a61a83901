//! Importing games into the masters and the lichess explorer: which games
//! are accepted, and the records that an accepted game adds.
use vstd::prelude::*;

use crate::buf::le_bytes;
use crate::chess::{ChessVariant, Color, Outcome, Uci};
use crate::date::{LaxDate, Month, Year};
use crate::game::{ByColor, GamePlayer, LichessGame};
use crate::game_id::GameId;
use crate::indexer::{dedup_keep_last, spec_last_value};
use crate::key::{be_bytes2, spec_variant_mix, Key, KeyBuilder, ZobristKey};
use crate::lichess::{spec_lichess_single, LichessEntry};
use crate::masters::{spec_masters_single, MastersEntry};
use crate::mode::Mode;
use crate::rating::{midpoint, spec_midpoint};
use crate::replay::{
    opt_text, replay_game, replay_ucis, sans_of_ucis, spec_game_replay, spec_texts,
    spec_uci_replay, spec_uci_sans, Start, Ply, ReplayError, MAX_PLIES,
};
use crate::speed::Speed;
use crate::text::{ascii_chars, push_dec_text, push_str, spec_dec_text, string_push};

verus! {

/// Why a game was not imported.
#[derive(Debug, Clone, Copy, PartialEq, Eq, Structural)]
pub enum ImportError {
    /// The moves could not be replayed.
    Replay(ReplayError),
    /// The game, or a game that ends in the same position, is already there.
    DuplicateGame { id: GameId },
    /// The mean rating of the players is too low for the masters explorer.
    RejectedRating { id: GameId, rating: u16 },
    /// The date is too late for the masters explorer, or has no month.
    RejectedDate { id: GameId, date: LaxDate },
}

/// The key bytes of a position: the hash mixed with the builder's base and
/// the variant, its first twelve bytes, then the month or year.
pub open spec fn spec_position_key(base: u128, variant: ChessVariant, hash: u128, suffix: u16) -> Seq<
    u8,
> {
    le_bytes((base ^ hash ^ spec_variant_mix(variant)) as nat, 16).take(12) + be_bytes2(suffix)
}

/// The positions of a replay counted once each, with the move last played
/// from them, as `dedup_keep_last` finds them.
pub open spec fn spec_positions_of(plies: Seq<Ply>, positions: Seq<Ply>) -> bool {
    &&& forall|i: int, j: int| 0 <= i < j < positions.len() ==> positions[i].0 != positions[j].0
    &&& forall|i: int|
        0 <= i < positions.len() ==> spec_last_value(plies, #[trigger] positions[i].0) == Some(
            positions[i].1,
        )
    &&& forall|k: u128| #[trigger]
        spec_last_value(plies, k) is Some ==> exists|i: int|
            0 <= i < positions.len() && positions[i].0 == k
}

/// A game for the masters explorer.
#[derive(Debug, Clone)]
pub struct MastersGame {
    pub event: String,
    pub site: String,
    pub date: LaxDate,
    pub round: String,
    pub players: ByColor<GamePlayer>,
    pub winner: Option<Color>,
    pub moves: Vec<Uci>,
}

/// A game for the masters explorer with its identifier.
#[derive(Debug, Clone)]
pub struct MastersGameWithId {
    pub id: GameId,
    pub game: MastersGame,
}

impl MastersGame {
    /// The outcome: a win of the winner, or a draw.
    pub fn outcome(&self) -> (o: Outcome)
        ensures
            o.spec_winner() == self.winner,
    {
        Outcome::from_winner(self.winner)
    }
}

/// The mean rating of the players of a masters game.
pub open spec fn spec_masters_avg(game: MastersGame) -> u16 {
    spec_midpoint(game.players.white.rating, game.players.black.rating)
}

/// Checks a masters game before it is imported: the players' mean rating
/// must be at least 2200 and the year at most the last of the masters
/// database. Gives the year of the game.
pub fn check_masters_import(body: &MastersGameWithId) -> (r: Result<Year, ImportError>)
    ensures
        spec_masters_avg(body.game) < 2200 ==> r == Err::<Year, ImportError>(
            ImportError::RejectedRating { id: body.id, rating: spec_masters_avg(body.game) },
        ),
        spec_masters_avg(body.game) >= 2200 && body.game.date.spec_year().value() > 2022 ==> r == Err::<
            Year,
            ImportError,
        >(ImportError::RejectedDate { id: body.id, date: body.game.date }),
        spec_masters_avg(body.game) >= 2200 && body.game.date.spec_year().value() <= 2022 ==> r == Ok::<
            Year,
            ImportError,
        >(body.game.date.spec_year()),
{
    let avg_rating = midpoint(body.game.players.white.rating, body.game.players.black.rating);
    if avg_rating < 2200 {
        return Err(ImportError::RejectedRating { id: body.id, rating: avg_rating });
    }
    let year = body.game.date.year();
    if Year::max_masters().to_u16() < year.to_u16() {
        return Err(ImportError::RejectedDate { id: body.id, date: body.game.date });
    }
    Ok(year)
}

/// The records of a masters game for its positions: under the key of each
/// position and the year, the move played from it by the side to move, with
/// the mover's and the opponent's rating.
pub fn masters_entries(body: &MastersGameWithId, year: Year, positions: &[Ply]) -> (r: Vec<
    (Key, MastersEntry),
>)
    requires
        body.id.wf(),
    ensures
        r@.len() == positions@.len(),
        forall|i: int| 0 <= i < r@.len() ==> (#[trigger] r@[i]).1.wf(),
        forall|i: int|
            0 <= i < r@.len() ==> {
                let (hash, (uci, turn)) = #[trigger] positions@[i];
                &&& r@[i].0.spec_bytes() == spec_position_key(0, ChessVariant::Chess, hash, year.value())
                &&& r@[i].1@ == spec_masters_single(
                    uci,
                    body.id,
                    Outcome::from_winner(body.game.winner),
                    body.game.players.spec_get(turn).rating,
                    body.game.players.spec_get(turn.other()).rating,
                )
                &&& r@[i].1.wf()
            },
{
    let outcome = body.game.outcome();
    let mut out: Vec<(Key, MastersEntry)> = Vec::new();
    let mut i: usize = 0;
    while i < positions.len()
        invariant
            body.id.wf(),
            i <= positions@.len(),
            out@.len() == i,
            forall|j: int| 0 <= j < out@.len() ==> (#[trigger] out@[j]).1.wf(),
            outcome == Outcome::from_winner(body.game.winner),
            forall|j: int|
                0 <= j < i ==> {
                    let (hash, (uci, turn)) = #[trigger] positions@[j];
                    &&& out@[j].0.spec_bytes() == spec_position_key(
                        0,
                        ChessVariant::Chess,
                        hash,
                        year.value(),
                    )
                    &&& out@[j].1@ == spec_masters_single(
                        uci,
                        body.id,
                        outcome,
                        body.game.players.spec_get(turn).rating,
                        body.game.players.spec_get(turn.other()).rating,
                    )
                    &&& out@[j].1.wf()
                },
        decreases positions@.len() - i,
    {
        let (hash, (uci, turn)) = positions[i];
        let key = KeyBuilder::masters().with_zobrist(ChessVariant::Chess, ZobristKey(hash)).with_year(
            year,
        );
        let entry = MastersEntry::new_single(
            uci,
            body.id,
            outcome,
            body.game.players.get(turn).rating,
            body.game.players.get(turn.other()).rating,
        );
        out.push((key, entry));
        i = i + 1;
    }
    out
}

/// Whether `entries` are the records of a masters game for `positions`:
/// under the key of each position and the year, the single-game entry of
/// the move played from it, with the mover's and the opponent's rating.
pub open spec fn spec_masters_import_entries(
    body: MastersGameWithId,
    year: u16,
    positions: Seq<Ply>,
    entries: Seq<(Key, MastersEntry)>,
) -> bool {
    &&& entries.len() == positions.len()
    &&& forall|i: int|
        0 <= i < entries.len() ==> {
            let (hash, (uci, turn)) = #[trigger] positions[i];
            &&& entries[i].0.spec_bytes() == spec_position_key(0, ChessVariant::Chess, hash, year)
            &&& entries[i].1@ == spec_masters_single(
                uci,
                body.id,
                Outcome::spec_from_winner(body.game.winner),
                body.game.players.spec_get(turn).rating,
                body.game.players.spec_get(turn.spec_other()).rating,
            )
        }
}

/// Refuses a masters game that is in the database already, or whose
/// position before its last move is (a game that ends there is taken for
/// the same game): `has_game` and `has_final_position` tell what the
/// database holds.
pub fn check_masters_duplicate(id: GameId, has_game: bool, has_final_position: bool) -> (r: Result<
    (),
    ImportError,
>)
    ensures
        (r is Ok) == (!has_game && !has_final_position),
        r matches Err(e) ==> (e == (ImportError::DuplicateGame { id })),
{
    if has_game || has_final_position {
        Err(ImportError::DuplicateGame { id })
    } else {
        Ok(())
    }
}

/// What importing a masters game writes, once it passed the checks and is
/// not in the database yet: the records of its positions, and the key of
/// the position before its last move (a game that ends there is taken for
/// the same game).
pub struct MastersImport {
    pub final_key: Option<Key>,
    pub entries: Vec<(Key, MastersEntry)>,
}

/// Replays a masters game from the starting position and gives what its
/// import writes. Fails when a move is not legal where it is played.
pub fn masters_import_records(body: &MastersGameWithId, year: Year) -> (r: Result<
    MastersImport,
    ImportError,
>)
    requires
        body.id.wf(),
    ensures
        match spec_uci_replay(Start::New(ChessVariant::Chess), Seq::empty(), body.game.moves@) {
            None => r == Err::<MastersImport, ImportError>(ImportError::Replay(ReplayError::IllegalUci)),
            Some((plies, _)) => r matches Ok(imp) && {
                &&& (imp.final_key is None <==> body.game.moves@.len() == 0)
                &&& (imp.final_key matches Some(k) ==> k.spec_bytes() == spec_position_key(
                    0,
                    ChessVariant::Chess,
                    plies.last().0,
                    year.value(),
                ))
                &&& exists|positions: Seq<Ply>|
                    #![trigger spec_positions_of(plies, positions)]
                    spec_positions_of(plies, positions) && spec_masters_import_entries(
                        *body,
                        year.value(),
                        positions,
                        imp.entries@,
                    )
            },
        },
        r matches Ok(imp) ==> {
            &&& imp.entries@.len() <= body.game.moves@.len()
            &&& forall|i: int| 0 <= i < imp.entries@.len() ==> (#[trigger] imp.entries@[i]).1.wf()
        },
{
    match replay_ucis(body.game.moves.as_slice()) {
        Err(e) => Err(ImportError::Replay(e)),
        Ok((plies, last)) => {
            let positions = dedup_keep_last(plies.as_slice());
            let entries = masters_entries(body, year, positions.as_slice());
            proof {
                assert(spec_positions_of(plies@, positions@));
                assert(spec_masters_import_entries(*body, year.value(), positions@, entries@));
            }
            let final_key = match last {
                Some(hash) => Some(
                    KeyBuilder::masters().with_zobrist(ChessVariant::Chess, ZobristKey(hash)).with_year(
                        year,
                    ),
                ),
                None => None,
            };
            Ok(MastersImport { final_key, entries })
        },
    }
}

/// A game for the lichess explorer, as the game server sends it.
#[derive(Debug, Clone)]
pub struct LichessGameImport {
    pub variant: ChessVariant,
    pub speed: Speed,
    pub fen: Option<String>,
    pub id: GameId,
    pub date: LaxDate,
    pub players: ByColor<GamePlayer>,
    pub winner: Option<Color>,
    pub moves: Vec<String>,
}

/// The record of an imported lichess game: rated, indexed for the lichess
/// explorer and for no player.
pub fn lichess_import_game(game: &LichessGameImport, month: Month) -> (g: LichessGame)
    ensures
        g.mode == Mode::Rated,
        g.indexed_player == (ByColor { white: false, black: false }),
        g.indexed_lichess,
        g.outcome.spec_winner() == game.winner,
        g.players.white.rating == game.players.white.rating,
        g.players.black.rating == game.players.black.rating,
        g.players.white.name@ == game.players.white.name@,
        g.players.black.name@ == game.players.black.name@,
        g.month == month,
        g.speed == game.speed,
{
    LichessGame {
        mode: Mode::Rated,
        indexed_player: ByColor { white: false, black: false },
        indexed_lichess: true,
        outcome: Outcome::from_winner(game.winner),
        players: ByColor {
            white: GamePlayer {
                name: game.players.white.name.clone(),
                rating: game.players.white.rating,
            },
            black: GamePlayer {
                name: game.players.black.name.clone(),
                rating: game.players.black.rating,
            },
        },
        month,
        speed: game.speed,
    }
}

/// The records of a lichess game for its positions: under the key of each
/// position, the variant and the month, the move played from it by the
/// side to move, at the game's speed, with the mover's and the opponent's
/// rating.
pub fn lichess_entries(game: &LichessGameImport, month: Month, positions: &[Ply]) -> (r: Vec<
    (Key, LichessEntry),
>)
    requires
        game.id.wf(),
    ensures
        r@.len() == positions@.len(),
        forall|i: int| 0 <= i < r@.len() ==> (#[trigger] r@[i]).1.wf(),
        forall|i: int|
            0 <= i < r@.len() ==> {
                let (hash, (uci, turn)) = #[trigger] positions@[i];
                &&& r@[i].0.spec_bytes() == spec_position_key(0, game.variant, hash, month.value())
                &&& r@[i].1@ == spec_lichess_single(
                    uci,
                    game.speed,
                    game.id,
                    Outcome::from_winner(game.winner),
                    game.players.spec_get(turn).rating,
                    game.players.spec_get(turn.other()).rating,
                )
                &&& r@[i].1.wf()
            },
{
    let outcome = Outcome::from_winner(game.winner);
    let mut out: Vec<(Key, LichessEntry)> = Vec::new();
    let mut i: usize = 0;
    while i < positions.len()
        invariant
            game.id.wf(),
            i <= positions@.len(),
            out@.len() == i,
            forall|j: int| 0 <= j < out@.len() ==> (#[trigger] out@[j]).1.wf(),
            outcome == Outcome::from_winner(game.winner),
            forall|j: int|
                0 <= j < i ==> {
                    let (hash, (uci, turn)) = #[trigger] positions@[j];
                    &&& out@[j].0.spec_bytes() == spec_position_key(
                        0,
                        game.variant,
                        hash,
                        month.value(),
                    )
                    &&& out@[j].1@ == spec_lichess_single(
                        uci,
                        game.speed,
                        game.id,
                        outcome,
                        game.players.spec_get(turn).rating,
                        game.players.spec_get(turn.other()).rating,
                    )
                    &&& out@[j].1.wf()
                },
        decreases positions@.len() - i,
    {
        let (hash, (uci, turn)) = positions[i];
        let key = KeyBuilder::lichess().with_zobrist(game.variant, ZobristKey(hash)).with_month(month);
        let entry = LichessEntry::new_single(
            uci,
            game.speed,
            game.id,
            outcome,
            game.players.get(turn).rating,
            game.players.get(turn.other()).rating,
        );
        out.push((key, entry));
        i = i + 1;
    }
    out
}

/// Whether `entries` are the records of a lichess game for `positions`:
/// under the key of each position, the variant and the month, the
/// single-game entry of the move played from it, with the mover's and the
/// opponent's rating.
pub open spec fn spec_lichess_import_entries(
    game: LichessGameImport,
    month: u16,
    positions: Seq<Ply>,
    entries: Seq<(Key, LichessEntry)>,
) -> bool {
    &&& entries.len() == positions.len()
    &&& forall|i: int|
        0 <= i < entries.len() ==> {
            let (hash, (uci, turn)) = #[trigger] positions[i];
            &&& entries[i].0.spec_bytes() == spec_position_key(0, game.variant, hash, month)
            &&& entries[i].1@ == spec_lichess_single(
                uci,
                game.speed,
                game.id,
                Outcome::spec_from_winner(game.winner),
                game.players.spec_get(turn).rating,
                game.players.spec_get(turn.spec_other()).rating,
            )
        }
}

/// What importing a lichess game writes: the records of its positions and
/// the record of the game.
pub struct LichessImport {
    pub entries: Vec<(Key, LichessEntry)>,
    pub game: LichessGame,
}

/// Imports a lichess game: nothing when it was imported before; an error
/// when its date has no month, its starting position or a move cannot be
/// read, or a move is not legal where it is played; else the records of its
/// first fifty plies, each position counted once, and of the game.
pub fn prepare_lichess_import(game: &LichessGameImport, already_imported: bool) -> (r: Result<
    Option<LichessImport>,
    ImportError,
>)
    requires
        game.id.wf(),
    ensures
        already_imported ==> r == Ok::<Option<LichessImport>, ImportError>(None),
        !already_imported && game.date.spec_month() is None ==> r == Err::<
            Option<LichessImport>,
            ImportError,
        >(ImportError::RejectedDate { id: game.id, date: game.date }),
        !already_imported && game.date.spec_month() is Some ==> match spec_game_replay(
            game.variant,
            opt_text(game.fen),
            spec_texts(game.moves@),
            MAX_PLIES as nat,
            false,
        ) {
            Err(e) => r == Err::<Option<LichessImport>, ImportError>(ImportError::Replay(e)),
            Ok(plies) => r matches Ok(Some(imp)) && exists|positions: Seq<Ply>|
                #![trigger spec_positions_of(plies, positions)]
                spec_positions_of(plies, positions) && spec_lichess_import_entries(
                    *game,
                    imp.game.month.value(),
                    positions,
                    imp.entries@,
                ),
        },
        r matches Ok(Some(imp)) ==> {
            &&& game.date.spec_month() matches Some(m) && imp.game.month.value()
                == game.date.spec_year().value() * 12 + m - 1
            &&& imp.game.mode == Mode::Rated
            &&& imp.game.indexed_lichess
            &&& imp.game.indexed_player == (ByColor { white: false, black: false })
            &&& imp.game.outcome.spec_winner() == game.winner
            &&& imp.game.speed == game.speed
            &&& imp.game.players.white@ == game.players.white@
            &&& imp.game.players.black@ == game.players.black@
            &&& imp.entries@.len() <= MAX_PLIES
            &&& forall|i: int| 0 <= i < imp.entries@.len() ==> (#[trigger] imp.entries@[i]).1.wf()
        },
{
    if already_imported {
        return Ok(None);
    }
    let month = match game.date.month() {
        Some(month) => month,
        None => {
            return Err(ImportError::RejectedDate { id: game.id, date: game.date });
        },
    };
    let fen = match &game.fen {
        Some(fen) => Some(fen.as_str()),
        None => None,
    };
    let plies = match replay_game(game.variant, fen, game.moves.as_slice(), MAX_PLIES, false) {
        Ok(plies) => plies,
        Err(e) => {
            return Err(ImportError::Replay(e));
        },
    };
    let positions = dedup_keep_last(plies.as_slice());
    let entries = lichess_entries(game, month, positions.as_slice());
    let record = lichess_import_game(game, month);
    proof {
        assert(spec_positions_of(plies@, positions@));
        assert(spec_lichess_import_entries(*game, month.value(), positions@, entries@));
    }
    Ok(Some(LichessImport { entries, game: record }))
}

/// The text of a masters game in PGN: the tags, then the moves in SAN
/// numbered by full move, then the result. Fails when a move is not legal
/// where it is played.
pub fn write_pgn(game: &MastersGame) -> (r: Result<String, ReplayError>)
    ensures
        match spec_uci_sans(Start::New(ChessVariant::Chess), Seq::empty(), game.moves@) {
            None => r == Err::<String, ReplayError>(ReplayError::IllegalUci),
            Some(sans) => r matches Ok(t) && t@ == spec_pgn(*game, sans),
        },
{
    let sans = match sans_of_ucis(game.moves.as_slice()) {
        Ok(sans) => sans,
        Err(e) => {
            return Err(e);
        },
    };
    let t = pgn_text(game, sans.as_slice());
    Ok(t)
}

/// A PGN tag pair on its own line: `[Name "value"]`.
pub open spec fn spec_tag(name: Seq<char>, value: Seq<char>) -> Seq<char> {
    seq!['['] + name + seq![' ', '"'] + value + seq!['"', ']', '\n']
}

/// The result of a game as PGN writes it.
pub open spec fn spec_result_text(o: Outcome) -> Seq<char> {
    match o {
        Outcome::Decisive { winner: Color::White } => seq!['1', '-', '0'],
        Outcome::Decisive { winner: Color::Black } => seq!['0', '-', '1'],
        Outcome::Draw => seq!['1', '/', '2', '-', '1', '/', '2'],
    }
}

/// The moves of a game in PGN: before each move of white its number and a
/// dot (after a space but at the start), then a space and the move.
pub open spec fn spec_movetext(sans: Seq<Seq<char>>) -> Seq<char>
    decreases sans.len(),
{
    if sans.len() == 0 {
        Seq::empty()
    } else {
        let i = sans.len() - 1;
        spec_movetext(sans.drop_last()) + (if i % 2 == 0 {
            (if i > 0 {
                seq![' ']
            } else {
                Seq::empty()
            }) + spec_dec_text((i / 2 + 1) as nat) + seq!['.']
        } else {
            Seq::empty()
        }) + seq![' '] + sans.last()
    }
}

/// A masters game in PGN, its moves given in SAN.
pub open spec fn spec_pgn(game: MastersGame, sans: Seq<Seq<char>>) -> Seq<char> {
    let result = spec_result_text(Outcome::from_winner(game.winner));
    spec_tag("Event"@, game.event@) + spec_tag("Site"@, game.site@) + spec_tag(
        "Date"@,
        ascii_chars(
            crate::date::spec_lax_text(
                game.date.spec_year().value(),
                game.date.spec_month(),
                game.date.spec_day(),
            ),
        ),
    ) + spec_tag("Round"@, game.round@) + spec_tag("White"@, game.players.white.name@) + spec_tag(
        "Black"@,
        game.players.black.name@,
    ) + spec_tag("Result"@, result) + spec_tag(
        "WhiteElo"@,
        spec_dec_text(game.players.white.rating as nat),
    ) + spec_tag("BlackElo"@, spec_dec_text(game.players.black.rating as nat)) + seq!['\n']
        + spec_movetext(sans) + (if sans.len() > 0 {
        seq![' ']
    } else {
        Seq::empty()
    }) + result + seq!['\n']
}

/// Appends a tag pair.
fn push_tag(s: &mut String, name: &str, value: &str)
    ensures
        final(s)@ == old(s)@ + spec_tag(name@, value@),
{
    let ghost start = s@;
    string_push(s, '[');
    push_str(s, name);
    string_push(s, ' ');
    string_push(s, '"');
    push_str(s, value);
    string_push(s, '"');
    string_push(s, ']');
    string_push(s, '\n');
    proof {
        assert(s@ =~= start + spec_tag(name@, value@));
    }
}

/// The result of a game as PGN writes it.
fn result_text(o: Outcome) -> (t: String)
    ensures
        t@ == spec_result_text(o),
{
    let mut t = String::new();
    match o {
        Outcome::Decisive { winner: Color::White } => {
            string_push(&mut t, '1');
            string_push(&mut t, '-');
            string_push(&mut t, '0');
        },
        Outcome::Decisive { winner: Color::Black } => {
            string_push(&mut t, '0');
            string_push(&mut t, '-');
            string_push(&mut t, '1');
        },
        Outcome::Draw => {
            string_push(&mut t, '1');
            string_push(&mut t, '/');
            string_push(&mut t, '2');
            string_push(&mut t, '-');
            string_push(&mut t, '1');
            string_push(&mut t, '/');
            string_push(&mut t, '2');
        },
    }
    proof {
        assert(t@ =~= spec_result_text(o));
    }
    t
}

/// A masters game in PGN, its moves given in SAN: the tags, the numbered
/// moves, and the result.
pub fn pgn_text(game: &MastersGame, sans: &[String]) -> (t: String)
    ensures
        t@ == spec_pgn(*game, spec_texts(sans@)),
{
    let result = result_text(game.outcome());
    let mut t = String::new();
    push_tag(&mut t, "Event", game.event.as_str());
    push_tag(&mut t, "Site", game.site.as_str());
    let date = game.date.to_string();
    push_tag(&mut t, "Date", date.as_str());
    push_tag(&mut t, "Round", game.round.as_str());
    push_tag(&mut t, "White", game.players.white.name.as_str());
    push_tag(&mut t, "Black", game.players.black.name.as_str());
    push_tag(&mut t, "Result", result.as_str());
    let mut elo = String::new();
    push_dec_text(&mut elo, game.players.white.rating as u64);
    push_tag(&mut t, "WhiteElo", elo.as_str());
    let mut elo = String::new();
    push_dec_text(&mut elo, game.players.black.rating as u64);
    push_tag(&mut t, "BlackElo", elo.as_str());
    string_push(&mut t, '\n');
    let ghost head = t@;
    let mut i: usize = 0;
    while i < sans.len()
        invariant
            i <= sans@.len(),
            t@ == head + spec_movetext(spec_texts(sans@).take(i as int)),
        decreases sans@.len() - i,
    {
        let ghost before = t@;
        if i % 2 == 0 {
            if i > 0 {
                string_push(&mut t, ' ');
            }
            push_dec_text(&mut t, (i / 2 + 1) as u64);
            string_push(&mut t, '.');
        }
        string_push(&mut t, ' ');
        push_str(&mut t, sans[i].as_str());
        proof {
            let vs = spec_texts(sans@);
            assert(vs.take(i + 1).drop_last() =~= vs.take(i as int));
            assert(vs.take(i + 1).last() == sans@[i as int]@);
            assert(t@ =~= head + spec_movetext(vs.take(i + 1)));
        }
        i = i + 1;
    }
    if sans.len() > 0 {
        string_push(&mut t, ' ');
    }
    push_str(&mut t, result.as_str());
    string_push(&mut t, '\n');
    proof {
        assert(spec_texts(sans@).take(sans@.len() as int) =~= spec_texts(sans@));
        assert(t@ =~= spec_pgn(*game, spec_texts(sans@)));
    }
    t
}

} // verus!
