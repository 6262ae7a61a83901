//! Replaying the moves of a game to find the positions it passed through.
//! The rules of chess come from shakmaty: positions, moves and their
//! notations stay opaque values of that crate, and only the position hashes,
//! the moves in UCI form and the side to move come out as plain values.
use vstd::prelude::*;

use crate::chess::{Color, PieceRole, Square, Uci, ChessVariant};

verus! {

#[verifier::external_type_specification]
#[verifier::external_body]
pub struct ExVariantPosition(shakmaty::variant::VariantPosition);

#[verifier::external_type_specification]
#[verifier::external_body]
pub struct ExMove(shakmaty::Move);

#[verifier::external_type_specification]
#[verifier::external_body]
pub struct ExSan(shakmaty::san::San);

#[verifier::external_type_specification]
#[verifier::external_body]
pub struct ExFen(shakmaty::fen::Fen);

#[verifier::external_type_specification]
#[verifier::external_body]
pub struct ExOutsideVariant(shakmaty::variant::Variant);

#[verifier::external_type_specification]
#[verifier::external_body]
pub struct ExOutsideUciMove(shakmaty::uci::UciMove);

#[verifier::external_type_specification]
#[verifier::external_body]
pub struct ExOutsideRole(shakmaty::Role);

#[verifier::external_type_specification]
#[verifier::external_body]
pub struct ExSetup(shakmaty::Setup);

/// The most plies of a game that are replayed for the explorers of the game
/// server.
pub const MAX_PLIES: usize = 50;

/// Why the moves of a game could not be replayed.
#[derive(Debug, Clone, Copy, PartialEq, Eq, Structural)]
pub enum ReplayError {
    /// The starting position is not a FEN.
    InvalidFen,
    /// The FEN is not a legal position of the variant.
    InvalidPosition,
    /// A move is not in SAN.
    InvalidSan,
    /// A move in SAN is not legal (or ambiguous) where it is played.
    IllegalSan,
    /// A move in UCI form is not legal where it is played.
    IllegalUci,
}

/// The variant as shakmaty names it, one for one.
#[verifier::external_body]
fn outside_variant(v: ChessVariant) -> shakmaty::variant::Variant {
    match v {
        ChessVariant::Chess => shakmaty::variant::Variant::Chess,
        ChessVariant::Antichess => shakmaty::variant::Variant::Antichess,
        ChessVariant::Atomic => shakmaty::variant::Variant::Atomic,
        ChessVariant::Crazyhouse => shakmaty::variant::Variant::Crazyhouse,
        ChessVariant::Horde => shakmaty::variant::Variant::Horde,
        ChessVariant::KingOfTheHill => shakmaty::variant::Variant::KingOfTheHill,
        ChessVariant::RacingKings => shakmaty::variant::Variant::RacingKings,
        ChessVariant::ThreeCheck => shakmaty::variant::Variant::ThreeCheck,
    }
}

/// The role as the library names it, one for one.
#[verifier::external_body]
fn role_from_outside(r: shakmaty::Role) -> PieceRole {
    match r {
        shakmaty::Role::Pawn => PieceRole::Pawn,
        shakmaty::Role::Knight => PieceRole::Knight,
        shakmaty::Role::Bishop => PieceRole::Bishop,
        shakmaty::Role::Rook => PieceRole::Rook,
        shakmaty::Role::Queen => PieceRole::Queen,
        shakmaty::Role::King => PieceRole::King,
    }
}

/// The role as shakmaty names it, one for one.
#[verifier::external_body]
fn role_to_outside(r: PieceRole) -> shakmaty::Role {
    match r {
        PieceRole::Pawn => shakmaty::Role::Pawn,
        PieceRole::Knight => shakmaty::Role::Knight,
        PieceRole::Bishop => shakmaty::Role::Bishop,
        PieceRole::Rook => shakmaty::Role::Rook,
        PieceRole::Queen => shakmaty::Role::Queen,
        PieceRole::King => shakmaty::Role::King,
    }
}

/// A move in UCI form as the library holds it: shakmaty's squares are
/// numbered `0` to `63`, so both squares are of the board.
#[verifier::external_body]
fn uci_from_outside(u: shakmaty::uci::UciMove) -> (r: Uci)
    ensures
        r.wf(),
{
    match u {
        shakmaty::uci::UciMove::Normal { from, to, promotion } => Uci::Normal {
            from: Square::new(from.to_u32()),
            to: Square::new(to.to_u32()),
            promotion: match promotion { Some(p) => Some(role_from_outside(p)), None => None },
        },
        shakmaty::uci::UciMove::Put { role, to } => Uci::Put {
            role: role_from_outside(role),
            to: Square::new(to.to_u32()),
        },
        shakmaty::uci::UciMove::Null => Uci::Null,
    }
}

/// A move in UCI form as shakmaty holds it; `shakmaty::Square::new` panics
/// on a number from `64` on, which `requires` leaves out.
#[verifier::external_body]
fn uci_to_outside(u: Uci) -> shakmaty::uci::UciMove
    requires
        u.wf(),
{
    match u {
        Uci::Normal { from, to, promotion } => shakmaty::uci::UciMove::Normal {
            from: shakmaty::Square::new(from.index() as u32),
            to: shakmaty::Square::new(to.index() as u32),
            promotion: match promotion { Some(p) => Some(role_to_outside(p)), None => None },
        },
        Uci::Put { role, to } => shakmaty::uci::UciMove::Put {
            role: role_to_outside(role),
            to: shakmaty::Square::new(to.index() as u32),
        },
        Uci::Null => shakmaty::uci::UciMove::Null,
    }
}

/// Whether `text` is a FEN as `shakmaty::fen::Fen::from_ascii` reads it.
pub uninterp spec fn fen_text_parses(text: Seq<char>) -> bool;

/// `shakmaty::fen::Fen::from_ascii`: the FEN written in `text`, if it is
/// one. Which texts parse is shakmaty's grammar, a function of the text
/// alone, named `fen_text_parses`; the FEN itself stays opaque.
#[verifier::external_body]
pub(crate) fn parse_fen(text: &str) -> (r: Option<shakmaty::fen::Fen>)
    ensures
        r is Some == fen_text_parses(text@),
{
    shakmaty::fen::Fen::from_ascii(text.as_bytes()).ok()
}

/// Whether the starting positions of two requests have equal setups
/// (`PartialEq` of `shakmaty::Setup`, derived field by field): each the
/// setup of its FEN (`Fen::into_setup`), or without a FEN that of the
/// starting position of its variant with its en passant square always
/// given (`Position::to_setup` with `EnPassantMode::Always`).
pub uninterp spec fn same_setup(
    a: ChessVariant,
    fa: Option<Seq<char>>,
    b: ChessVariant,
    fb: Option<Seq<char>>,
) -> bool;

/// The setup of the starting position of a request, with the variant and
/// the FEN text it was made from. Setups are made only by the functions
/// below, so the setup is always the one of that start.
pub struct StartSetup {
    setup: shakmaty::Setup,
    variant: Ghost<ChessVariant>,
    fen: Ghost<Option<Seq<char>>>,
}

impl StartSetup {
    /// The variant the setup was made for.
    pub closed spec fn spec_variant(&self) -> ChessVariant {
        self.variant@
    }

    /// The FEN text the setup was read from, if any.
    pub closed spec fn spec_fen(&self) -> Option<Seq<char>> {
        self.fen@
    }

    /// `Fen::from_ascii`, then `Fen::into_setup`: the setup written in the
    /// FEN `text`, if the text is one.
    #[verifier::external_body]
    pub(crate) fn of_fen(variant: ChessVariant, text: &str) -> (r: Option<StartSetup>)
        ensures
            r is Some == fen_text_parses(text@),
            r matches Some(s) ==> s.spec_variant() == variant && s.spec_fen() == Some(text@),
    {
        let fen = shakmaty::fen::Fen::from_ascii(text.as_bytes()).ok()?;
        Some(StartSetup { setup: fen.into_setup(), variant: Ghost(variant), fen: Ghost(Some(text@)) })
    }

    /// `VariantPosition::new`, then `Position::to_setup` with
    /// `EnPassantMode::Always`: the setup of the starting position of the
    /// variant.
    #[verifier::external_body]
    pub(crate) fn of_variant(variant: ChessVariant) -> (s: StartSetup)
        ensures
            s.spec_variant() == variant && s.spec_fen() == None::<Seq<char>>,
    {
        let pos = shakmaty::variant::VariantPosition::new(outside_variant(variant));
        let setup = shakmaty::Position::to_setup(&pos, shakmaty::EnPassantMode::Always);
        StartSetup { setup, variant: Ghost(variant), fen: Ghost(None) }
    }

    /// `PartialEq` of `shakmaty::Setup`: whether the two setups are equal.
    #[verifier::external_body]
    pub(crate) fn same(&self, other: &StartSetup) -> (r: bool)
        ensures
            r == same_setup(self.spec_variant(), self.spec_fen(), other.spec_variant(), other.spec_fen()),
    {
        self.setup == other.setup
    }
}

/// Whether `text` is a move in SAN as `shakmaty::san::San::from_ascii`
/// reads it.
pub uninterp spec fn san_text_parses(text: Seq<char>) -> bool;

/// `shakmaty::san::San::from_ascii`: the move in SAN written in `text`, a
/// check or mate suffix ignored, if it is one. Which texts parse is
/// shakmaty's grammar, a function of the text alone, named
/// `san_text_parses`; the move itself stays opaque.
#[verifier::external_body]
pub(crate) fn parse_san(text: &str) -> (r: Option<shakmaty::san::San>)
    ensures
        r is Some == san_text_parses(text@),
{
    shakmaty::san::San::from_ascii(text.as_bytes()).ok()
}

/// Where a replay starts.
pub enum Start {
    /// The starting position of the variant.
    New(ChessVariant),
    /// The position written in a FEN, legal as it stands.
    Fen(ChessVariant, Seq<char>),
    /// The position written in a FEN, invalid castling rights, an invalid
    /// en passant square and too much material forgiven.
    LaxFen(ChessVariant, Seq<char>),
}

/// The variant played from a start.
pub open spec fn start_variant(start: Start) -> ChessVariant {
    match start {
        Start::New(v) => v,
        Start::Fen(v, _) => v,
        Start::LaxFen(v, _) => v,
    }
}

/// Whether shakmaty sets up the position of a start written in a FEN: the
/// text is a FEN (`Fen::from_ascii`) and `VariantPosition::from_setup`
/// accepts its setup in Chess960 castling mode, leniently for `LaxFen`.
pub uninterp spec fn start_accepted(start: Start) -> bool;

/// `ZobristHash::zobrist_hash` with 128 bits and legal en passant squares
/// of the position reached from `start` by the legal moves `played`.
pub uninterp spec fn board_hash(start: Start, played: Seq<Uci>) -> u128;

/// `ZobristHash::zobrist_hash` with 64 bits and legal en passant squares of
/// the position reached from `start` by the legal moves `played`.
pub uninterp spec fn board_hash64(start: Start, played: Seq<Uci>) -> u64;

/// `Position::turn` of the position reached from `start` by `played`.
pub uninterp spec fn board_turn(start: Start, played: Seq<Uci>) -> Color;

/// `Position::fullmoves` of the position reached from `start` by `played`.
pub uninterp spec fn board_fullmoves(start: Start, played: Seq<Uci>) -> u32;

/// `San::from_ascii` then `San::to_move` in the position reached from
/// `start` by `played`: the move written in SAN in `text`, in UCI form with
/// castling as the king taking its rook, if it is legal and unambiguous.
pub uninterp spec fn san_move(start: Start, played: Seq<Uci>, text: Seq<char>) -> Option<Uci>;

/// `UciMove::to_move` in the position reached from `start` by `played`:
/// the move `uci`, in UCI form with castling as the king taking its rook,
/// if it is legal.
pub uninterp spec fn uci_move(start: Start, played: Seq<Uci>, uci: Uci) -> Option<Uci>;

/// `SanPlus::from_move` in the position reached from `start` by `played`:
/// the move `uci` in SAN with its check or mate suffix, if it is legal.
pub uninterp spec fn uci_san(start: Start, played: Seq<Uci>, uci: Uci) -> Option<Seq<char>>;

/// A position of shakmaty, with where it started and the moves played
/// since, in UCI form with castling as the king taking its rook. Boards are
/// made and moved only by the functions below, so the position is always
/// the one reached from the start by those moves.
pub struct Board {
    pos: shakmaty::variant::VariantPosition,
    start: Ghost<Start>,
    played: Ghost<Seq<Uci>>,
}

impl Board {
    /// Where the board started.
    pub closed spec fn spec_start(&self) -> Start {
        self.start@
    }

    /// The moves played since the start.
    pub closed spec fn spec_played(&self) -> Seq<Uci> {
        self.played@
    }

    /// `VariantPosition::new`: the starting position of the variant.
    #[verifier::external_body]
    pub(crate) fn new(variant: ChessVariant) -> (b: Board)
        ensures
            b.spec_start() == Start::New(variant),
            b.spec_played() == Seq::<Uci>::empty(),
    {
        let pos = shakmaty::variant::VariantPosition::new(outside_variant(variant));
        Board { pos, start: Ghost(Start::New(variant)), played: Ghost(Seq::empty()) }
    }

    /// `Fen::from_ascii`, then `VariantPosition::from_setup` in Chess960
    /// castling mode: the position of the FEN, if the text is one and the
    /// position is legal.
    #[verifier::external_body]
    pub(crate) fn from_fen(variant: ChessVariant, text: &str) -> (r: Option<Board>)
        ensures
            r is Some == start_accepted(Start::Fen(variant, text@)),
            !fen_text_parses(text@) ==> r is None,
            r matches Some(b) ==> b.spec_start() == Start::Fen(variant, text@) && b.spec_played()
                == Seq::<Uci>::empty(),
    {
        let fen = shakmaty::fen::Fen::from_ascii(text.as_bytes()).ok()?;
        let mode = shakmaty::CastlingMode::Chess960;
        let pos = shakmaty::variant::VariantPosition::from_setup(outside_variant(variant), fen.into_setup(), mode).ok()?;
        Some(Board { pos, start: Ghost(Start::Fen(variant, text@)), played: Ghost(Seq::empty()) })
    }

    /// As `from_fen`, forgiving invalid castling rights, an invalid en
    /// passant square and too much material (`PositionError::ignore_*`).
    #[verifier::external_body]
    pub(crate) fn from_fen_lax(variant: ChessVariant, text: &str) -> (r: Option<Board>)
        ensures
            r is Some == start_accepted(Start::LaxFen(variant, text@)),
            !fen_text_parses(text@) ==> r is None,
            r matches Some(b) ==> b.spec_start() == Start::LaxFen(variant, text@) && b.spec_played()
                == Seq::<Uci>::empty(),
    {
        let fen = shakmaty::fen::Fen::from_ascii(text.as_bytes()).ok()?;
        let pos = shakmaty::variant::VariantPosition::from_setup(outside_variant(variant), fen.into_setup(), shakmaty::CastlingMode::Chess960)
            .or_else(shakmaty::PositionError::ignore_invalid_castling_rights)
            .or_else(shakmaty::PositionError::ignore_invalid_ep_square)
            .or_else(shakmaty::PositionError::ignore_too_much_material).ok()?;
        Some(Board { pos, start: Ghost(Start::LaxFen(variant, text@)), played: Ghost(Seq::empty()) })
    }

    /// `ZobristHash::zobrist_hash` with 128 bits and legal en passant
    /// squares: the hash of the position.
    #[verifier::external_body]
    pub(crate) fn hash(&self) -> (h: u128)
        ensures
            h == board_hash(self.spec_start(), self.spec_played()),
    {
        shakmaty::zobrist::ZobristHash::zobrist_hash::<shakmaty::zobrist::Zobrist128>(&self.pos, shakmaty::EnPassantMode::Legal).0
    }

    /// `ZobristHash::zobrist_hash` with 64 bits and legal en passant
    /// squares: the short hash by which openings are named.
    #[verifier::external_body]
    pub(crate) fn hash64(&self) -> (h: u64)
        ensures
            h == board_hash64(self.spec_start(), self.spec_played()),
    {
        shakmaty::zobrist::ZobristHash::zobrist_hash::<shakmaty::zobrist::Zobrist64>(&self.pos, shakmaty::EnPassantMode::Legal).0
    }

    /// `VariantPosition::variant`: the variant the board was set up with,
    /// which moves do not change.
    #[verifier::external_body]
    pub(crate) fn variant(&self) -> (v: ChessVariant)
        ensures
            v == start_variant(self.spec_start()),
    {
        match self.pos.variant() {
            shakmaty::variant::Variant::Chess => ChessVariant::Chess,
            shakmaty::variant::Variant::Antichess => ChessVariant::Antichess,
            shakmaty::variant::Variant::Atomic => ChessVariant::Atomic,
            shakmaty::variant::Variant::Crazyhouse => ChessVariant::Crazyhouse,
            shakmaty::variant::Variant::Horde => ChessVariant::Horde,
            shakmaty::variant::Variant::KingOfTheHill => ChessVariant::KingOfTheHill,
            shakmaty::variant::Variant::RacingKings => ChessVariant::RacingKings,
            shakmaty::variant::Variant::ThreeCheck => ChessVariant::ThreeCheck,
        }
    }

    /// `Position::fullmoves`: the number of the full move, from one.
    #[verifier::external_body]
    pub(crate) fn fullmoves(&self) -> (n: u32)
        ensures
            n == board_fullmoves(self.spec_start(), self.spec_played()),
            n >= 1,
    {
        shakmaty::Position::fullmoves(&self.pos).get()
    }

    /// `Position::turn`: the side to move.
    #[verifier::external_body]
    pub(crate) fn turn(&self) -> (c: Color)
        ensures
            c == board_turn(self.spec_start(), self.spec_played()),
    {
        match shakmaty::Position::turn(&self.pos) {
            shakmaty::Color::White => Color::White,
            shakmaty::Color::Black => Color::Black,
        }
    }

    /// `San::from_ascii`, `San::to_move`, then `Position::play_unchecked`
    /// with the legal move found: plays the move written in SAN in `text`
    /// and gives it in UCI form; else leaves the board alone.
    #[verifier::external_body]
    pub(crate) fn play_san(&mut self, text: &str) -> (r: Option<Uci>)
        ensures
            r == san_move(old(self).spec_start(), old(self).spec_played(), text@),
            !san_text_parses(text@) ==> r is None,
            r matches Some(u) ==> u.wf() && final(self).spec_start() == old(self).spec_start()
                && final(self).spec_played() == old(self).spec_played().push(u),
            r is None ==> *final(self) == *old(self),
    {
        let san = shakmaty::san::San::from_ascii(text.as_bytes()).ok()?;
        let m = san.to_move(&self.pos).ok()?;
        shakmaty::Position::play_unchecked(&mut self.pos, m);
        let u = uci_from_outside(shakmaty::uci::UciMove::from_chess960(m));
        self.played = Ghost(self.played@.push(u));
        Some(u)
    }

    /// `UciMove::to_move`, then `Position::play_unchecked` with the legal
    /// move found: plays `uci` and gives it in UCI form with castling as
    /// the king taking its rook; else leaves the board alone.
    #[verifier::external_body]
    pub(crate) fn play_uci(&mut self, uci: Uci) -> (r: Option<Uci>)
        requires
            uci.wf(),
        ensures
            r == uci_move(old(self).spec_start(), old(self).spec_played(), uci),
            r matches Some(u) ==> u.wf() && final(self).spec_start() == old(self).spec_start()
                && final(self).spec_played() == old(self).spec_played().push(u),
            r is None ==> *final(self) == *old(self),
    {
        let m = uci_to_outside(uci).to_move(&self.pos).ok()?;
        shakmaty::Position::play_unchecked(&mut self.pos, m);
        let u = uci_from_outside(shakmaty::uci::UciMove::from_chess960(m));
        self.played = Ghost(self.played@.push(u));
        Some(u)
    }

    /// `UciMove::to_move`, then `SanPlus::from_move` on a copy of the
    /// position: `uci` in SAN with its check or mate suffix where it is
    /// legal, else the null move `--`.
    #[verifier::external_body]
    pub(crate) fn move_san(&self, uci: Uci) -> (s: String)
        requires
            uci.wf(),
        ensures
            uci_move(self.spec_start(), self.spec_played(), uci) is Some ==> uci_san(
                self.spec_start(),
                self.spec_played(),
                uci,
            ) == Some(s@),
            uci_move(self.spec_start(), self.spec_played(), uci) is None ==> s@ == seq!['-', '-'],
    {
        match uci_to_outside(uci).to_move(&self.pos) {
            Ok(m) => shakmaty::san::SanPlus::from_move(self.pos.clone(), m).to_string(),
            Err(_) => shakmaty::san::SanPlus { san: shakmaty::san::San::Null, suffix: None }.to_string(),
        }
    }
}

/// The position a game starts from: the starting position of the variant,
/// or the one written in `fen`.
pub fn start_position(variant: ChessVariant, fen: Option<&str>) -> (r: Result<Board, ReplayError>)
    ensures
        fen is None ==> (r matches Ok(b) && b.spec_start() == Start::New(variant) && b.spec_played()
            == Seq::<Uci>::empty()),
        fen matches Some(t) ==> ((r == Err::<Board, ReplayError>(ReplayError::InvalidFen))
            == !fen_text_parses(t@)),
        fen matches Some(t) ==> (r is Ok == start_accepted(Start::Fen(variant, t@))),
        fen matches Some(t) ==> (r matches Ok(b) ==> b.spec_start() == Start::Fen(variant, t@)
            && b.spec_played() == Seq::<Uci>::empty()),
        r matches Err(e) ==> e == ReplayError::InvalidFen || e == ReplayError::InvalidPosition,
{
    match fen {
        None => Ok(Board::new(variant)),
        Some(text) => match Board::from_fen(variant, text) {
            Some(b) => Ok(b),
            None => match parse_fen(text) {
                Some(_) => Err(ReplayError::InvalidPosition),
                None => Err(ReplayError::InvalidFen),
            },
        },
    }
}

/// The moves of a game in SAN, all parsed, or none if one is not SAN.
pub fn parse_sans(texts: &[String]) -> (r: Option<Vec<shakmaty::san::San>>)
    ensures
        r matches Some(v) ==> v@.len() == texts@.len(),
        r is Some == (forall|i: int| 0 <= i < texts@.len() ==> san_text_parses(#[trigger] texts@[i]@)),
{
    let mut out: Vec<shakmaty::san::San> = Vec::new();
    let mut i: usize = 0;
    while i < texts.len()
        invariant
            i <= texts@.len(),
            out@.len() == i,
            forall|j: int| 0 <= j < i ==> san_text_parses(#[trigger] texts@[j]@),
        decreases texts@.len() - i,
    {
        match parse_san(texts[i].as_str()) {
            Some(s) => out.push(s),
            None => return None,
        }
        i = i + 1;
    }
    Some(out)
}

/// One ply of a replayed game: the hash of the position before it, and the
/// move played there with the side that played it.
pub type Ply = (u128, (Uci, Color));

/// Every move in a ply is one of the board.
pub open spec fn plies_wf(plies: Seq<Ply>) -> bool {
    forall|i: int| 0 <= i < plies.len() ==> (#[trigger] plies[i]).1.0.wf()
}

/// The texts of strings.
pub open spec fn spec_texts(v: Seq<String>) -> Seq<Seq<char>> {
    v.map_values(|x: String| x@)
}

/// Replaying the moves written in SAN in `sans`, at most `limit`, from the
/// position reached from `start` by `played`: the plies, each the hash of
/// the position before the move, the move and the side that played it; and
/// whether the replay stopped at a move that is not legal there.
pub open spec fn spec_san_replay(start: Start, played: Seq<Uci>, sans: Seq<Seq<char>>, limit: nat) -> (
    Seq<Ply>,
    bool,
)
    decreases sans.len(),
{
    if sans.len() == 0 || limit == 0 {
        (Seq::empty(), false)
    } else {
        match san_move(start, played, sans[0]) {
            None => (Seq::empty(), true),
            Some(u) => {
                let rest = spec_san_replay(start, played.push(u), sans.drop_first(), (limit - 1) as nat);
                (seq![(board_hash(start, played), (u, board_turn(start, played)))] + rest.0, rest.1)
            },
        }
    }
}

/// Replays at most `max_plies` moves in SAN from `board`. At the first move
/// that is not legal where it is played, the replay stops there when
/// `cut_off` is set, and fails otherwise.
pub fn replay_sans(board: Board, sans: &[String], max_plies: usize, cut_off: bool) -> (r: Result<
    Vec<Ply>,
    ReplayError,
>)
    ensures
        ({
            let (plies, stopped) = spec_san_replay(
                board.spec_start(),
                board.spec_played(),
                spec_texts(sans@),
                max_plies as nat,
            );
            &&& (stopped && !cut_off) ==> r == Err::<Vec<Ply>, ReplayError>(ReplayError::IllegalSan)
            &&& !(stopped && !cut_off) ==> (r matches Ok(v) && v@ == plies)
        }),
        r matches Ok(v) ==> {
            &&& v@.len() <= max_plies
            &&& v@.len() <= sans@.len()
            &&& (!cut_off ==> v@.len() == if sans@.len() < max_plies { sans@.len() } else { max_plies as nat })
            &&& plies_wf(v@)
        },
{
    let ghost start = board.spec_start();
    let ghost played0 = board.spec_played();
    let ghost texts = spec_texts(sans@);
    let ghost whole = spec_san_replay(start, played0, texts, max_plies as nat);
    let mut pos = board;
    let mut out: Vec<Ply> = Vec::new();
    let mut i: usize = 0;
    proof {
        assert(texts.skip(0) =~= texts);
    }
    while i < sans.len() && i < max_plies
        invariant
            i <= sans@.len(),
            i <= max_plies,
            out@.len() == i,
            plies_wf(out@),
            texts == spec_texts(sans@),
            pos.spec_start() == start,
            start == board.spec_start(),
            played0 == board.spec_played(),
            whole == spec_san_replay(start, played0, texts, max_plies as nat),
            out@ + spec_san_replay(start, pos.spec_played(), texts.skip(i as int), (max_plies - i) as nat).0
                == whole.0,
            spec_san_replay(start, pos.spec_played(), texts.skip(i as int), (max_plies - i) as nat).1
                == whole.1,
        decreases sans@.len() - i,
    {
        let ghost pi = pos.spec_played();
        let ghost rest = texts.skip(i as int);
        proof {
            assert(rest[0] == sans@[i as int]@);
            assert(rest.drop_first() =~= texts.skip(i + 1));
        }
        let hash = pos.hash();
        let turn = pos.turn();
        match pos.play_san(sans[i].as_str()) {
            Some(u) => {
                let ghost before = out@;
                out.push((hash, (u, turn)));
                proof {
                    let tail = spec_san_replay(start, pi.push(u), rest.drop_first(), (max_plies - i - 1) as nat);
                    assert(out@ + tail.0 =~= before + (seq![(hash, (u, turn))] + tail.0));
                }
            },
            None => {
                proof {
                    assert(rest.len() > 0);
                    assert(spec_san_replay(start, pi, rest, (max_plies - i) as nat) == (
                        Seq::<Ply>::empty(),
                        true,
                    ));
                    assert(out@ + Seq::<Ply>::empty() =~= out@);
                }
                if cut_off {
                    return Ok(out);
                } else {
                    return Err(ReplayError::IllegalSan);
                }
            },
        }
        i = i + 1;
    }
    proof {
        assert(out@ + Seq::<Ply>::empty() =~= out@);
    }
    Ok(out)
}

/// The text of a string that may be missing.
pub open spec fn opt_text(o: Option<String>) -> Option<Seq<char>> {
    match o {
        Some(s) => Some(s@),
        None => None,
    }
}

/// Where a game starts: the FEN read strictly, or the starting position of
/// the variant.
pub open spec fn spec_fen_start(variant: ChessVariant, fen: Option<Seq<char>>) -> Start {
    match fen {
        Some(t) => Start::Fen(variant, t),
        None => Start::New(variant),
    }
}

/// The replay of a game's moves in SAN from its start, at most `limit`
/// plies: the error when the FEN cannot be read or set up, a move is not
/// SAN, or (unless `cut_off`) a move is not legal where it is played; else
/// the plies up to the limit or the first move that is not legal.
pub open spec fn spec_game_replay(
    variant: ChessVariant,
    fen: Option<Seq<char>>,
    moves: Seq<Seq<char>>,
    limit: nat,
    cut_off: bool,
) -> Result<Seq<Ply>, ReplayError> {
    let start = spec_fen_start(variant, fen);
    if fen matches Some(t) && !fen_text_parses(t) {
        Err(ReplayError::InvalidFen)
    } else if fen is Some && !start_accepted(start) {
        Err(ReplayError::InvalidPosition)
    } else if !(forall|i: int| 0 <= i < moves.len() ==> san_text_parses(#[trigger] moves[i])) {
        Err(ReplayError::InvalidSan)
    } else {
        let (plies, stopped) = spec_san_replay(start, Seq::empty(), moves, limit);
        if stopped && !cut_off {
            Err(ReplayError::IllegalSan)
        } else {
            Ok(plies)
        }
    }
}

/// Replays a game's moves in SAN from its start: the starting position of
/// the variant, or the one written in `fen`.
pub fn replay_game(variant: ChessVariant, fen: Option<&str>, moves: &[String], max_plies: usize, cut_off: bool) -> (r: Result<
    Vec<Ply>,
    ReplayError,
>)
    ensures
        match spec_game_replay(
            variant,
            match fen { Some(t) => Some(t@), None => None },
            spec_texts(moves@),
            max_plies as nat,
            cut_off,
        ) {
            Ok(plies) => r matches Ok(v) && v@ == plies,
            Err(e) => r == Err::<Vec<Ply>, ReplayError>(e),
        },
        r matches Ok(v) ==> v@.len() <= max_plies && v@.len() <= moves@.len() && plies_wf(v@),
{
    let pos = match start_position(variant, fen) {
        Ok(pos) => pos,
        Err(e) => {
            return Err(e);
        },
    };
    match parse_sans(moves) {
        Some(_) => {},
        None => {
            proof {
                let texts = spec_texts(moves@);
                assert forall|i: int| 0 <= i < moves@.len() implies san_text_parses(#[trigger] moves@[i]@) == san_text_parses(texts[i]) by {}
            }
            return Err(ReplayError::InvalidSan);
        },
    }
    proof {
        let texts = spec_texts(moves@);
        assert forall|i: int| 0 <= i < texts.len() implies san_text_parses(#[trigger] texts[i]) by {
            assert(texts[i] == moves@[i]@);
        }
    }
    replay_sans(pos, moves, max_plies, cut_off)
}

/// Replaying the moves `moves` in UCI form from the position reached from
/// `start` by `played`: the plies, each the hash of the position before
/// the move, the move and the side that played it, and the moves played
/// since the start after them; none if a move is not legal where it is
/// played.
pub open spec fn spec_uci_replay(start: Start, played: Seq<Uci>, moves: Seq<Uci>) -> Option<
    (Seq<Ply>, Seq<Uci>),
>
    decreases moves.len(),
{
    if moves.len() == 0 {
        Some((Seq::empty(), played))
    } else {
        match uci_move(start, played, moves[0]) {
            None => None,
            Some(u) => match spec_uci_replay(start, played.push(u), moves.drop_first()) {
                None => None,
                Some(rest) => Some(
                    (seq![(board_hash(start, played), (u, board_turn(start, played)))] + rest.0, rest.1),
                ),
            },
        }
    }
}

/// Replays all moves in UCI form from the starting position of standard
/// chess, failing at the first that is not legal where it is played. Gives
/// the plies and the hash of the position before the last move.
pub fn replay_ucis(moves: &[Uci]) -> (r: Result<(Vec<Ply>, Option<u128>), ReplayError>)
    ensures
        match spec_uci_replay(Start::New(ChessVariant::Chess), Seq::empty(), moves@) {
            None => r == Err::<(Vec<Ply>, Option<u128>), ReplayError>(ReplayError::IllegalUci),
            Some((plies, _)) => r matches Ok((v, last)) && v@ == plies && last == if moves@.len() == 0 {
                None
            } else {
                Some(plies.last().0)
            },
        },
        r matches Ok((v, last)) ==> {
            &&& v@.len() == moves@.len()
            &&& plies_wf(v@)
        },
{
    let ghost start = Start::New(ChessVariant::Chess);
    let ghost whole = spec_uci_replay(start, Seq::empty(), moves@);
    let mut board = Board::new(ChessVariant::Chess);
    let mut out: Vec<Ply> = Vec::new();
    let mut last: Option<u128> = None;
    let mut i: usize = 0;
    proof {
        assert(moves@.skip(0) =~= moves@);
    }
    while i < moves.len()
        invariant
            i <= moves@.len(),
            out@.len() == i,
            plies_wf(out@),
            last == if i == 0 { None } else { Some(out@.last().0) },
            board.spec_start() == start,
            start == Start::New(ChessVariant::Chess),
            whole == spec_uci_replay(start, Seq::empty(), moves@),
            match spec_uci_replay(start, board.spec_played(), moves@.skip(i as int)) {
                None => whole is None,
                Some((rest, p)) => whole == Some((out@ + rest, p)),
            },
        decreases moves@.len() - i,
    {
        let ghost pi = board.spec_played();
        let ghost rest = moves@.skip(i as int);
        proof {
            assert(rest[0] == moves@[i as int]);
            assert(rest.drop_first() =~= moves@.skip(i + 1));
        }
        let hash = board.hash();
        last = Some(hash);
        let turn = board.turn();
        moves[i].check_wf();
        match board.play_uci(moves[i]) {
            Some(u) => {
                let ghost before = out@;
                out.push((hash, (u, turn)));
                proof {
                    match spec_uci_replay(start, pi.push(u), rest.drop_first()) {
                        None => {},
                        Some((t, p)) => {
                            assert(out@ + t =~= before + (seq![(hash, (u, turn))] + t));
                        },
                    }
                }
            },
            None => {
                proof {
                    assert(spec_uci_replay(start, pi, rest) is None);
                }
                return Err(ReplayError::IllegalUci);
            },
        }
        i = i + 1;
    }
    proof {
        assert(moves@.skip(i as int) =~= Seq::<Uci>::empty());
        assert(out@ + Seq::<Ply>::empty() =~= out@);
    }
    Ok((out, last))
}

/// The moves of a game in SAN replaying `moves`: each the SAN of the move
/// with its check or mate suffix in the position before it.
pub open spec fn spec_uci_sans(start: Start, played: Seq<Uci>, moves: Seq<Uci>) -> Option<Seq<Seq<char>>>
    decreases moves.len(),
{
    if moves.len() == 0 {
        Some(Seq::empty())
    } else {
        match (uci_move(start, played, moves[0]), uci_san(start, played, moves[0])) {
            (Some(u), Some(s)) => match spec_uci_sans(start, played.push(u), moves.drop_first()) {
                None => None,
                Some(rest) => Some(seq![s] + rest),
            },
            _ => None,
        }
    }
}

/// The moves of a game of standard chess in SAN, each with its check or
/// mate suffix, replayed from the starting position; none if one of them
/// is not legal where it is played.
pub fn sans_of_ucis(moves: &[Uci]) -> (r: Result<Vec<String>, ReplayError>)
    ensures
        match spec_uci_sans(Start::New(ChessVariant::Chess), Seq::empty(), moves@) {
            None => r == Err::<Vec<String>, ReplayError>(ReplayError::IllegalUci),
            Some(sans) => r matches Ok(v) && spec_texts(v@) == sans,
        },
        r matches Ok(v) ==> v@.len() == moves@.len(),
        moves@.len() == 0 ==> (r matches Ok(v) && v@.len() == 0),
        r matches Err(e) ==> e == ReplayError::IllegalUci,
{
    let ghost start = Start::New(ChessVariant::Chess);
    let ghost whole = spec_uci_sans(start, Seq::empty(), moves@);
    let mut board = Board::new(ChessVariant::Chess);
    let mut out: Vec<String> = Vec::new();
    let mut i: usize = 0;
    proof {
        assert(moves@.skip(0) =~= moves@);
    }
    while i < moves.len()
        invariant
            i <= moves@.len(),
            out@.len() == i,
            board.spec_start() == start,
            start == Start::New(ChessVariant::Chess),
            whole == spec_uci_sans(start, Seq::empty(), moves@),
            match spec_uci_sans(start, board.spec_played(), moves@.skip(i as int)) {
                None => whole is None,
                Some(rest) => whole == Some(spec_texts(out@) + rest),
            },
        decreases moves@.len() - i,
    {
        let ghost pi = board.spec_played();
        let ghost rest = moves@.skip(i as int);
        proof {
            assert(rest[0] == moves@[i as int]);
            assert(rest.drop_first() =~= moves@.skip(i + 1));
        }
        moves[i].check_wf();
        let s = board.move_san(moves[i]);
        match board.play_uci(moves[i]) {
            Some(u) => {
                let ghost before = spec_texts(out@);
                out.push(s);
                proof {
                    assert(spec_texts(out@) =~= before.push(s@));
                    match spec_uci_sans(start, pi.push(u), rest.drop_first()) {
                        None => {},
                        Some(t) => {
                            assert(spec_texts(out@) + t =~= before + (seq![s@] + t));
                        },
                    }
                }
            },
            None => {
                proof {
                    assert(spec_uci_sans(start, pi, rest) is None);
                }
                return Err(ReplayError::IllegalUci);
            },
        }
        i = i + 1;
    }
    proof {
        assert(moves@.skip(i as int) =~= Seq::<Uci>::empty());
        assert(spec_texts(out@) + Seq::<Seq<char>>::empty() =~= spec_texts(out@));
    }
    Ok(out)
}

/// The plies before a position at full move `full` with `black` to move:
/// two per full move before, and one if black moves, saturating.
pub open spec fn spec_ply(full: u32, black: bool) -> int {
    (if full - 1 > u32::MAX / 2 {
        u32::MAX - 1
    } else {
        (full - 1) * 2
    }) + (if black {
        1int
    } else {
        0int
    })
}

/// The number of plies played before the board's position, from its full
/// move number and the side to move, saturating.
pub fn ply(board: &Board) -> (p: u32)
    ensures
        p == spec_ply(
            board_fullmoves(board.spec_start(), board.spec_played()),
            board_turn(board.spec_start(), board.spec_played()) == Color::Black,
        ),
{
    let full = board.fullmoves();
    let before: u32 = if full - 1 > u32::MAX / 2 { u32::MAX - 1 } else { (full - 1) * 2 };
    match board.turn() {
        Color::White => before,
        Color::Black => before + 1,
    }
}

/// The key prefix of the board's position under `builder`: its hash mixed
/// with the builder's base and its variant.
pub fn position_prefix(builder: &crate::key::KeyBuilder, board: &Board) -> (k: crate::key::KeyPrefix)
    ensures
        k.spec_prefix() == crate::buf::le_bytes(
            (builder.spec_base() ^ board_hash(board.spec_start(), board.spec_played())
                ^ crate::key::spec_variant_mix(start_variant(board.spec_start()))) as nat,
            16,
        ),
{
    let variant = board.variant();
    let hash = board.hash();
    builder.with_zobrist(variant, crate::key::ZobristKey(hash))
}

} // verus!
