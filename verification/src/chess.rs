//! The chess vocabulary that the binary formats speak of: colors, game
//! outcomes, piece roles, squares, moves in UCI form and variants.
use vstd::prelude::*;

verus! {

#[derive(Clone, Copy, Debug, PartialEq, Eq, Structural)]
pub enum Color {
    White,
    Black,
}

impl Color {
    pub open spec fn spec_other(self) -> Color {
        match self {
            Color::White => Color::Black,
            Color::Black => Color::White,
        }
    }

    /// The opposite color.
    #[verifier::when_used_as_spec(spec_other)]
    pub fn other(self) -> (c: Color)
        ensures
            c != self,
            c == self.spec_other(),
    {
        match self {
            Color::White => Color::Black,
            Color::Black => Color::White,
        }
    }

    /// `white` for white, `black` for black.
    pub fn fold_wb(self, white: u64, black: u64) -> (r: u64)
        ensures
            r == (if self == Color::White { white } else { black }),
    {
        match self {
            Color::White => white,
            Color::Black => black,
        }
    }
}

#[derive(Clone, Copy, Debug, PartialEq, Eq, Structural)]
pub enum Outcome {
    Decisive { winner: Color },
    Draw,
}

impl Outcome {
    pub open spec fn spec_winner(self) -> Option<Color> {
        match self {
            Outcome::Decisive { winner } => Some(winner),
            Outcome::Draw => None,
        }
    }

    /// The winner, if the game was decisive.
    #[verifier::when_used_as_spec(spec_winner)]
    pub fn winner(self) -> (w: Option<Color>)
        ensures
            w == self.spec_winner(),
    {
        match self {
            Outcome::Decisive { winner } => Some(winner),
            Outcome::Draw => None,
        }
    }

    pub open spec fn spec_from_winner(winner: Option<Color>) -> Outcome {
        match winner {
            Some(winner) => Outcome::Decisive { winner },
            None => Outcome::Draw,
        }
    }

    /// The outcome with the given winner, a draw for none.
    #[verifier::when_used_as_spec(spec_from_winner)]
    pub fn from_winner(winner: Option<Color>) -> (o: Outcome)
        ensures
            o.spec_winner() == winner,
            o == Outcome::spec_from_winner(winner),
    {
        match winner {
            Some(winner) => Outcome::Decisive { winner },
            None => Outcome::Draw,
        }
    }
}

#[derive(Clone, Copy, Debug, PartialEq, Eq, Structural)]
pub enum PieceRole {
    Pawn,
    Knight,
    Bishop,
    Rook,
    Queen,
    King,
}

/// The number of a role: one for a pawn up to six for a king.
pub open spec fn role_number(role: PieceRole) -> u16 {
    match role {
        PieceRole::Pawn => 1,
        PieceRole::Knight => 2,
        PieceRole::Bishop => 3,
        PieceRole::Rook => 4,
        PieceRole::Queen => 5,
        PieceRole::King => 6,
    }
}

impl PieceRole {
    /// The number of the role, `1` to `6`.
    pub fn to_u16(self) -> (n: u16)
        ensures
            n == role_number(self),
            1 <= n <= 6,
    {
        match self {
            PieceRole::Pawn => 1,
            PieceRole::Knight => 2,
            PieceRole::Bishop => 3,
            PieceRole::Rook => 4,
            PieceRole::Queen => 5,
            PieceRole::King => 6,
        }
    }

    /// The role with number `n`, if `1 <= n <= 6`.
    pub fn try_from_u16(n: u16) -> (r: Option<PieceRole>)
        ensures
            match r {
                Some(role) => role_number(role) == n,
                None => n < 1 || n > 6,
            },
    {
        match n {
            1 => Some(PieceRole::Pawn),
            2 => Some(PieceRole::Knight),
            3 => Some(PieceRole::Bishop),
            4 => Some(PieceRole::Rook),
            5 => Some(PieceRole::Queen),
            6 => Some(PieceRole::King),
            _ => None,
        }
    }
}

/// A square of the board, numbered `0` (a1) to `63` (h8).
#[derive(Clone, Copy, Debug, PartialEq, Eq, Structural)]
pub struct Square {
    index: u8,
}

impl Square {
    /// Squares are made by `new` only, so each is one of the board.
    #[verifier::type_invariant]
    spec fn on_board(self) -> bool {
        self.index < 64
    }

    pub closed spec fn spec_index(self) -> u8 {
        self.index
    }

    /// The square with number `index`, as a value of specifications.
    pub closed spec fn spec_new(index: u8) -> Square {
        Square { index }
    }

    pub proof fn lemma_spec_new(index: u8)
        ensures
            Square::spec_new(index).spec_index() == index,
    {
    }

    pub proof fn lemma_eq_by_index(a: Square, b: Square)
        requires
            a.spec_index() == b.spec_index(),
        ensures
            a == b,
    {
    }

    /// A square made by `new` has a number below `64`.
    pub open spec fn wf(self) -> bool {
        self.spec_index() < 64
    }

    /// The square with number `index`.
    pub fn new(index: u32) -> (sq: Square)
        requires
            index < 64,
        ensures
            sq.spec_index() == index,
            sq == Square::spec_new(index as u8),
            sq.wf(),
    {
        Square { index: index as u8 }
    }

    /// The number of the square.
    pub fn index(self) -> (i: u8)
        ensures
            i == self.spec_index(),
            self.wf(),
    {
        proof {
            use_type_invariant(&self);
        }
        self.index
    }
}

/// A move in UCI notation.
#[derive(Clone, Copy, Debug, PartialEq, Eq, Structural)]
pub enum Uci {
    Normal { from: Square, to: Square, promotion: Option<PieceRole> },
    Put { role: PieceRole, to: Square },
    Null,
}

impl Uci {
    /// Every square of the move is one of the board, as every square that
    /// can be made is: a move at hand is well formed.
    pub fn check_wf(&self)
        ensures
            self.wf(),
    {
        match self {
            Uci::Normal { from, to, .. } => {
                let _ = from.index();
                let _ = to.index();
            },
            Uci::Put { to, .. } => {
                let _ = to.index();
            },
            Uci::Null => {},
        }
    }

    /// Every square of the move is one of the board.
    pub open spec fn wf(self) -> bool {
        match self {
            Uci::Normal { from, to, .. } => from.wf() && to.wf(),
            Uci::Put { to, .. } => to.wf(),
            Uci::Null => true,
        }
    }
}

#[derive(Clone, Copy, Debug, PartialEq, Eq, Structural)]
pub enum ChessVariant {
    Chess,
    Antichess,
    Atomic,
    Crazyhouse,
    Horde,
    KingOfTheHill,
    RacingKings,
    ThreeCheck,
}

/// The names by which the game server names a variant.
#[derive(Clone, Copy, Debug, PartialEq, Eq, Structural)]
pub enum LilaVariant {
    Antichess,
    Atomic,
    Chess960,
    Crazyhouse,
    FromPosition,
    Horde,
    KingOfTheHill,
    RacingKings,
    Standard,
    ThreeCheck,
}

pub open spec fn spec_lila_variant(v: LilaVariant) -> ChessVariant {
    match v {
        LilaVariant::Standard | LilaVariant::Chess960 | LilaVariant::FromPosition => ChessVariant::Chess,
        LilaVariant::Antichess => ChessVariant::Antichess,
        LilaVariant::Atomic => ChessVariant::Atomic,
        LilaVariant::Crazyhouse => ChessVariant::Crazyhouse,
        LilaVariant::Horde => ChessVariant::Horde,
        LilaVariant::KingOfTheHill => ChessVariant::KingOfTheHill,
        LilaVariant::RacingKings => ChessVariant::RacingKings,
        LilaVariant::ThreeCheck => ChessVariant::ThreeCheck,
    }
}

impl LilaVariant {
    /// The variant that is played: standard chess, Chess960 and games from a
    /// position are all chess.
    pub fn to_variant(self) -> (v: ChessVariant)
        ensures
            v == spec_lila_variant(self),
    {
        match self {
            LilaVariant::Standard | LilaVariant::Chess960 | LilaVariant::FromPosition => {
                ChessVariant::Chess
            },
            LilaVariant::Antichess => ChessVariant::Antichess,
            LilaVariant::Atomic => ChessVariant::Atomic,
            LilaVariant::Crazyhouse => ChessVariant::Crazyhouse,
            LilaVariant::Horde => ChessVariant::Horde,
            LilaVariant::KingOfTheHill => ChessVariant::KingOfTheHill,
            LilaVariant::RacingKings => ChessVariant::RacingKings,
            LilaVariant::ThreeCheck => ChessVariant::ThreeCheck,
        }
    }
}

impl From<LilaVariant> for ChessVariant {
    fn from(v: LilaVariant) -> (r: ChessVariant) {
        v.to_variant()
    }
}

impl vstd::std_specs::convert::FromSpecImpl<LilaVariant> for ChessVariant {
    open spec fn obeys_from_spec() -> bool {
        true
    }

    open spec fn from_spec(v: LilaVariant) -> ChessVariant {
        spec_lila_variant(v)
    }
}

} // verus!
