//! A move in UCI notation packed into sixteen bits: six bits for the origin
//! square, six for the destination and four for the role of a promotion or
//! drop.
use vstd::prelude::*;

use crate::buf::{le_bytes, le_value, pow256, lemma_pow256_8, put_uint_le, Reader};
use crate::chess::{role_number, PieceRole, Square, Uci};

verus! {

/// A packed move.
#[derive(Clone, Copy, Debug, PartialEq, Eq, Structural)]
pub struct RawUciMove(pub u16);

/// A packed move (the older name).
pub type RawUci = RawUciMove;

/// The packed form of a move: a drop is stored with equal origin and
/// destination, the null move as all zeros.
pub open spec fn spec_pack(uci: Uci) -> u16 {
    match uci {
        Uci::Normal { from, to, promotion } => (from.spec_index() as int + 64
            * to.spec_index() as int + 4096 * (match promotion {
            Some(r) => role_number(r) as int,
            None => 0,
        })) as u16,
        Uci::Put { role, to } => (to.spec_index() as int + 64 * to.spec_index() as int + 4096
            * role_number(role) as int) as u16,
        Uci::Null => 0,
    }
}

pub open spec fn spec_role_of(n: int) -> Option<PieceRole> {
    if n == 1 {
        Some(PieceRole::Pawn)
    } else if n == 2 {
        Some(PieceRole::Knight)
    } else if n == 3 {
        Some(PieceRole::Bishop)
    } else if n == 4 {
        Some(PieceRole::Rook)
    } else if n == 5 {
        Some(PieceRole::Queen)
    } else if n == 6 {
        Some(PieceRole::King)
    } else {
        None
    }
}

/// The move that a packed value stands for.
pub open spec fn spec_unpack(raw: u16) -> Uci {
    let from = (raw % 64) as u8;
    let to = ((raw / 64) % 64) as u8;
    let role = spec_role_of((raw / 4096) as int);
    if from == to {
        match role {
            Some(role) => Uci::Put { role, to: Square::spec_new(to) },
            None => Uci::Null,
        }
    } else {
        Uci::Normal { from: Square::spec_new(from), to: Square::spec_new(to), promotion: role }
    }
}

impl RawUciMove {
    /// Reads a packed move (two bytes, little endian).
    pub fn read(reader: &mut Reader) -> (r: Option<RawUciMove>)
        ensures
            old(reader)@.len() < 2 ==> r is None && final(reader)@ == old(reader)@,
            old(reader)@.len() >= 2 ==> r == Some(RawUciMove(le_value(old(reader)@.take(2)) as u16))
                && final(reader)@ == old(reader)@.skip(2),
    {
        proof {
            lemma_pow256_8();
        }
        match reader.read_uint_le(2) {
            Some(v) => Some(RawUciMove(v as u16)),
            None => None,
        }
    }

    /// Appends the packed move (two bytes, little endian).
    pub fn write(&self, buf: &mut Vec<u8>)
        ensures
            final(buf)@ == old(buf)@ + le_bytes(self.0 as nat, 2),
    {
        put_uint_le(buf, self.0 as u64, 2);
    }

    /// Packs a move.
    pub fn from_uci(uci: Uci) -> (r: RawUciMove)
        ensures
            r.0 == spec_pack(uci),
    {
        match uci {
            Uci::Normal { from, to, promotion } => {
                let role: u16 = match promotion {
                    Some(r) => r.to_u16(),
                    None => 0,
                };
                RawUciMove(
                    (from.index() as u16 % 256) + 64 * (to.index() as u16 % 256) + 4096 * role,
                )
            },
            Uci::Put { role, to } => {
                let t = to.index() as u16 % 256;
                RawUciMove(t + 64 * t + 4096 * role.to_u16())
            },
            Uci::Null => RawUciMove(0),
        }
    }

    /// Unpacks a move.
    pub fn to_uci(self) -> (uci: Uci)
        ensures
            uci == spec_unpack(self.0),
            uci.wf(),
    {
        let from = (self.0 % 64) as u32;
        let to = ((self.0 / 64) % 64) as u32;
        let role = PieceRole::try_from_u16(self.0 / 4096);
        proof {
            reveal_role_of(self.0 / 4096, role);
        }
        if from == to {
            match role {
                Some(role) => Uci::Put { role, to: Square::new(to) },
                None => Uci::Null,
            }
        } else {
            Uci::Normal { from: Square::new(from), to: Square::new(to), promotion: role }
        }
    }
}

proof fn reveal_role_of(n: u16, role: Option<PieceRole>)
    requires
        match role {
            Some(r) => role_number(r) == n,
            None => n < 1 || n > 6,
        },
    ensures
        role == spec_role_of(n as int),
{
}

impl From<Uci> for RawUciMove {
    fn from(uci: Uci) -> (r: RawUciMove) {
        RawUciMove::from_uci(uci)
    }
}

impl vstd::std_specs::convert::FromSpecImpl<Uci> for RawUciMove {
    open spec fn obeys_from_spec() -> bool {
        true
    }

    open spec fn from_spec(uci: Uci) -> RawUciMove {
        RawUciMove(spec_pack(uci))
    }
}

impl From<RawUciMove> for Uci {
    fn from(raw: RawUciMove) -> (r: Uci) {
        raw.to_uci()
    }
}

impl vstd::std_specs::convert::FromSpecImpl<RawUciMove> for Uci {
    open spec fn obeys_from_spec() -> bool {
        true
    }

    open spec fn from_spec(raw: RawUciMove) -> Uci {
        spec_unpack(raw.0)
    }
}

/// Unpacking a packed move gives the move back, for every move whose squares
/// are on the board, except a normal move from a square to itself (which
/// packs like a drop or the null move).
pub proof fn lemma_pack_roundtrip(uci: Uci)
    requires
        uci.wf(),
        !(uci matches Uci::Normal { from, to, .. } && from == to),
    ensures
        spec_unpack(spec_pack(uci)) == uci,
{
    match uci {
        Uci::Normal { from, to, promotion } => {
            let f = from.spec_index() as int;
            let t = to.spec_index() as int;
            let r: int = match promotion {
                Some(p) => role_number(p) as int,
                None => 0,
            };
            let raw = f + 64 * t + 4096 * r;
            assert(0 <= raw < 65536);
            assert(raw % 64 == f && (raw / 64) % 64 == t && raw / 4096 == r) by (nonlinear_arith)
                requires
                    raw == f + 64 * t + 4096 * r,
                    0 <= f < 64,
                    0 <= t < 64,
                    0 <= r <= 6,
            ;
            Square::lemma_spec_new(f as u8);
            Square::lemma_spec_new(t as u8);
            if f == t {
                Square::lemma_eq_by_index(from, to);
            }
            Square::lemma_eq_by_index(Square::spec_new(f as u8), from);
            Square::lemma_eq_by_index(Square::spec_new(t as u8), to);
        },
        Uci::Put { role, to } => {
            let t = to.spec_index() as int;
            let r = role_number(role) as int;
            let raw = t + 64 * t + 4096 * r;
            assert(raw % 64 == t && (raw / 64) % 64 == t && raw / 4096 == r) by (nonlinear_arith)
                requires
                    raw == t + 64 * t + 4096 * r,
                    0 <= t < 64,
                    1 <= r <= 6,
            ;
            Square::lemma_spec_new(t as u8);
            Square::lemma_eq_by_index(Square::spec_new(t as u8), to);
        },
        Uci::Null => {},
    }
}

} // verus!
