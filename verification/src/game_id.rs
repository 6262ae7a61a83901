//! Identifiers of games: eight base-62 digits (`0-9a-zA-Z`), least
//! significant first, stored in six bytes.
use vstd::prelude::*;
use vstd::string::StringSliceAdditionalSpecFns;

use crate::buf::{le_bytes, le_value, lemma_pow256_8, pow256, put_uint_le, Reader};
use crate::text::{ascii_chars, ascii_string};

verus! {

/// `62^8`, the number of game identifiers.
pub const GAME_ID_LIMIT: u64 = 218_340_105_584_896;

/// The value of a base-62 digit.
pub open spec fn spec_digit_value(c: u8) -> Option<nat> {
    if 48 <= c <= 57 {
        Some((c - 48) as nat)
    } else if 97 <= c <= 122 {
        Some((c - 97 + 10) as nat)
    } else if 65 <= c <= 90 {
        Some((c - 65 + 36) as nat)
    } else {
        None
    }
}

/// The base-62 digit of a value below `62`.
pub open spec fn spec_digit_char(d: nat) -> u8 {
    if d >= 36 {
        (d - 36 + 65) as u8
    } else if d >= 10 {
        (d - 10 + 97) as u8
    } else {
        (d + 48) as u8
    }
}

/// The value of base-62 digits, least significant first.
pub open spec fn spec_base62_value(s: Seq<u8>) -> Option<nat>
    decreases s.len(),
{
    if s.len() == 0 {
        Some(0)
    } else {
        match (spec_digit_value(s[0]), spec_base62_value(s.drop_first())) {
            (Some(d), Some(r)) => Some(d + 62 * r),
            _ => None,
        }
    }
}

/// The `k` least significant base-62 digits of `n`, least significant first.
pub open spec fn spec_base62_digits(n: nat, k: nat) -> Seq<u8>
    decreases k,
{
    if k == 0 {
        Seq::empty()
    } else {
        seq![spec_digit_char(n % 62)] + spec_base62_digits(n / 62, (k - 1) as nat)
    }
}

/// The identifier written as `s`: eight base-62 digits.
pub open spec fn spec_parse_game_id(s: Seq<u8>) -> Option<u64> {
    if s.len() == 8 {
        match spec_base62_value(s) {
            Some(v) => Some(v as u64),
            None => None,
        }
    } else {
        None
    }
}

pub open spec fn pow62(k: nat) -> nat
    decreases k,
{
    if k == 0 {
        1
    } else {
        62 * pow62((k - 1) as nat)
    }
}

/// The identifier in the first six bytes of `b`, if there are six and
/// they stand for a game identifier.
pub open spec fn spec_read_game_id(b: Seq<u8>) -> Option<u64> {
    if b.len() >= 6 && le_value(b.take(6)) < GAME_ID_LIMIT {
        Some(le_value(b.take(6)) as u64)
    } else {
        None
    }
}

/// An identifier is not a game identifier.
#[derive(Debug)]
pub struct InvalidGameId;

#[derive(Clone, Copy, Debug, PartialEq, Eq, Structural)]
pub struct GameId(u64);

impl GameId {
    /// The number of the identifier.
    pub closed spec fn value(self) -> u64 {
        self.0
    }

    /// The identifier numbered `n`, as a value of specifications.
    pub closed spec fn spec_from(n: u64) -> GameId {
        GameId(n)
    }

    pub proof fn lemma_value(n: u64)
        ensures
            GameId::spec_from(n).value() == n,
    {
    }

    pub proof fn lemma_from_value(id: GameId)
        ensures
            GameId::spec_from(id.value()) == id,
    {
    }

    pub proof fn lemma_eq(a: GameId, b: GameId)
        requires
            a.value() == b.value(),
        ensures
            a == b,
    {
    }

    /// Whether this is a game identifier: its number is below `62^8`.
    pub open spec fn wf(self) -> bool {
        self.value() < GAME_ID_LIMIT
    }

    /// The number of the identifier.
    pub fn to_u64(self) -> (n: u64)
        ensures
            n == self.value(),
    {
        self.0
    }

    /// The identifier numbered `n`, if `n` is below `62^8`.
    pub fn try_from_u64(n: u64) -> (r: Result<GameId, InvalidGameId>)
        ensures
            n < GAME_ID_LIMIT ==> (r matches Ok(id) && id.value() == n),
            n >= GAME_ID_LIMIT ==> r is Err,
    {
        if n < GAME_ID_LIMIT {
            Ok(GameId(n))
        } else {
            Err(InvalidGameId)
        }
    }

    /// The six bytes of the identifier, least significant first.
    pub fn to_bytes(&self) -> (b: [u8; 6])
        ensures
            b@ == le_bytes(self.value() as nat, 6),
    {
        let mut v: Vec<u8> = Vec::new();
        self.write(&mut v);
        proof {
            crate::buf::lemma_le_bytes_len(self.0 as nat, 6);
        }
        [v[0], v[1], v[2], v[3], v[4], v[5]]
    }

    /// Appends the six bytes of the identifier, least significant first.
    pub fn write(&self, buf: &mut Vec<u8>)
        ensures
            final(buf)@ == old(buf)@ + le_bytes(self.value() as nat, 6),
    {
        put_uint_le(buf, self.0, 6);
    }

    /// Reads six bytes as an identifier. Nothing is read when fewer bytes
    /// remain or when they do not stand for a game identifier.
    pub fn read(reader: &mut Reader) -> (r: Option<GameId>)
        ensures
            spec_read_game_id(old(reader)@) matches Some(n) ==> (r matches Some(id) && id.value()
                == n && id.wf() && final(reader)@ == old(reader)@.skip(6)),
            spec_read_game_id(old(reader)@) is None ==> r is None,
    {
        proof {
            lemma_pow256_8();
        }
        if reader.remaining() < 6 {
            return None;
        }
        match reader.read_uint_le(6) {
            Some(n) => if n < GAME_ID_LIMIT {
                Some(GameId(n))
            } else {
                None
            },
            None => None,
        }
    }

    /// The identifier written as eight base-62 digits, least significant
    /// first.
    pub fn from_bytes(s: &[u8]) -> (r: Result<GameId, InvalidGameId>)
        ensures
            match spec_parse_game_id(s@) {
                Some(n) => (r matches Ok(id) && id.value() == n && id.wf()),
                None => r is Err,
            },
    {
        if s.len() != 8 {
            return Err(InvalidGameId);
        }
        let mut n: u64 = 0;
        let mut i: usize = 8;
        proof {
            reveal_with_fuel(pow62, 9);
            assert(s@.subrange(8, 8) =~= Seq::<u8>::empty());
        }
        while i > 0
            invariant
                s@.len() == 8,
                i <= 8,
                spec_base62_value(s@.subrange(i as int, 8)) == Some(n as nat),
                n < pow62((8 - i) as nat),
                pow62(8) == GAME_ID_LIMIT,
            decreases i,
        {
            let c = s[i - 1];
            let d: u64 = if 48 <= c && c <= 57 {
                (c - 48) as u64
            } else if 97 <= c && c <= 122 {
                (c - 97 + 10) as u64
            } else if 65 <= c && c <= 90 {
                (c - 65 + 36) as u64
            } else {
                proof {
                    let t = s@.subrange(i - 1, 8);
                    assert(t[0] == c);
                    lemma_base62_none_prefix(s@, (i - 1) as nat);
                    lemma_base62_none_extend(s@, 0, (i - 1) as nat);
                    assert(s@.subrange(0, 8) =~= s@);
                }
                return Err(InvalidGameId);
            };
            proof {
                let t = s@.subrange(i - 1, 8);
                assert(t.drop_first() =~= s@.subrange(i as int, 8));
                assert(t[0] == c);
                let p = pow62((8 - i) as nat);
                assert(d + 62 * n < 62 * p) by (nonlinear_arith)
                    requires
                        d < 62,
                        n < p,
                ;
                lemma_pow62_mono((9 - i) as nat, 8);
            }
            n = d + 62 * n;
            i = i - 1;
        }
        assert(s@.subrange(0, 8) =~= s@);
        Ok(GameId(n))
    }

    /// The eight base-62 digits of the identifier, least significant first.
    pub fn to_digits(&self) -> (b: Vec<u8>)
        ensures
            b@ == spec_base62_digits(self.value() as nat, 8),
            forall|i: int| 0 <= i < b@.len() ==> b@[i] < 128,
    {
        let mut out: Vec<u8> = Vec::new();
        let mut n = self.0;
        let mut k: usize = 0;
        while k < 8
            invariant
                k <= 8,
                out@ + spec_base62_digits(n as nat, (8 - k) as nat) == spec_base62_digits(
                    self.0 as nat,
                    8,
                ),
                forall|i: int| 0 <= i < out@.len() ==> out@[i] < 128,
            decreases 8 - k,
        {
            let rem = n % 62;
            let c: u8 = if rem >= 36 {
                (rem - 36) as u8 + 65
            } else if rem >= 10 {
                (rem - 10) as u8 + 97
            } else {
                rem as u8 + 48
            };
            let ghost before = out@;
            out.push(c);
            proof {
                assert(out@ + spec_base62_digits(n as nat / 62, (8 - k - 1) as nat) =~= before
                    + spec_base62_digits(n as nat, (8 - k) as nat));
            }
            n = n / 62;
            k = k + 1;
        }
        assert(out@ + spec_base62_digits(n as nat, 0) =~= out@);
        out
    }

    /// The identifier as a string of eight base-62 digits.
    pub fn to_string(&self) -> (s: String)
        ensures
            s@ == ascii_chars(spec_base62_digits(self.value() as nat, 8)),
    {
        let digits = self.to_digits();
        ascii_string(digits.as_slice())
    }
}

proof fn lemma_pow62_mono(a: nat, b: nat)
    requires
        a <= b,
    ensures
        pow62(a) <= pow62(b),
        pow62(a) >= 1,
    decreases b,
{
    if a < b {
        lemma_pow62_mono(a, (b - 1) as nat);
    } else if a > 0 {
        lemma_pow62_mono((a - 1) as nat, (a - 1) as nat);
    }
}

/// A sequence with an invalid digit at `i` has no value from any start up
/// to `i`.
proof fn lemma_base62_none_prefix(s: Seq<u8>, i: nat)
    requires
        i < s.len(),
        spec_digit_value(s[i as int]) is None,
    ensures
        spec_base62_value(s.subrange(i as int, s.len() as int)) is None,
{
}

/// A suffix without a value makes every longer suffix valueless.
proof fn lemma_base62_none_extend(s: Seq<u8>, k: nat, j: nat)
    requires
        k <= j <= s.len(),
        spec_base62_value(s.subrange(j as int, s.len() as int)) is None,
    ensures
        spec_base62_value(s.subrange(k as int, s.len() as int)) is None,
    decreases j - k,
{
    if k < j {
        lemma_base62_none_extend(s, (k + 1) as nat, j);
        let t = s.subrange(k as int, s.len() as int);
        assert(t.drop_first() =~= s.subrange((k + 1) as int, s.len() as int));
    }
}

impl std::str::FromStr for GameId {
    type Err = InvalidGameId;

    fn from_str(s: &str) -> (r: Result<GameId, InvalidGameId>)
        ensures
            match spec_parse_game_id(s.spec_bytes()) {
                Some(n) => (r matches Ok(id) && id.value() == n && id.wf()),
                None => r is Err,
            },
    {
        GameId::from_bytes(s.as_bytes())
    }
}

/// The digits of a number below `62^8` read back as that number.
pub proof fn lemma_base62_roundtrip(n: nat, k: nat)
    requires
        n < pow62(k),
    ensures
        spec_base62_value(spec_base62_digits(n, k)) == Some(n),
        spec_base62_digits(n, k).len() == k,
    decreases k,
{
    if k > 0 {
        let p = pow62((k - 1) as nat);
        assert(n / 62 < p) by (nonlinear_arith)
            requires
                n < 62 * p,
        ;
        lemma_base62_roundtrip(n / 62, (k - 1) as nat);
        let s = spec_base62_digits(n, k);
        assert(s.drop_first() =~= spec_base62_digits(n / 62, (k - 1) as nat));
        let d = n % 62;
        assert(spec_digit_value(spec_digit_char(d)) == Some(d));
    } else {
        assert(n == 0);
    }
}

/// Writing an identifier in base 62 and reading it back gives the same
/// identifier.
pub proof fn lemma_game_id_text_roundtrip(id: GameId)
    requires
        id.wf(),
    ensures
        spec_parse_game_id(spec_base62_digits(id.value() as nat, 8)) == Some(id.value()),
{
    reveal_with_fuel(pow62, 9);
    lemma_base62_roundtrip(id.value() as nat, 8);
}

/// Writing an identifier in six bytes and reading them back gives the same
/// number.
pub proof fn lemma_game_id_bytes_roundtrip(id: GameId, t: Seq<u8>)
    requires
        id.wf(),
    ensures
        spec_read_game_id(le_bytes(id.value() as nat, 6) + t) == Some(id.value()),
        le_bytes(id.value() as nat, 6).len() == 6,
{
    crate::buf::lemma_le_roundtrip(id.value() as nat, 6);
    lemma_pow256_8();
    assert((le_bytes(id.value() as nat, 6) + t).take(6) =~= le_bytes(id.value() as nat, 6));
}

/// Every base-62 digit is an ASCII letter or digit.
proof fn lemma_base62_digits_ascii(n: nat, k: nat)
    ensures
        forall|i: int| 0 <= i < k ==> 48 <= #[trigger] spec_base62_digits(n, k)[i] <= 122,
        spec_base62_digits(n, k).len() == k,
    decreases k,
{
    if k > 0 {
        lemma_base62_digits_ascii(n / 62, (k - 1) as nat);
        let rest = spec_base62_digits(n / 62, (k - 1) as nat);
        assert forall|i: int| 0 <= i < k implies 48 <= #[trigger] spec_base62_digits(n, k)[i] <= 122 by {
            if i > 0 {
                assert(spec_base62_digits(n, k)[i] == rest[i - 1]);
            }
        }
    }
}

/// The text of an identifier, as `to_string` writes it, is eight ASCII
/// characters, and `from_str` reads it back as the same identifier.
pub proof fn lemma_game_id_string_roundtrip(id: GameId, s: &str)
    requires
        id.wf(),
        s@ == ascii_chars(spec_base62_digits(id.value() as nat, 8)),
    ensures
        s@.len() == 8,
        spec_parse_game_id(s.spec_bytes()) == Some(id.value()),
{
    let d = spec_base62_digits(id.value() as nat, 8);
    lemma_game_id_text_roundtrip(id);
    lemma_base62_digits_ascii(id.value() as nat, 8);
    assert forall|i: int| 0 <= i < s@.len() implies '\0' <= #[trigger] s@[i] <= '\u{7f}' by {
        assert(s@[i] == d[i] as char);
        assert(48 <= d[i] <= 122);
    }
    assert(vstd::string::is_ascii(s));
    vstd::string::is_ascii_spec_bytes(s);
    assert forall|i: int| 0 <= i < d.len() implies s.spec_bytes()[i] == d[i] by {
        assert(s@[i] == d[i] as char);
    }
    assert(s.spec_bytes() =~= d);
}

} // verus!
