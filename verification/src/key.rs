//! Database keys: twelve bytes that stand for a position (its Zobrist hash,
//! mixed with the variant and, for a player's explorer, with the player and
//! color), then a month or year in big-endian order, so that the keys of one
//! position sort by date.
use vstd::prelude::*;

use crate::buf::{le_bytes, le_value, lemma_le_bytes_len, pow256};
use crate::chess::{Color, ChessVariant};
use crate::date::{InvalidDate, Month, Year, MAX_YEAR};
use crate::user::UserId;

verus! {

/// The SHA-1 digest of `data`.
pub uninterp spec fn sha1_digest(data: Seq<u8>) -> Seq<u8>;

/// `sha1::Sha1::digest`: the SHA-1 digest of `data`, which is twenty bytes
/// long. What the bytes are is left to the name `sha1_digest`.
#[verifier::external_body]
fn sha1(data: &[u8]) -> (d: Vec<u8>)
    ensures
        d@ == sha1_digest(data@),
        d@.len() == 20,
{
    <sha1::Sha1 as sha1::Digest>::digest(data).as_slice().to_vec()
}

/// A 128-bit Zobrist hash of a position.
#[derive(Debug, Clone, Copy, PartialEq, Eq, Structural)]
pub struct ZobristKey(pub u128);

impl From<u128> for ZobristKey {
    fn from(value: u128) -> (z: ZobristKey) {
        ZobristKey(value)
    }
}

impl vstd::std_specs::convert::FromSpecImpl<u128> for ZobristKey {
    open spec fn obeys_from_spec() -> bool {
        true
    }

    open spec fn from_spec(value: u128) -> ZobristKey {
        ZobristKey(value)
    }
}

impl From<ZobristKey> for u128 {
    fn from(z: ZobristKey) -> (v: u128) {
        z.0
    }
}

impl vstd::std_specs::convert::FromSpecImpl<ZobristKey> for u128 {
    open spec fn obeys_from_spec() -> bool {
        true
    }

    open spec fn from_spec(z: ZobristKey) -> u128 {
        z.0
    }
}

/// The value mixed into the hashes of positions of each variant.
pub open spec fn spec_variant_mix(v: ChessVariant) -> u128 {
    match v {
        ChessVariant::Chess => 0,
        ChessVariant::Antichess => 0x44782fce075483666c81899cb65921c9,
        ChessVariant::Atomic => 0x66ccbd680f655d562689ca333c5e2a42,
        ChessVariant::Crazyhouse => 0x9d04db38ca4d923d82ff24eb9530e986,
        ChessVariant::Horde => 0xc29dfb1076aa15186effd0d34cc60737,
        ChessVariant::KingOfTheHill => 0xdfb25d5df41fc5961e61f6b4ba613fbe,
        ChessVariant::RacingKings => 0x8e72f94307f96710b3910cf7e5808e0d,
        ChessVariant::ThreeCheck => 0xd19242bae967b40e7856bd1c71aa4220,
    }
}

/// The letter of a color: `w` or `b`.
pub open spec fn spec_color_char(c: Color) -> u8 {
    match c {
        Color::White => 119,
        Color::Black => 98,
    }
}

/// The bytes that are hashed for the explorer of a player with one color:
/// the color's letter, then the player's identifier.
pub open spec fn spec_player_seed(id: Seq<u8>, color: Color) -> Seq<u8> {
    seq![spec_color_char(color)] + id
}

/// Builds keys: a base that the position's hash is mixed with.
#[derive(Debug)]
pub struct KeyBuilder {
    base: u128,
}

impl KeyBuilder {
    /// The base that positions are mixed with.
    pub closed spec fn spec_base(&self) -> u128 {
        self.base
    }

    /// Keys of the masters database: positions alone.
    pub fn masters() -> (k: KeyBuilder)
        ensures
            k.spec_base() == 0,
    {
        KeyBuilder { base: 0 }
    }

    /// Keys of the database of the server's games: positions alone.
    pub fn lichess() -> (k: KeyBuilder)
        ensures
            k.spec_base() == 0,
    {
        KeyBuilder { base: 0 }
    }

    /// Keys of the explorer of `user` with `color`: positions mixed with the
    /// first sixteen bytes, little endian, of the SHA-1 digest of the color's
    /// letter and the user's identifier.
    pub fn player(user: &UserId, color: Color) -> (k: KeyBuilder)
        ensures
            k.spec_base() == le_value(sha1_digest(spec_player_seed(user.spec_bytes(), color)).take(16)),
    {
        let id = user.as_lowercase_bytes();
        let mut data: Vec<u8> = Vec::new();
        data.push(match color {
            Color::White => 119,
            Color::Black => 98,
        });
        let mut i: usize = 0;
        while i < id.len()
            invariant
                i <= id@.len(),
                data@ == seq![spec_color_char(color)] + id@.take(i as int),
            decreases id@.len() - i,
        {
            data.push(id[i]);
            proof {
                assert(data@ =~= seq![spec_color_char(color)] + id@.take(i + 1));
            }
            i = i + 1;
        }
        proof {
            assert(id@.take(i as int) =~= id@);
        }
        let digest = sha1(data.as_slice());
        KeyBuilder::from_digest(digest.as_slice())
    }

    /// The builder whose base is the first sixteen bytes of `digest`, little
    /// endian.
    pub fn from_digest(digest: &[u8]) -> (k: KeyBuilder)
        requires
            digest@.len() >= 16,
        ensures
            k.spec_base() == le_value(digest@.take(16)),
    {
        KeyBuilder { base: le_u128(digest) }
    }

    /// The prefix of the keys of a position of `variant` with the hash
    /// `zobrist`: the base, the hash and the variant's value, mixed by
    /// exclusive or, in little-endian order.
    pub fn with_zobrist(&self, variant: ChessVariant, zobrist: ZobristKey) -> (p: KeyPrefix)
        ensures
            p.spec_prefix() == le_bytes(
                (self.spec_base() ^ zobrist.0 ^ spec_variant_mix(variant)) as nat,
                16,
            ),
    {
        let mix: u128 = match variant {
            ChessVariant::Chess => 0,
            ChessVariant::Antichess => 0x44782fce075483666c81899cb65921c9,
            ChessVariant::Atomic => 0x66ccbd680f655d562689ca333c5e2a42,
            ChessVariant::Crazyhouse => 0x9d04db38ca4d923d82ff24eb9530e986,
            ChessVariant::Horde => 0xc29dfb1076aa15186effd0d34cc60737,
            ChessVariant::KingOfTheHill => 0xdfb25d5df41fc5961e61f6b4ba613fbe,
            ChessVariant::RacingKings => 0x8e72f94307f96710b3910cf7e5808e0d,
            ChessVariant::ThreeCheck => 0xd19242bae967b40e7856bd1c71aa4220,
        };
        let v = self.base ^ zobrist.0 ^ mix;
        KeyPrefix { prefix: u128_le_bytes(v) }
    }
}

/// The first sixteen bytes of `b` as a little-endian number.
fn le_u128(b: &[u8]) -> (v: u128)
    requires
        b@.len() >= 16,
    ensures
        v == le_value(b@.take(16)),
{
    let mut v: u128 = 0;
    let mut i: usize = 16;
    proof {
        assert(b@.subrange(16, 16) =~= Seq::<u8>::empty());
    }
    while i > 0
        invariant
            b@.len() >= 16,
            i <= 16,
            v == le_value(b@.subrange(i as int, 16)),
            v < pow256((16 - i) as nat),
        decreases i,
    {
        proof {
            let t = b@.subrange(i - 1, 16);
            assert(t.drop_first() =~= b@.subrange(i as int, 16));
            crate::buf::lemma_pow256_mono((17 - i) as nat, 16);
            lemma_pow256_16();
            let p = pow256((16 - i) as nat);
            assert(b@[i - 1] + 256 * v < 256 * p) by (nonlinear_arith)
                requires
                    v < p,
                    b@[i - 1] < 256,
            ;
        }
        v = b[i - 1] as u128 + 256 * v;
        i = i - 1;
    }
    proof {
        assert(b@.subrange(0, 16) =~= b@.take(16));
    }
    v
}

proof fn lemma_pow256_16()
    ensures
        pow256(16) == 0x1_0000_0000_0000_0000_0000_0000_0000_0000,
{
    reveal_with_fuel(pow256, 17);
}

/// The sixteen bytes of `v`, least significant first.
fn u128_le_bytes(v: u128) -> (b: [u8; 16])
    ensures
        b@ == le_bytes(v as nat, 16),
{
    let mut out: Vec<u8> = Vec::new();
    let mut x = v;
    let mut k: usize = 0;
    while k < 16
        invariant
            k <= 16,
            out@ + le_bytes(x as nat, (16 - k) as nat) == le_bytes(v as nat, 16),
        decreases 16 - k,
    {
        let ghost before = out@;
        out.push((x % 256) as u8);
        proof {
            assert(out@ + le_bytes((x / 256) as nat, (16 - k - 1) as nat) =~= before + le_bytes(
                x as nat,
                (16 - k) as nat,
            ));
        }
        x = x / 256;
        k = k + 1;
    }
    proof {
        assert(out@ =~= le_bytes(v as nat, 16));
        lemma_le_bytes_len(v as nat, 16);
    }
    [
        out[0],
        out[1],
        out[2],
        out[3],
        out[4],
        out[5],
        out[6],
        out[7],
        out[8],
        out[9],
        out[10],
        out[11],
        out[12],
        out[13],
        out[14],
        out[15],
    ]
}

/// The sixteen bytes that stand for a position; keys take the first twelve.
#[derive(Debug)]
pub struct KeyPrefix {
    prefix: [u8; 16],
}

/// The two bytes of `v`, most significant first.
pub open spec fn be_bytes2(v: u16) -> Seq<u8> {
    seq![(v / 256) as u8, (v % 256) as u8]
}

/// The number that a key ends with: its last two bytes, most significant
/// first.
pub open spec fn spec_key_suffix(b: Seq<u8>) -> u16 {
    (b[12] * 256 + b[13]) as u16
}

impl KeyPrefix {
    /// The sixteen bytes.
    pub closed spec fn spec_prefix(&self) -> Seq<u8> {
        self.prefix@
    }

    /// The key of the position in `month`: the first twelve bytes of the
    /// prefix, then the month's number, most significant byte first.
    pub fn with_month(&self, month: Month) -> (k: Key)
        ensures
            k.spec_bytes() == self.spec_prefix().take(12) + be_bytes2(month.value()),
            spec_key_suffix(k.spec_bytes()) == month.value(),
    {
        let k = self.with_suffix(month.to_u16());
        proof {
            lemma_key_suffix(self.spec_prefix(), month.value());
        }
        k
    }

    /// The key of the position in `year`: the first twelve bytes of the
    /// prefix, then the year, most significant byte first.
    pub fn with_year(&self, year: Year) -> (k: Key)
        ensures
            k.spec_bytes() == self.spec_prefix().take(12) + be_bytes2(year.value()),
            spec_key_suffix(k.spec_bytes()) == year.value(),
            !Month::spec_from(spec_key_suffix(k.spec_bytes())).wf(),
    {
        year.check_bound();
        let k = self.with_suffix(year.to_u16());
        proof {
            lemma_key_suffix(self.spec_prefix(), year.value());
            Month::lemma_from(year.value());
        }
        k
    }

    fn with_suffix(&self, v: u16) -> (k: Key)
        ensures
            k.spec_bytes() == self.spec_prefix().take(12) + be_bytes2(v),
    {
        let p = &self.prefix;
        let k = Key(
            [
                p[0],
                p[1],
                p[2],
                p[3],
                p[4],
                p[5],
                p[6],
                p[7],
                p[8],
                p[9],
                p[10],
                p[11],
                (v / 256) as u8,
                (v % 256) as u8,
            ],
        );
        proof {
            assert(k.0@ =~= self.prefix@.take(12) + be_bytes2(v));
        }
        k
    }
}

/// A database key: twelve bytes for the position, two for the date.
#[derive(Debug, Clone, Copy, PartialEq, Eq, Hash)]
pub struct Key([u8; 14]);

/// The bytes do not have the length of a key.
#[derive(Debug)]
pub struct InvalidKeyLength;

impl Key {
    /// The fourteen bytes.
    pub closed spec fn spec_bytes(&self) -> Seq<u8> {
        self.0@
    }

    /// The fourteen bytes.
    pub fn into_bytes(self) -> (b: [u8; 14])
        ensures
            b@ == self.spec_bytes(),
    {
        self.0
    }

    /// The month that the key ends with, if it is in range.
    pub fn month(&self) -> (r: Result<Month, InvalidDate>)
        ensures
            ({
                let m = spec_key_suffix(self.spec_bytes());
                &&& Month::spec_from(m).wf() ==> (r matches Ok(v) && v.value() == m)
                &&& !Month::spec_from(m).wf() ==> r == Err::<Month, InvalidDate>(
                    InvalidDate::InvalidMonth,
                )
            }),
    {
        let m = self.0[12] as u16 * 256 + self.0[13] as u16;
        proof {
            Month::lemma_from(m);
        }
        Month::try_from_u16(m)
    }

    /// The key made of `b`, if it has fourteen bytes.
    pub fn try_from_slice(b: &[u8]) -> (r: Result<Key, InvalidKeyLength>)
        ensures
            b@.len() == 14 ==> (r matches Ok(k) && k.spec_bytes() == b@),
            b@.len() != 14 ==> r is Err,
    {
        if b.len() != 14 {
            return Err(InvalidKeyLength);
        }
        let k = Key(
            [
                b[0],
                b[1],
                b[2],
                b[3],
                b[4],
                b[5],
                b[6],
                b[7],
                b[8],
                b[9],
                b[10],
                b[11],
                b[12],
                b[13],
            ],
        );
        proof {
            assert(k.0@ =~= b@);
        }
        Ok(k)
    }
}

/// Byte strings in lexicographic order, as arrays of bytes compare.
pub open spec fn lex_le(a: Seq<u8>, b: Seq<u8>) -> bool
    decreases a.len(),
{
    if a.len() == 0 {
        true
    } else if b.len() == 0 {
        false
    } else if a[0] != b[0] {
        a[0] < b[0]
    } else {
        lex_le(a.drop_first(), b.drop_first())
    }
}

proof fn lemma_lex_common_prefix(p: Seq<u8>, x: Seq<u8>, y: Seq<u8>)
    ensures
        lex_le(p + x, p + y) == lex_le(x, y),
    decreases p.len(),
{
    if p.len() > 0 {
        assert((p + x).drop_first() =~= p.drop_first() + x);
        assert((p + y).drop_first() =~= p.drop_first() + y);
        lemma_lex_common_prefix(p.drop_first(), x, y);
    } else {
        assert(p + x =~= x);
        assert(p + y =~= y);
    }
}

/// Keys of one position sort as their months do: for two months, the key
/// of the first is at most that of the second exactly when the first month
/// is at most the second.
pub proof fn lemma_key_order(prefix: Seq<u8>, a: u16, b: u16)
    ensures
        lex_le(prefix.take(12) + be_bytes2(a), prefix.take(12) + be_bytes2(b)) == (a <= b),
{
    lemma_lex_common_prefix(prefix.take(12), be_bytes2(a), be_bytes2(b));
    let x = be_bytes2(a);
    let y = be_bytes2(b);
    assert(x.drop_first() =~= seq![(a % 256) as u8]);
    assert(y.drop_first() =~= seq![(b % 256) as u8]);
    assert(x.drop_first().drop_first() =~= Seq::<u8>::empty());
    assert(y.drop_first().drop_first() =~= Seq::<u8>::empty());
    reveal_with_fuel(lex_le, 3);
    assert((a <= b) == (a / 256 < b / 256 || (a / 256 == b / 256 && a % 256 <= b % 256)))
        by (nonlinear_arith);
}

/// The last two bytes of a key ending in `v` read back as `v`.
proof fn lemma_key_suffix(prefix: Seq<u8>, v: u16)
    requires
        prefix.len() == 16,
    ensures
        spec_key_suffix(prefix.take(12) + be_bytes2(v)) == v,
{
    let k = prefix.take(12) + be_bytes2(v);
    assert(k[12] == (v / 256) as u8 && k[13] == (v % 256) as u8);
}

/// The month read from the key of a position in a month is that month
/// when it is in range, and none otherwise (as for `0000-01`); the key of a
/// position in a year is in no month, for every year (at most 3000) is a
/// smaller number than every month in range.
pub proof fn lemma_key_month_roundtrip(p: KeyPrefix, month: Month, year: Year)
    requires
        year.value() <= MAX_YEAR,
    ensures
        spec_key_suffix(p.spec_prefix().take(12) + be_bytes2(month.value())) == month.value(),
        Month::spec_from(spec_key_suffix(p.spec_prefix().take(12) + be_bytes2(month.value()))).wf()
            == month.wf(),
        !Month::spec_from(spec_key_suffix(p.spec_prefix().take(12) + be_bytes2(year.value()))).wf(),
{
    lemma_key_suffix(p.spec_prefix(), month.value());
    lemma_key_suffix(p.spec_prefix(), year.value());
    Month::lemma_from(month.value());
    Month::lemma_from(year.value());
}

} // verus!
