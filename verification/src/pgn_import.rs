//! Reading game records of the server's monthly exports: time controls,
//! ratings and game identifiers from the record headers, and which games
//! are sampled into the explorer.
use vstd::prelude::*;

use crate::chess::Color;
use crate::date::slice_range;
use crate::decimal::{decimal_value, is_decimal};
use crate::game::string_from_utf8;
use vstd::utf8::{decode_utf8, valid_utf8};
use crate::speed::{spec_speed_of, Speed};

verus! {

#[verifier::external_type_specification]
#[verifier::external_body]
pub struct ExParseIntegerError(btoi::ParseIntegerError);

/// The value of `b` as `btoi::btou` reads an unsigned number: a non-empty
/// run of decimal digits whose value is at most `max`.
pub open spec fn spec_btou(b: Seq<u8>, max: nat) -> Option<nat> {
    if is_decimal(b) && decimal_value(b) <= max {
        Some(decimal_value(b))
    } else {
        None
    }
}

/// The value of `b` as `btoi::btoi` reads a number of a type from `0` to
/// `max`: digits, optionally after `+`; or `-` and digits whose value is
/// zero.
pub open spec fn spec_btoi_unsigned(b: Seq<u8>, max: nat) -> Option<nat> {
    if b.len() > 0 && b[0] == 43 {
        spec_btou(b.drop_first(), max)
    } else if b.len() > 0 && b[0] == 45 {
        if is_decimal(b.drop_first()) && decimal_value(b.drop_first()) == 0 {
            Some(0)
        } else {
            None
        }
    } else {
        spec_btou(b, max)
    }
}

/// `btoi::btou::<u64>`: the number written in decimal digits in `bytes`;
/// an error when there is none, a byte is not a digit, or the value does
/// not fit in 64 bits.
#[verifier::external_body]
fn btou_u64(bytes: &[u8]) -> (r: Result<u64, btoi::ParseIntegerError>)
    ensures
        match spec_btou(bytes@, u64::MAX as nat) {
            Some(v) => r matches Ok(x) && x == v,
            None => r is Err,
        },
{
    btoi::btou::<u64>(bytes)
}

/// `btoi::btoi::<u16>`: the number written in decimal digits in `bytes`,
/// optionally after a sign; an error when there is no digit, a byte is not
/// a digit, or the value does not fit in sixteen bits (a negative value
/// other than zero does not).
#[verifier::external_body]
fn btoi_u16(bytes: &[u8]) -> (r: Result<u16, btoi::ParseIntegerError>)
    ensures
        match spec_btoi_unsigned(bytes@, u16::MAX as nat) {
            Some(v) => r matches Ok(x) && x == v,
            None => r is Err,
        },
{
    btoi::btoi::<u16>(bytes)
}

/// A time control cannot be read.
#[derive(Debug, Clone, Copy, PartialEq, Eq, Structural)]
pub struct InvalidTimeControl;

/// The position of the first `+` in `b`, or its length.
fn find_plus(b: &[u8]) -> (r: usize)
    ensures
        r <= b@.len(),
        forall|i: int| 0 <= i < r ==> b@[i] != 43,
        r < b@.len() ==> b@[r as int] == 43,
{
    let mut i: usize = 0;
    while i < b.len() && b[i] != 43
        invariant
            i <= b@.len(),
            forall|j: int| 0 <= j < i ==> b@[j] != 43,
        decreases b@.len() - i,
    {
        i = i + 1;
    }
    i
}

/// The seconds and increment of a time control `seconds+increment`, split
/// at its first `+`.
pub open spec fn spec_time_control_parts(b: Seq<u8>) -> Option<(nat, nat)> {
    if exists|i: int| 0 <= i < b.len() && b[i] == 43 {
        let i = choose|i: int|
            0 <= i < b.len() && b[i] == 43 && forall|j: int| 0 <= j < i ==> b[j] != 43;
        match (spec_btou(b.take(i), u64::MAX as nat), spec_btou(b.skip(i + 1), u64::MAX as nat)) {
            (Some(s), Some(inc)) => Some((s, inc)),
            _ => None,
        }
    } else {
        None
    }
}

/// The speed of a time control header: `-` for correspondence, else
/// seconds and increment.
pub open spec fn spec_speed_of_time_control(b: Seq<u8>) -> Option<Speed> {
    if b == seq![45u8] {
        Some(Speed::Correspondence)
    } else {
        match spec_time_control_parts(b) {
            Some((s, inc)) => Some(spec_speed_of(s, inc)),
            None => None,
        }
    }
}

/// The seconds and increment of `bytes`.
fn time_control_parts(bytes: &[u8]) -> (r: Option<(u64, u64)>)
    ensures
        match spec_time_control_parts(bytes@) {
            Some((s, inc)) => r matches Some(p) && p.0 == s && p.1 == inc,
            None => r is None,
        },
{
    let i = find_plus(bytes);
    if i == bytes.len() {
        return None;
    }
    proof {
        let b = bytes@;
        let c = choose|c: int| 0 <= c < b.len() && b[c] == 43 && forall|j: int| 0 <= j < c ==> b[j] != 43;
        assert(c == i as int) by {
            if c < i {
            } else if c > i {
                assert(b[i as int] == 43);
            }
        }
    }
    let first = crate::date::slice_range(bytes, 0, i);
    let second = crate::date::slice_range(bytes, i + 1, bytes.len());
    proof {
        assert(first@ =~= bytes@.take(i as int));
        assert(second@ =~= bytes@.skip(i + 1));
    }
    let seconds = match btou_u64(first.as_slice()) {
        Ok(v) => v,
        Err(_) => return None,
    };
    let increment = match btou_u64(second.as_slice()) {
        Ok(v) => v,
        Err(_) => return None,
    };
    Some((seconds, increment))
}

/// The speed of `seconds` plus forty times `increment`, computed without
/// overflow.
fn speed_of_total(seconds: u64, increment: u64) -> (sp: Speed)
    ensures
        sp == spec_speed_of(seconds as nat, increment as nat),
{
    let total: u128 = seconds as u128 + 40 * increment as u128;
    if total < 30 {
        Speed::UltraBullet
    } else if total < 180 {
        Speed::Bullet
    } else if total < 480 {
        Speed::Blitz
    } else if total < 1500 {
        Speed::Rapid
    } else if total < 21_600 {
        Speed::Classical
    } else {
        Speed::Correspondence
    }
}

impl Speed {
    /// The speed of a time control header: `-` is correspondence, else
    /// `seconds+increment`.
    pub fn from_bytes(bytes: &[u8]) -> (r: Result<Speed, InvalidTimeControl>)
        ensures
            match spec_speed_of_time_control(bytes@) {
                Some(sp) => r == Ok::<Speed, InvalidTimeControl>(sp),
                None => r is Err,
            },
    {
        if bytes.len() == 1 && bytes[0] == 45 {
            proof {
                assert(bytes@ =~= seq![45u8]);
            }
            return Ok(Speed::Correspondence);
        }
        proof {
            assert(bytes@ != seq![45u8]);
        }
        match time_control_parts(bytes) {
            Some((seconds, increment)) => Ok(speed_of_total(seconds, increment)),
            None => Err(InvalidTimeControl),
        }
    }
}

/// The speed classes of the first indexing tool.
#[derive(Debug, Clone, Copy, PartialEq, Eq, Structural)]
pub enum TimeControl {
    UltraBullet,
    Bullet,
    Blitz,
    Rapid,
    Classical,
    Correspondence,
}

/// The class of a time control of `seconds` plus forty times `increment`.
pub open spec fn spec_time_control_of(seconds: nat, increment: nat) -> TimeControl {
    let total = seconds + 40 * increment;
    if total < 30 {
        TimeControl::UltraBullet
    } else if total < 180 {
        TimeControl::Bullet
    } else if total < 480 {
        TimeControl::Blitz
    } else if total < 1500 {
        TimeControl::Rapid
    } else if total < 21_600 {
        TimeControl::Classical
    } else {
        TimeControl::Correspondence
    }
}

/// The class of a time control is that of its estimated duration, the base
/// time plus forty increments, by the bounds of 30 seconds, 3, 8 and 25
/// minutes and 6 hours, the same as its speed: time controls of the same
/// estimated duration have the same class.
pub proof fn lemma_time_control_of_duration(s1: nat, i1: nat, s2: nat, i2: nat)
    ensures
        ({
            let t = s1 + 40 * i1;
            let tc = spec_time_control_of(s1, i1);
            &&& (tc == TimeControl::UltraBullet <==> t < 30)
            &&& (tc == TimeControl::Bullet <==> 30 <= t < 180)
            &&& (tc == TimeControl::Blitz <==> 180 <= t < 480)
            &&& (tc == TimeControl::Rapid <==> 480 <= t < 1500)
            &&& (tc == TimeControl::Classical <==> 1500 <= t < 21_600)
            &&& (tc == TimeControl::Correspondence <==> 21_600 <= t)
        }),
        s1 + 40 * i1 == s2 + 40 * i2 ==> spec_time_control_of(s1, i1) == spec_time_control_of(s2, i2),
{
}

impl TimeControl {
    /// The class of a time control of `seconds` plus `increment` per move.
    pub fn from_seconds_and_increment(seconds: u64, increment: u64) -> (tc: TimeControl)
        requires
            seconds + 40 * increment <= u64::MAX,
        ensures
            tc == spec_time_control_of(seconds as nat, increment as nat),
    {
        let total = seconds + 40 * increment;
        if total < 30 {
            TimeControl::UltraBullet
        } else if total < 180 {
            TimeControl::Bullet
        } else if total < 480 {
            TimeControl::Blitz
        } else if total < 1500 {
            TimeControl::Rapid
        } else if total < 21_600 {
            TimeControl::Classical
        } else {
            TimeControl::Correspondence
        }
    }

    /// The class of a time control header: `-` is correspondence, else
    /// `seconds+increment`.
    pub fn from_bytes(bytes: &[u8]) -> (r: Result<TimeControl, InvalidTimeControl>)
        ensures
            bytes@ == seq![45u8] ==> r == Ok::<TimeControl, InvalidTimeControl>(
                TimeControl::Correspondence,
            ),
            bytes@ != seq![45u8] ==> match spec_time_control_parts(bytes@) {
                Some((s, inc)) => r == Ok::<TimeControl, InvalidTimeControl>(
                    spec_time_control_of(s, inc),
                ),
                None => r is Err,
            },
    {
        if bytes.len() == 1 && bytes[0] == 45 {
            proof {
                assert(bytes@ =~= seq![45u8]);
            }
            return Ok(TimeControl::Correspondence);
        }
        proof {
            assert(bytes@ != seq![45u8]);
        }
        match time_control_parts(bytes) {
            Some((seconds, increment)) => {
                let total: u128 = seconds as u128 + 40 * increment as u128;
                Ok(
                    if total < 30 {
                        TimeControl::UltraBullet
                    } else if total < 180 {
                        TimeControl::Bullet
                    } else if total < 480 {
                        TimeControl::Blitz
                    } else if total < 1500 {
                        TimeControl::Rapid
                    } else if total < 21_600 {
                        TimeControl::Classical
                    } else {
                        TimeControl::Correspondence
                    },
                )
            },
            None => Err(InvalidTimeControl),
        }
    }
}

/// The hash code of a string as Java computes it: for each character, the
/// hash so far times 31 plus the character, wrapping at 32 bits.
pub open spec fn spec_java_hash(s: Seq<char>) -> i32
    decreases s.len(),
{
    if s.len() == 0 {
        0
    } else {
        spec_java_hash(s.drop_last()).wrapping_mul(31).wrapping_add(s.last() as i32)
    }
}

/// The hash code of `s` as Java computes it.
pub fn java_hash_code(s: &str) -> (h: i32)
    ensures
        h == spec_java_hash(s@),
{
    broadcast use vstd::string::axiom_spec_iter;

    let mut hash: i32 = 0;
    for ch in iter: s.chars()
        invariant
            iter.seq() == s@,
            hash == spec_java_hash(s@.take(iter.index())),
    {
        proof {
            assert(s@.take(iter.index() + 1).drop_last() =~= s@.take(iter.index()));
        }
        hash = hash.wrapping_mul(31).wrapping_add(ch as i32);
    }
    proof {
        assert(s@.take(s@.len() as int) =~= s@);
    }
    hash
}

/// The value of `b` as `btoi::btoi::<i16>` reads it: digits, optionally
/// after `+`, at most 32767; or `-` and digits whose value is at most
/// 32768, negated.
pub open spec fn spec_btoi_i16(b: Seq<u8>) -> Option<int> {
    if b.len() > 0 && b[0] == 43 {
        match spec_btou(b.drop_first(), 32767) {
            Some(v) => Some(v as int),
            None => None,
        }
    } else if b.len() > 0 && b[0] == 45 {
        if is_decimal(b.drop_first()) && decimal_value(b.drop_first()) <= 32768 {
            Some(-(decimal_value(b.drop_first()) as int))
        } else {
            None
        }
    } else {
        match spec_btou(b, 32767) {
            Some(v) => Some(v as int),
            None => None,
        }
    }
}

/// `btoi::btoi::<i16>`: the number written in decimal digits in `bytes`,
/// optionally after a sign; an error when there is no digit, a byte is not
/// a digit, or the value does not fit in sixteen bits.
#[verifier::external_body]
fn btoi_i16(bytes: &[u8]) -> (r: Result<i16, btoi::ParseIntegerError>)
    ensures
        match spec_btoi_i16(bytes@) {
            Some(v) => r matches Ok(x) && x == v,
            None => r is Err,
        },
{
    btoi::btoi::<i16>(bytes)
}

/// The number written in `bytes` as a sixteen-bit signed number, if it is
/// one.
pub(crate) fn parse_i16(bytes: &[u8]) -> (r: Option<i16>)
    ensures
        match spec_btoi_i16(bytes@) {
            Some(v) => r == Some(v as i16),
            None => r is None,
        },
{
    match btoi_i16(bytes) {
        Ok(v) => Some(v),
        Err(_) => None,
    }
}

/// The winner of a game by its result: `1-0`, `0-1`, a draw `1/2-1/2` or
/// an unknown result `*`; none for other text.
pub open spec fn spec_result_winner(b: Seq<u8>) -> Option<Option<Color>> {
    if b == seq![49u8, 45, 48] {
        Some(Some(Color::White))
    } else if b == seq![48u8, 45, 49] {
        Some(Some(Color::Black))
    } else if b == seq![49u8, 47, 50, 45, 49, 47, 50] || b == seq![42u8] {
        Some(None)
    } else {
        None
    }
}

/// `shakmaty::Outcome::from_ascii`, then `Outcome::winner`: the winner of
/// the result written in `bytes`, if it is one.
#[verifier::external_body]
fn result_winner(bytes: &[u8]) -> (r: Option<Option<Color>>)
    ensures
        r == spec_result_winner(bytes@),
{
    match shakmaty::Outcome::from_ascii(bytes) {
        Ok(o) => Some(match o.winner() {
            Some(shakmaty::Color::White) => Some(Color::White),
            Some(shakmaty::Color::Black) => Some(Color::Black),
            None => None,
        }),
        Err(_) => None,
    }
}

/// A player of a game record: the name and rating, if given.
#[derive(Debug, Clone)]
pub struct Player {
    pub name: Option<String>,
    pub rating: Option<u16>,
}

/// A game read from a record of an export, as it is sent to the importer.
#[derive(Debug, Clone)]
pub struct Game {
    pub variant: Option<String>,
    pub speed: Option<Speed>,
    pub fen: Option<String>,
    pub id: Option<String>,
    pub date: Option<String>,
    pub white: Player,
    pub black: Player,
    pub winner: Option<Color>,
    pub moves: Vec<String>,
}

impl Game {
    /// A game with nothing read yet.
    pub fn new() -> (g: Game)
        ensures
            g.variant is None && g.speed is None && g.fen is None && g.id is None && g.date is None,
            g.white.name is None && g.white.rating is None,
            g.black.name is None && g.black.rating is None,
            g.winner is None,
            g.moves@.len() == 0,
    {
        Game {
            variant: None,
            speed: None,
            fen: None,
            id: None,
            date: None,
            white: Player { name: None, rating: None },
            black: Player { name: None, rating: None },
            winner: None,
            moves: Vec::new(),
        }
    }
}

/// A tag of a record cannot be read: a name that is not UTF-8, a rating
/// that is not a number, or a time control that is not one.
#[derive(Debug, Clone, Copy, PartialEq, Eq, Structural)]
pub struct InvalidTag;

/// The part of `b` after its last `/`, all of it if there is none.
pub open spec fn spec_after_last_slash(b: Seq<u8>) -> Seq<u8>
    decreases b.len(),
{
    if b.len() == 0 {
        b
    } else if b.last() == 47 {
        Seq::empty()
    } else {
        spec_after_last_slash(b.drop_last()).push(b.last())
    }
}

/// The part of `b` after its last `/`.
pub(crate) fn after_last_slash(b: &[u8]) -> (r: Vec<u8>)
    ensures
        r@ == spec_after_last_slash(b@),
{
    let mut i: usize = b.len();
    while i > 0 && b[i - 1] != 47
        invariant
            i <= b@.len(),
            forall|j: int| i <= j < b@.len() ==> b@[j] != 47,
        decreases i,
    {
        i = i - 1;
    }
    let r = slice_range(b, i, b.len());
    proof {
        lemma_after_last_slash(b@, i as int);
    }
    r
}

proof fn lemma_after_last_slash(b: Seq<u8>, i: int)
    requires
        0 <= i <= b.len(),
        forall|j: int| i <= j < b.len() ==> b[j] != 47,
        i == 0 || b[i - 1] == 47,
    ensures
        spec_after_last_slash(b) == b.subrange(i, b.len() as int),
    decreases b.len(),
{
    if b.len() > i {
        lemma_after_last_slash(b.drop_last(), i);
        assert(b.subrange(i, b.len() as int) =~= b.drop_last().subrange(i, b.len() - 1).push(b.last()));
    } else if b.len() > 0 {
        assert(b.subrange(i, b.len() as int) =~= Seq::<u8>::empty());
    } else {
        assert(b.subrange(i, b.len() as int) =~= b);
    }
}

/// Whether two byte strings are equal.
fn bytes_are(a: &[u8], b: &[u8]) -> (r: bool)
    ensures
        r == (a@ == b@),
{
    crate::buf::bytes_eq(a, b)
}

/// The text of UTF-8 bytes.
fn utf8_text(b: &[u8]) -> (r: Result<String, InvalidTag>)
    ensures
        r is Ok == valid_utf8(b@),
        r matches Ok(s) ==> s@ == decode_utf8(b@),
{
    match string_from_utf8(slice_range(b, 0, b.len())) {
        Some(s) => {
            proof {
                assert(b@.subrange(0, b@.len() as int) =~= b@);
            }
            Ok(s)
        },
        None => {
            proof {
                assert(b@.subrange(0, b@.len() as int) =~= b@);
            }
            Err(InvalidTag)
        },
    }
}

/// The standard starting position as exports write it.
pub open spec fn spec_start_fen() -> Seq<u8> {
    seq![
        114u8, 110, 98, 113, 107, 98, 110, 114, 47, 112, 112, 112, 112, 112, 112, 112, 112, 47,
        56, 47, 56, 47, 56, 47, 56, 47, 80, 80, 80, 80, 80, 80, 80, 80, 47, 82, 78, 66, 81, 75,
        66, 78, 82, 32, 119, 32, 75, 81, 107, 113, 32, 45, 32, 48, 32, 49
    ]
}

/// `White` as bytes.
pub open spec fn spec_white() -> Seq<u8> {
    seq![87u8, 104, 105, 116, 101]
}

pub(crate) fn white_bytes() -> (b: Vec<u8>)
    ensures
        b@ == spec_white(),
{
    let b: Vec<u8> = vec![87u8, 104, 105, 116, 101];
    proof {
        assert(b@ =~= spec_white());
    }
    b
}

/// `Black` as bytes.
pub open spec fn spec_black() -> Seq<u8> {
    seq![66u8, 108, 97, 99, 107]
}

pub(crate) fn black_bytes() -> (b: Vec<u8>)
    ensures
        b@ == spec_black(),
{
    let b: Vec<u8> = vec![66u8, 108, 97, 99, 107];
    proof {
        assert(b@ =~= spec_black());
    }
    b
}

/// `WhiteElo` as bytes.
pub open spec fn spec_white_elo() -> Seq<u8> {
    seq![87u8, 104, 105, 116, 101, 69, 108, 111]
}

pub(crate) fn white_elo_bytes() -> (b: Vec<u8>)
    ensures
        b@ == spec_white_elo(),
{
    let b: Vec<u8> = vec![87u8, 104, 105, 116, 101, 69, 108, 111];
    proof {
        assert(b@ =~= spec_white_elo());
    }
    b
}

/// `BlackElo` as bytes.
pub open spec fn spec_black_elo() -> Seq<u8> {
    seq![66u8, 108, 97, 99, 107, 69, 108, 111]
}

pub(crate) fn black_elo_bytes() -> (b: Vec<u8>)
    ensures
        b@ == spec_black_elo(),
{
    let b: Vec<u8> = vec![66u8, 108, 97, 99, 107, 69, 108, 111];
    proof {
        assert(b@ =~= spec_black_elo());
    }
    b
}

/// `TimeControl` as bytes.
pub open spec fn spec_time_control() -> Seq<u8> {
    seq![84u8, 105, 109, 101, 67, 111, 110, 116, 114, 111, 108]
}

pub(crate) fn time_control_bytes() -> (b: Vec<u8>)
    ensures
        b@ == spec_time_control(),
{
    let b: Vec<u8> = vec![84u8, 105, 109, 101, 67, 111, 110, 116, 114, 111, 108];
    proof {
        assert(b@ =~= spec_time_control());
    }
    b
}

/// `Variant` as bytes.
pub open spec fn spec_variant() -> Seq<u8> {
    seq![86u8, 97, 114, 105, 97, 110, 116]
}

pub(crate) fn variant_bytes() -> (b: Vec<u8>)
    ensures
        b@ == spec_variant(),
{
    let b: Vec<u8> = vec![86u8, 97, 114, 105, 97, 110, 116];
    proof {
        assert(b@ =~= spec_variant());
    }
    b
}

/// `Date` as bytes.
pub open spec fn spec_date() -> Seq<u8> {
    seq![68u8, 97, 116, 101]
}

pub(crate) fn date_bytes() -> (b: Vec<u8>)
    ensures
        b@ == spec_date(),
{
    let b: Vec<u8> = vec![68u8, 97, 116, 101];
    proof {
        assert(b@ =~= spec_date());
    }
    b
}

/// `UTCDate` as bytes.
pub open spec fn spec_utc_date() -> Seq<u8> {
    seq![85u8, 84, 67, 68, 97, 116, 101]
}

pub(crate) fn utc_date_bytes() -> (b: Vec<u8>)
    ensures
        b@ == spec_utc_date(),
{
    let b: Vec<u8> = vec![85u8, 84, 67, 68, 97, 116, 101];
    proof {
        assert(b@ =~= spec_utc_date());
    }
    b
}

/// `WhiteTitle` as bytes.
pub open spec fn spec_white_title() -> Seq<u8> {
    seq![87u8, 104, 105, 116, 101, 84, 105, 116, 108, 101]
}

pub(crate) fn white_title_bytes() -> (b: Vec<u8>)
    ensures
        b@ == spec_white_title(),
{
    let b: Vec<u8> = vec![87u8, 104, 105, 116, 101, 84, 105, 116, 108, 101];
    proof {
        assert(b@ =~= spec_white_title());
    }
    b
}

/// `BlackTitle` as bytes.
pub open spec fn spec_black_title() -> Seq<u8> {
    seq![66u8, 108, 97, 99, 107, 84, 105, 116, 108, 101]
}

pub(crate) fn black_title_bytes() -> (b: Vec<u8>)
    ensures
        b@ == spec_black_title(),
{
    let b: Vec<u8> = vec![66u8, 108, 97, 99, 107, 84, 105, 116, 108, 101];
    proof {
        assert(b@ =~= spec_black_title());
    }
    b
}

/// `Site` as bytes.
pub open spec fn spec_site() -> Seq<u8> {
    seq![83u8, 105, 116, 101]
}

pub(crate) fn site_bytes() -> (b: Vec<u8>)
    ensures
        b@ == spec_site(),
{
    let b: Vec<u8> = vec![83u8, 105, 116, 101];
    proof {
        assert(b@ =~= spec_site());
    }
    b
}

/// `Result` as bytes.
pub open spec fn spec_result() -> Seq<u8> {
    seq![82u8, 101, 115, 117, 108, 116]
}

pub(crate) fn result_bytes() -> (b: Vec<u8>)
    ensures
        b@ == spec_result(),
{
    let b: Vec<u8> = vec![82u8, 101, 115, 117, 108, 116];
    proof {
        assert(b@ =~= spec_result());
    }
    b
}

/// `FEN` as bytes.
pub open spec fn spec_fen() -> Seq<u8> {
    seq![70u8, 69, 78]
}

pub(crate) fn fen_bytes() -> (b: Vec<u8>)
    ensures
        b@ == spec_fen(),
{
    let b: Vec<u8> = vec![70u8, 69, 78];
    proof {
        assert(b@ =~= spec_fen());
    }
    b
}

/// `BOT` as bytes.
pub open spec fn spec_bot() -> Seq<u8> {
    seq![66u8, 79, 84]
}

pub(crate) fn bot_bytes() -> (b: Vec<u8>)
    ensures
        b@ == spec_bot(),
{
    let b: Vec<u8> = vec![66u8, 79, 84];
    proof {
        assert(b@ =~= spec_bot());
    }
    b
}

/// `?` as bytes.
pub open spec fn spec_unknown() -> Seq<u8> {
    seq![63u8]
}

pub(crate) fn unknown_bytes() -> (b: Vec<u8>)
    ensures
        b@ == spec_unknown(),
{
    let b: Vec<u8> = vec![63u8];
    proof {
        assert(b@ =~= spec_unknown());
    }
    b
}

/// `Standard` as bytes.
pub open spec fn spec_standard() -> Seq<u8> {
    seq![83u8, 116, 97, 110, 100, 97, 114, 100]
}

pub(crate) fn standard_bytes() -> (b: Vec<u8>)
    ensures
        b@ == spec_standard(),
{
    let b: Vec<u8> = vec![83u8, 116, 97, 110, 100, 97, 114, 100];
    proof {
        assert(b@ =~= spec_standard());
    }
    b
}

/// `LichessID` as bytes.
pub open spec fn spec_lichess_id() -> Seq<u8> {
    seq![76u8, 105, 99, 104, 101, 115, 115, 73, 68]
}

pub(crate) fn lichess_id_bytes() -> (b: Vec<u8>)
    ensures
        b@ == spec_lichess_id(),
{
    let b: Vec<u8> = vec![76u8, 105, 99, 104, 101, 115, 115, 73, 68];
    proof {
        assert(b@ =~= spec_lichess_id());
    }
    b
}

pub(crate) fn start_fen_bytes() -> (b: Vec<u8>)
    ensures
        b@ == spec_start_fen(),
{
    let b: Vec<u8> = vec![
        114u8, 110, 98, 113, 107, 98, 110, 114, 47, 112, 112, 112, 112, 112, 112, 112, 112, 47,
        56, 47, 56, 47, 56, 47, 56, 47, 80, 80, 80, 80, 80, 80, 80, 80, 47, 82, 78, 66, 81, 75,
        66, 78, 82, 32, 119, 32, 75, 81, 107, 113, 32, 45, 32, 48, 32, 49
    ];
    proof {
        assert(b@ =~= spec_start_fen());
    }
    b
}

/// The text of a tag as a name: decoded UTF-8, if valid.
pub open spec fn spec_text_of(text: Seq<u8>) -> Option<Seq<char>> {
    if valid_utf8(text) {
        Some(decode_utf8(text))
    } else {
        None
    }
}

/// An optional string as a value.
pub open spec fn spec_opt_text(s: Option<String>) -> Option<Seq<char>> {
    match s {
        Some(t) => Some(t@),
        None => None,
    }
}

/// `Standard` as characters.
pub open spec fn spec_standard_chars() -> Seq<char> {
    seq!['S', 't', 'a', 'n', 'd', 'a', 'r', 'd']
}

/// Whether a variant's name is `Standard`.
fn is_standard(name: &String) -> (b: bool)
    ensures
        b == (name@ == spec_standard_chars()),
{
    let mut t = String::new();
    crate::text::string_push(&mut t, 'S');
    crate::text::string_push(&mut t, 't');
    crate::text::string_push(&mut t, 'a');
    crate::text::string_push(&mut t, 'n');
    crate::text::string_push(&mut t, 'd');
    crate::text::string_push(&mut t, 'a');
    crate::text::string_push(&mut t, 'r');
    crate::text::string_push(&mut t, 'd');
    proof {
        assert(t@ =~= spec_standard_chars());
    }
    *name == t
}

/// The chance in percent that a game of the export is sampled: by its
/// speed and mean rating for standard chess (correspondence and classical
/// games, games from 2500 and ultrabullet games always), by its mean
/// rating for variants.
pub open spec fn spec_sample_percent(standard: bool, speed: Option<Speed>, rating: u32) -> i32 {
    if standard {
        let sp = match speed {
            Some(s) => s,
            None => Speed::Correspondence,
        };
        if sp == Speed::Correspondence || sp == Speed::Classical {
            100
        } else if rating >= 2500 {
            100
        } else if sp == Speed::Rapid {
            if rating >= 2200 {
                100
            } else if rating >= 2000 {
                83
            } else if rating >= 1800 {
                46
            } else if rating >= 1600 {
                39
            } else {
                2
            }
        } else if sp == Speed::Blitz {
            if rating >= 2200 {
                38
            } else if rating >= 2000 {
                18
            } else if rating >= 1600 {
                13
            } else {
                2
            }
        } else if sp == Speed::Bullet {
            if rating >= 2200 {
                48
            } else if rating >= 2000 {
                27
            } else if rating >= 1800 {
                19
            } else if rating >= 1600 {
                18
            } else {
                2
            }
        } else {
            100
        }
    } else if rating >= 1600 {
        100
    } else {
        50
    }
}

/// The chance in percent that a game of the export is sampled.
pub fn sample_percent(standard: bool, speed: Option<Speed>, rating: u32) -> (p: i32)
    ensures
        p == spec_sample_percent(standard, speed, rating),
{
    if standard {
        let sp = match speed {
            Some(s) => s,
            None => Speed::Correspondence,
        };
        match sp {
            Speed::Correspondence | Speed::Classical => 100,
            _ => if rating >= 2500 {
                100
            } else {
                match sp {
                    Speed::Rapid => if rating >= 2200 {
                        100
                    } else if rating >= 2000 {
                        83
                    } else if rating >= 1800 {
                        46
                    } else if rating >= 1600 {
                        39
                    } else {
                        2
                    },
                    Speed::Blitz => if rating >= 2200 {
                        38
                    } else if rating >= 2000 {
                        18
                    } else if rating >= 1600 {
                        13
                    } else {
                        2
                    },
                    Speed::Bullet => if rating >= 2200 {
                        48
                    } else if rating >= 2000 {
                        27
                    } else if rating >= 1800 {
                        19
                    } else if rating >= 1600 {
                        18
                    } else {
                        2
                    },
                    _ => 100,
                }
            },
        }
    } else if rating >= 1600 {
        100
    } else {
        50
    }
}

/// The remainder of `h` by 100, with the sign of `h`, as Rust's `%` gives
/// it.
pub open spec fn spec_rem100(h: i32) -> int {
    if h >= 0 {
        (h as int) % 100
    } else {
        -((-(h as int)) % 100)
    }
}

/// The remainder by 100 of the hash code of `s`, with its sign.
pub fn java_hash_rem(s: &str) -> (r: i32)
    ensures
        r == spec_rem100(spec_java_hash(s@)),
{
    let h = java_hash_code(s);
    if h >= 0 {
        h % 100
    } else {
        let m = (-(h as i64)) % 100;
        -(m as i32)
    }
}

/// Whether a game of the export is kept by sampling: both players rated
/// above 1500 (a missing rating counts as zero), an identifier whose hash
/// remainder is below the chance of the game, and not skipped already.
pub open spec fn spec_sampled(g: Game, skip: bool) -> bool {
    let w: u32 = match g.white.rating {
        Some(r) => r as u32,
        None => 0,
    };
    let b: u32 = match g.black.rating {
        Some(r) => r as u32,
        None => 0,
    };
    let standard = match g.variant {
        Some(name) => name@ == spec_standard_chars(),
        None => true,
    };
    let p = spec_sample_percent(standard, g.speed, ((w + b) / 2) as u32);
    &&& (if w < b { w } else { b }) >= 1501
    &&& (match g.id {
        Some(id) => p > spec_rem100(spec_java_hash(id@)),
        None => false,
    })
    &&& !skip
}

/// Reads the games of an export into batches for the importer.
#[derive(Debug)]
pub struct Importer {
    pub current: Game,
    pub skip: bool,
    pub batch: Vec<Game>,
    pub batch_size: usize,
}

impl Importer {
    /// An importer that sends batches of `batch_size` games.
    pub fn new(batch_size: usize) -> (imp: Importer)
        ensures
            imp.batch_size == batch_size,
            imp.batch@.len() == 0,
            !imp.skip,
    {
        Importer { current: Game::new(), skip: false, batch: Vec::new(), batch_size }
    }

    /// A new game begins: nothing read of it, not skipped.
    pub fn begin_game(&mut self)
        ensures
            !final(self).skip,
            final(self).current.moves@.len() == 0,
            final(self).current.white.rating is None,
            final(self).current.black.rating is None,
            final(self).current.id is None,
            final(self).current.variant is None,
            final(self).current.winner is None,
            final(self).batch@ == old(self).batch@,
            final(self).batch_size == old(self).batch_size,
    {
        self.skip = false;
        self.current = Game::new();
    }

    /// Takes a tag of the record: the players' names and ratings (`?` for
    /// none), the time control, the variant, the date, bots (whose games are
    /// skipped), the game's identifier (the end of the site's address), the
    /// result (a game without a readable one is skipped) and the starting
    /// position (none for the standard one); other tags are ignored. `raw`
    /// is the value as written, `text` the value with its escapes decoded.
    /// Fails on a text that is not UTF-8, a rating or time control that
    /// cannot be read.
    pub fn tag(&mut self, name: &[u8], raw: &[u8], text: &[u8]) -> (r: Result<(), InvalidTag>)
        ensures
            final(self).batch@ == old(self).batch@,
            final(self).batch_size == old(self).batch_size,
            final(self).current.moves@ == old(self).current.moves@,
            name@ == spec_white() ==> (r is Ok <==> valid_utf8(text@)) && (r is Ok
                ==> spec_opt_text(final(self).current.white.name) == spec_text_of(text@)),
            name@ == spec_black() ==> (r is Ok <==> valid_utf8(text@)) && (r is Ok
                ==> spec_opt_text(final(self).current.black.name) == spec_text_of(text@)),
            name@ == spec_white_elo() && raw@ == spec_unknown() ==> r is Ok
                && final(self).current.white.rating == old(self).current.white.rating,
            name@ == spec_white_elo() && raw@ != spec_unknown() ==> match spec_btoi_unsigned(raw@, u16::MAX as nat) {
                Some(v) => r is Ok && final(self).current.white.rating == Some(v as u16),
                None => r is Err,
            },
            name@ == spec_black_elo() && raw@ == spec_unknown() ==> r is Ok
                && final(self).current.black.rating == old(self).current.black.rating,
            name@ == spec_black_elo() && raw@ != spec_unknown() ==> match spec_btoi_unsigned(raw@, u16::MAX as nat) {
                Some(v) => r is Ok && final(self).current.black.rating == Some(v as u16),
                None => r is Err,
            },
            name@ == spec_time_control() ==> match spec_speed_of_time_control(raw@) {
                Some(sp) => r is Ok && final(self).current.speed == Some(sp),
                None => r is Err,
            },
            name@ == spec_variant() ==> (r is Ok <==> valid_utf8(text@)) && (r is Ok
                ==> spec_opt_text(final(self).current.variant) == spec_text_of(text@)),
            name@ == spec_date() || name@ == spec_utc_date() ==> (r is Ok <==> valid_utf8(text@))
                && (r is Ok ==> spec_opt_text(final(self).current.date) == spec_text_of(text@)),
            name@ == spec_white_title() || name@ == spec_black_title() ==> r is Ok
                && final(self).skip == (old(self).skip || raw@ == spec_bot()),
            name@ == spec_site() ==> (r is Ok <==> valid_utf8(spec_after_last_slash(raw@))) && (r is Ok
                ==> spec_opt_text(final(self).current.id) == spec_text_of(spec_after_last_slash(raw@))),
            name@ == spec_result() ==> r is Ok && match spec_result_winner(raw@) {
                Some(w) => final(self).current.winner == w && final(self).skip == old(self).skip,
                None => final(self).skip,
            },
            name@ == spec_fen() && raw@ == spec_start_fen() ==> r is Ok && final(self).current.fen is None,
            name@ == spec_fen() && raw@ != spec_start_fen() ==> (r is Ok <==> valid_utf8(text@)) && (r is Ok
                ==> spec_opt_text(final(self).current.fen) == spec_text_of(text@)),
            !(name@ == spec_white() || name@ == spec_black() || name@ == spec_white_elo() || name@
                == spec_black_elo() || name@ == spec_time_control() || name@ == spec_variant()
                || name@ == spec_date() || name@ == spec_utc_date() || name@ == spec_white_title()
                || name@ == spec_black_title() || name@ == spec_site() || name@ == spec_result()
                || name@ == spec_fen()) ==> r is Ok && *final(self) == *old(self),
    {
        if bytes_are(name, white_bytes().as_slice()) {
            let t = utf8_text(text)?;
            self.current.white.name = Some(t);
        } else if bytes_are(name, black_bytes().as_slice()) {
            let t = utf8_text(text)?;
            self.current.black.name = Some(t);
        } else if bytes_are(name, white_elo_bytes().as_slice()) {
            if !bytes_are(raw, unknown_bytes().as_slice()) {
                match btoi_u16(raw) {
                    Ok(v) => self.current.white.rating = Some(v),
                    Err(_) => return Err(InvalidTag),
                }
            }
        } else if bytes_are(name, black_elo_bytes().as_slice()) {
            if !bytes_are(raw, unknown_bytes().as_slice()) {
                match btoi_u16(raw) {
                    Ok(v) => self.current.black.rating = Some(v),
                    Err(_) => return Err(InvalidTag),
                }
            }
        } else if bytes_are(name, time_control_bytes().as_slice()) {
            match Speed::from_bytes(raw) {
                Ok(sp) => self.current.speed = Some(sp),
                Err(_) => return Err(InvalidTag),
            }
        } else if bytes_are(name, variant_bytes().as_slice()) {
            let t = utf8_text(text)?;
            self.current.variant = Some(t);
        } else if bytes_are(name, date_bytes().as_slice()) || bytes_are(name, utc_date_bytes().as_slice()) {
            let t = utf8_text(text)?;
            self.current.date = Some(t);
        } else if bytes_are(name, white_title_bytes().as_slice()) || bytes_are(name, black_title_bytes().as_slice()) {
            if bytes_are(raw, bot_bytes().as_slice()) {
                self.skip = true;
            }
        } else if bytes_are(name, site_bytes().as_slice()) {
            let id = after_last_slash(raw);
            let t = utf8_text(id.as_slice())?;
            self.current.id = Some(t);
        } else if bytes_are(name, result_bytes().as_slice()) {
            match result_winner(raw) {
                Some(w) => self.current.winner = w,
                None => self.skip = true,
            }
        } else if bytes_are(name, fen_bytes().as_slice()) {
            if bytes_are(raw, start_fen_bytes().as_slice()) {
                self.current.fen = None;
            } else {
                let t = utf8_text(text)?;
                self.current.fen = Some(t);
            }
        }
        Ok(())
    }

    /// The tags are read: a game without both ratings is skipped. Gives
    /// whether the game is skipped.
    pub fn end_tags(&mut self) -> (skip: bool)
        ensures
            skip == final(self).skip,
            final(self).skip == (old(self).skip || old(self).current.white.rating is None
                || old(self).current.black.rating is None),
            final(self).current == old(self).current,
            final(self).batch@ == old(self).batch@,
            final(self).batch_size == old(self).batch_size,
    {
        self.skip = self.skip || self.current.white.rating.is_none() || self.current.black.rating.is_none();
        self.skip
    }

    /// Samples a game of the export once its tags are read: only when both
    /// players are rated above 1500 and the game has an identifier, with a
    /// chance that depends on its variant, speed and mean rating, decided by
    /// the hash of its identifier. Gives whether the game is skipped.
    pub fn end_headers(&mut self) -> (skip: bool)
        ensures
            skip == final(self).skip,
            final(self).skip == !spec_sampled(old(self).current, old(self).skip),
            final(self).current == old(self).current,
            final(self).batch@ == old(self).batch@,
            final(self).batch_size == old(self).batch_size,
    {
        let w: u32 = match self.current.white.rating {
            Some(r) => r as u32,
            None => 0,
        };
        let b: u32 = match self.current.black.rating {
            Some(r) => r as u32,
            None => 0,
        };
        let rating = (w + b) / 2;
        let standard = match &self.current.variant {
            Some(name) => is_standard(name),
            None => true,
        };
        let probability = sample_percent(standard, self.current.speed, rating);
        let lowest = if w < b { w } else { b };
        let accept = lowest >= 1501 && match &self.current.id {
            Some(id) => probability as i32 > java_hash_rem(id.as_str()),
            None => false,
        } && !self.skip;
        self.skip = !accept;
        self.skip
    }

    /// Takes a move of the main line, in SAN.
    pub fn san(&mut self, san: String)
        ensures
            final(self).current.moves@ == old(self).current.moves@.push(san),
            final(self).skip == old(self).skip,
            final(self).batch@ == old(self).batch@,
            final(self).batch_size == old(self).batch_size,
    {
        self.current.moves.push(san);
    }

    /// Variations are skipped: only the main line is read.
    pub fn begin_variation(&self) -> (skip: bool)
        ensures
            skip,
    {
        true
    }

    /// The game is read: unless it is skipped it joins the batch. Gives
    /// whether the batch is full and is to be sent.
    pub fn end_game(&mut self) -> (send: bool)
        ensures
            !old(self).skip ==> final(self).batch@.len() == old(self).batch@.len() + 1,
            !old(self).skip ==> final(self).batch@.drop_last() == old(self).batch@,
            !old(self).skip ==> final(self).batch@.last().moves@ == old(self).current.moves@,
            !old(self).skip ==> final(self).batch@.last().id == old(self).current.id,
            old(self).skip ==> final(self).batch@ == old(self).batch@,
            final(self).batch_size == old(self).batch_size,
            send == (final(self).batch@.len() >= final(self).batch_size),
    {
        if !self.skip {
            let mut g = Game::new();
            std::mem::swap(&mut g, &mut self.current);
            self.batch.push(g);
        }
        self.batch.len() >= self.batch_size
    }

    /// Takes the batch to send, leaving an empty one.
    pub fn take_batch(&mut self) -> (b: Vec<Game>)
        ensures
            b@ == old(self).batch@,
            final(self).batch@.len() == 0,
            final(self).batch_size == old(self).batch_size,
            final(self).current == old(self).current,
            final(self).skip == old(self).skip,
    {
        let mut b: Vec<Game> = Vec::new();
        std::mem::swap(&mut b, &mut self.batch);
        b
    }
}

/// The date of the last game of a batch, or nothing: how far the import
/// got.
pub fn last_month(games: &[Game]) -> (r: Option<&String>)
    ensures
        games@.len() == 0 ==> r is None,
        games@.len() > 0 ==> r == match games@.last().date {
            Some(d) => Some(&d),
            None => None::<&String>,
        },
{
    if games.len() == 0 {
        None
    } else {
        match &games[games.len() - 1].date {
            Some(d) => Some(d),
            None => None,
        }
    }
}

} // verus!
