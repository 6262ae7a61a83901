//! Win, draw and loss counts of the games that reached a position, with the
//! sum of the ratings that they were played at.
use vstd::prelude::*;

use crate::buf::Reader;
use crate::chess::{Color, Outcome};
use crate::uint::{
    encode_uint, lemma_read_uint_len, lemma_skip_concat, lemma_skip_skip, lemma_uint_roundtrip,
    read_uint, spec_read_uint, write_uint,
};

verus! {

#[derive(Clone, Copy, Debug, PartialEq, Eq, Structural)]
pub struct Stats {
    pub rating_sum: u64,
    pub white: u64,
    pub draws: u64,
    pub black: u64,
}

/// No game at all.
pub open spec fn spec_empty_stats() -> Stats {
    Stats { rating_sum: 0, white: 0, draws: 0, black: 0 }
}

/// The number of games.
pub open spec fn spec_total(s: Stats) -> int {
    s.white + s.draws + s.black
}

/// Whether adding `b` to `a` stays within the counters' range.
pub open spec fn spec_can_add(a: Stats, b: Stats) -> bool {
    &&& a.rating_sum + b.rating_sum <= u64::MAX
    &&& a.white + b.white <= u64::MAX
    &&& a.draws + b.draws <= u64::MAX
    &&& a.black + b.black <= u64::MAX
}

/// The counts of `a` and `b` together.
pub open spec fn spec_add(a: Stats, b: Stats) -> Stats {
    Stats {
        rating_sum: (a.rating_sum + b.rating_sum) as u64,
        white: (a.white + b.white) as u64,
        draws: (a.draws + b.draws) as u64,
        black: (a.black + b.black) as u64,
    }
}

/// Every count of `b` is at most that of `a`.
pub open spec fn spec_le(b: Stats, a: Stats) -> bool {
    b.rating_sum <= a.rating_sum && b.white <= a.white && b.draws <= a.draws && b.black
        <= a.black
}

/// The counts of `a` without those of `b`.
pub open spec fn spec_minus(a: Stats, b: Stats) -> Stats {
    Stats {
        rating_sum: (a.rating_sum - b.rating_sum) as u64,
        white: (a.white - b.white) as u64,
        draws: (a.draws - b.draws) as u64,
        black: (a.black - b.black) as u64,
    }
}

/// One game with `outcome`, played at `rating`.
pub open spec fn spec_single(outcome: Outcome, rating: u16) -> Stats {
    Stats {
        rating_sum: rating as u64,
        white: if outcome.spec_winner() == Some(Color::White) { 1 } else { 0 },
        black: if outcome.spec_winner() == Some(Color::Black) { 1 } else { 0 },
        draws: if outcome.spec_winner() is None { 1 } else { 0 },
    }
}

/// The written form of the counts: `0`, `1` or `2` for a single white win,
/// black win or draw, or else the white wins plus three, the draws and the
/// black wins, each a variable-length integer.
pub open spec fn spec_counts_bytes(s: Stats) -> Seq<u8> {
    if s.white == 1 && s.draws == 0 && s.black == 0 {
        encode_uint(0)
    } else if s.white == 0 && s.draws == 0 && s.black == 1 {
        encode_uint(1)
    } else if s.white == 0 && s.draws == 1 && s.black == 0 {
        encode_uint(2)
    } else {
        encode_uint((s.white + 3) as nat) + encode_uint(s.draws as nat) + encode_uint(
            s.black as nat,
        )
    }
}

/// The written form: the rating sum as a variable-length integer, then the
/// counts.
pub open spec fn spec_stats_bytes(s: Stats) -> Seq<u8> {
    encode_uint(s.rating_sum as nat) + spec_counts_bytes(s)
}

/// Reading written counts from the front of `b`: white wins, draws and
/// black wins, and the number of bytes they take.
pub open spec fn spec_read_counts(b: Seq<u8>) -> Option<((u64, u64, u64), nat)> {
    match spec_read_uint(b) {
        None => None,
        Some((k, l2)) => if k == 0 {
            Some(((1u64, 0u64, 0u64), l2))
        } else if k == 1 {
            Some(((0u64, 0u64, 1u64), l2))
        } else if k == 2 {
            Some(((0u64, 1u64, 0u64), l2))
        } else {
            match spec_read_uint(b.skip(l2 as int)) {
                None => None,
                Some((draws, l3)) => match spec_read_uint(b.skip((l2 + l3) as int)) {
                    None => None,
                    Some((black, l4)) => Some((((k - 3) as u64, draws, black), l2 + l3 + l4)),
                },
            }
        },
    }
}

/// Reading the written form from the front of `b`: the counts and the
/// number of bytes they take.
pub open spec fn spec_read_stats(b: Seq<u8>) -> Option<(Stats, nat)> {
    match spec_read_uint(b) {
        None => None,
        Some((rating_sum, l1)) => match spec_read_counts(b.skip(l1 as int)) {
            None => None,
            Some(((white, draws, black), l)) => Some(
                (Stats { rating_sum, white, draws, black }, l1 + l),
            ),
        },
    }
}

/// The average rating, rounded half away from zero, saturated to `u16`.
pub open spec fn spec_average_rating(s: Stats) -> Option<u16> {
    let t = spec_total(s);
    if t > 0 {
        let avg = (2 * s.rating_sum + t) / (2 * t);
        Some(if avg > 0xffff { 0xffff } else { avg as u16 })
    } else {
        None
    }
}

/// The rating differences by percentage score of the FIDE handbook (B.02.10,
/// table 8.1.a), from 0% to 100%.
pub open spec fn spec_deltas() -> Seq<i32> {
    seq![
        -800i32, -677i32, -589i32, -538i32, -501i32, -470i32, -444i32, -422i32, -401i32,
        -383i32, -366i32, -351i32, -336i32, -322i32, -309i32, -296i32, -284i32, -273i32,
        -262i32, -251i32, -240i32, -230i32, -220i32, -211i32, -202i32, -193i32, -184i32,
        -175i32, -166i32, -158i32, -149i32, -141i32, -133i32, -125i32, -117i32, -110i32,
        -102i32, -95i32, -87i32, -80i32, -72i32, -65i32, -57i32, -50i32, -43i32, -36i32, -29i32,
        -21i32, -14i32, -7i32, 0i32, 7i32, 14i32, 21i32, 29i32, 36i32, 43i32, 50i32, 57i32,
        65i32, 72i32, 80i32, 87i32, 95i32, 102i32, 110i32, 117i32, 125i32, 133i32, 141i32,
        149i32, 158i32, 166i32, 175i32, 184i32, 193i32, 202i32, 211i32, 220i32, 230i32, 240i32,
        251i32, 262i32, 273i32, 284i32, 296i32, 309i32, 322i32, 336i32, 351i32, 366i32, 383i32,
        401i32, 422i32, 444i32, 470i32, 501i32, 538i32, 589i32, 677i32, 800i32,
    ]
}

/// `n / d` rounded half away from zero.
pub open spec fn round_div(n: int, d: int) -> int {
    if n >= 0 {
        (2 * n + d) / (2 * d)
    } else {
        -((2 * (-n) + d) / (2 * d))
    }
}

/// `v` saturated to the range of `i32`.
pub open spec fn clamp_i32(v: int) -> i32 {
    if v < i32::MIN {
        i32::MIN
    } else if v > i32::MAX {
        i32::MAX
    } else {
        v as i32
    }
}

/// The performance rating of the player of `color` against opponents of the
/// average rating: that average plus the rating difference for the
/// player's percentage score, interpolated linearly between whole
/// percentages, rounded half away from zero.
pub open spec fn spec_performance(s: Stats, color: Color) -> Option<i32> {
    let t = spec_total(s);
    if t > 0 {
        let won = if color == Color::White { s.white } else { s.black };
        let score = 100 * won + 50 * s.draws;
        let idx = score / t;
        let r = score % t;
        let lo = spec_deltas()[idx] as int;
        let hi = if idx + 1 < 101 { spec_deltas()[idx + 1] as int } else { 800 };
        Some(clamp_i32(round_div(s.rating_sum + lo * (t - r) + hi * r, t)))
    } else {
        None
    }
}

impl Default for Stats {
    fn default() -> (s: Stats)
        ensures
            s == spec_empty_stats(),
    {
        Stats { rating_sum: 0, white: 0, draws: 0, black: 0 }
    }
}

impl Stats {
    /// The counts `white`, `draws` and `black` with the rating sum
    /// `rating_sum`.
    pub fn from_counts(rating_sum: u64, white: u64, draws: u64, black: u64) -> (s: Stats)
        ensures
            s == (Stats { rating_sum, white, draws, black }),
    {
        Stats { rating_sum, white, draws, black }
    }

    /// One game with `outcome`, played at `rating`.
    pub fn new_single(outcome: Outcome, rating: u16) -> (s: Stats)
        ensures
            s == spec_single(outcome, rating),
    {
        let w = outcome.winner();
        Stats {
            rating_sum: rating as u64,
            white: if w == Some(Color::White) { 1 } else { 0 },
            black: if w == Some(Color::Black) { 1 } else { 0 },
            draws: if w.is_none() { 1 } else { 0 },
        }
    }

    /// Adds the counts of `rhs`.
    pub fn add_assign(&mut self, rhs: &Stats)
        requires
            spec_can_add(*old(self), *rhs),
        ensures
            *final(self) == spec_add(*old(self), *rhs),
    {
        self.rating_sum = self.rating_sum + rhs.rating_sum;
        self.white = self.white + rhs.white;
        self.draws = self.draws + rhs.draws;
        self.black = self.black + rhs.black;
    }

    /// Whether `rhs` can be added without a counter overflowing.
    pub fn can_add(&self, rhs: &Stats) -> (b: bool)
        ensures
            b == spec_can_add(*self, *rhs),
    {
        self.rating_sum <= u64::MAX - rhs.rating_sum && self.white <= u64::MAX - rhs.white
            && self.draws <= u64::MAX - rhs.draws && self.black <= u64::MAX - rhs.black
    }

    /// The counts without those of `other`, which are at most these.
    pub fn minus(&self, other: &Stats) -> (s: Stats)
        requires
            spec_le(*other, *self),
        ensures
            s == spec_minus(*self, *other),
    {
        Stats {
            rating_sum: self.rating_sum - other.rating_sum,
            white: self.white - other.white,
            black: self.black - other.black,
            draws: self.draws - other.draws,
        }
    }

    /// The number of games.
    pub fn total(&self) -> (t: u64)
        requires
            spec_total(*self) <= u64::MAX,
        ensures
            t == spec_total(*self),
    {
        self.white + self.draws + self.black
    }

    /// Whether there is no game.
    pub fn is_empty(&self) -> (b: bool)
        ensures
            b == (spec_total(*self) == 0),
    {
        self.white == 0 && self.draws == 0 && self.black == 0
    }

    /// Whether there is exactly one game.
    pub fn is_single(&self) -> (b: bool)
        ensures
            b == (spec_total(*self) == 1),
    {
        (self.white == 1 && self.draws == 0 && self.black == 0) || (self.white == 0 && self.draws
            == 1 && self.black == 0) || (self.white == 0 && self.draws == 0 && self.black == 1)
    }

    pub fn white(&self) -> (n: u64)
        ensures
            n == self.white,
    {
        self.white
    }

    pub fn black(&self) -> (n: u64)
        ensures
            n == self.black,
    {
        self.black
    }

    pub fn draws(&self) -> (n: u64)
        ensures
            n == self.draws,
    {
        self.draws
    }

    /// The average rating of the games, if there is any.
    pub fn average_rating(&self) -> (r: Option<u16>)
        ensures
            r == spec_average_rating(*self),
    {
        let t: u128 = self.white as u128 + self.draws as u128 + self.black as u128;
        if t > 0 {
            let avg: u128 = (2 * (self.rating_sum as u128) + t) / (2 * t);
            Some(if avg > 0xffff { 0xffff } else { avg as u16 })
        } else {
            None
        }
    }

    /// The performance rating of the player of `color`, if there is any
    /// game.
    pub fn performance(&self, color: Color) -> (r: Option<i32>)
        ensures
            r == spec_performance(*self, color),
    {
        let deltas: [i32; 101] = [
            -800, -677, -589, -538, -501, -470, -444, -422, -401, -383, -366, -351, -336, -322,
            -309, -296, -284, -273, -262, -251, -240, -230, -220, -211, -202, -193, -184, -175,
            -166, -158, -149, -141, -133, -125, -117, -110, -102, -95, -87, -80, -72, -65, -57,
            -50, -43, -36, -29, -21, -14, -7, 0, 7, 14, 21, 29, 36, 43, 50, 57, 65, 72, 80, 87, 95,
            102, 110, 117, 125, 133, 141, 149, 158, 166, 175, 184, 193, 202, 211, 220, 230, 240,
            251, 262, 273, 284, 296, 309, 322, 336, 351, 366, 383, 401, 422, 444, 470, 501, 538,
            589, 677, 800,
        ];
        assert(deltas@ =~= spec_deltas());
        let t: i128 = self.white as i128 + self.draws as i128 + self.black as i128;
        if t == 0 {
            return None;
        }
        let won: i128 = color.fold_wb(self.white, self.black) as i128;
        let score: i128 = 100 * won + 50 * (self.draws as i128);
        assert(score <= 100 * t);
        let idx: i128 = score / t;
        let r: i128 = score % t;
        assert(0 <= idx <= 100) by (nonlinear_arith)
            requires
                0 <= score <= 100 * t,
                t > 0,
                idx == score / t,
        ;
        assert(0 <= r < t);
        let lo = deltas[idx as usize] as i128;
        let hi = if idx + 1 < 101 { deltas[(idx + 1) as usize] as i128 } else { 800 };
        assert(-800 * t <= lo * (t - r) <= 800 * t) by (nonlinear_arith)
            requires
                -800 <= lo <= 800,
                0 < t - r <= t,
        ;
        assert(-800 * t <= hi * r <= 800 * t) by (nonlinear_arith)
            requires
                -800 <= hi <= 800,
                0 <= r < t,
        ;
        let n: i128 = self.rating_sum as i128 + lo * (t - r) + hi * r;
        let q: i128 = if n >= 0 {
            (2 * n + t) / (2 * t)
        } else {
            -((2 * (-n) + t) / (2 * t))
        };
        Some(if q < i32::MIN as i128 {
            i32::MIN
        } else if q > i32::MAX as i128 {
            i32::MAX
        } else {
            q as i32
        })
    }

    /// Reads counts in their written form. When they cannot be read, the
    /// reader is left anywhere.
    pub fn read(reader: &mut Reader) -> (r: Option<Stats>)
        ensures
            match spec_read_stats(old(reader)@) {
                None => r is None,
                Some((s, l)) => r == Some(s) && final(reader)@ == old(reader)@.skip(l as int),
            },
    {
        let ghost b = reader@;
        proof {
            lemma_read_uint_len(b);
        }
        let rating_sum = match read_uint(reader) {
            Some(v) => v,
            None => return None,
        };
        let ghost l1 = spec_read_uint(b).unwrap().1;
        let counts = read_counts(reader);
        proof {
            if let Some(((w, d, bl), l)) = spec_read_counts(b.skip(l1 as int)) {
                lemma_skip_skip(b, l1, l);
            }
        }
        match counts {
            Some((white, draws, black)) => Some(Stats { rating_sum, white, draws, black }),
            None => None,
        }
    }

    /// Appends the written form. The white wins plus three must fit in
    /// 64 bits.
    pub fn write(&self, buf: &mut Vec<u8>)
        requires
            self.white + 3 <= u64::MAX,
        ensures
            final(buf)@ == old(buf)@ + spec_stats_bytes(*self),
    {
        let ghost start = buf@;
        write_uint(buf, self.rating_sum);
        if self.white == 1 && self.draws == 0 && self.black == 0 {
            write_uint(buf, 0);
        } else if self.white == 0 && self.draws == 0 && self.black == 1 {
            write_uint(buf, 1);
        } else if self.white == 0 && self.draws == 1 && self.black == 0 {
            write_uint(buf, 2);
        } else {
            write_uint(buf, self.white + 3);
            write_uint(buf, self.draws);
            write_uint(buf, self.black);
        }
        proof {
            assert(buf@ =~= start + spec_stats_bytes(*self));
        }
    }
}

/// Reads the counts that follow the rating sum.
fn read_counts(reader: &mut Reader) -> (r: Option<(u64, u64, u64)>)
    ensures
        match spec_read_counts(old(reader)@) {
            None => r is None,
            Some((c, l)) => r == Some(c) && l <= old(reader)@.len() && final(reader)@ == old(
                reader,
            )@.skip(l as int),
        },
{
    let ghost b = reader@;
    proof {
        lemma_read_uint_len(b);
    }
    let k = match read_uint(reader) {
        Some(v) => v,
        None => return None,
    };
    let ghost l2 = spec_read_uint(b).unwrap().1;
    if k == 0 {
        Some((1, 0, 0))
    } else if k == 1 {
        Some((0, 0, 1))
    } else if k == 2 {
        Some((0, 1, 0))
    } else {
        proof {
            lemma_read_uint_len(b.skip(l2 as int));
        }
        let draws = match read_uint(reader) {
            Some(v) => v,
            None => return None,
        };
        let ghost l3 = spec_read_uint(b.skip(l2 as int)).unwrap().1;
        proof {
            lemma_skip_skip(b, l2, l3);
            lemma_read_uint_len(b.skip((l2 + l3) as int));
        }
        let black = match read_uint(reader) {
            Some(v) => v,
            None => return None,
        };
        let ghost l4 = spec_read_uint(b.skip((l2 + l3) as int)).unwrap().1;
        proof {
            lemma_skip_skip(b, l2 + l3, l4);
        }
        Some((k - 3, draws, black))
    }
}

/// Reading back written counts gives the same counts and consumes exactly
/// what was written, whatever follows.
pub proof fn lemma_stats_roundtrip(s: Stats, t: Seq<u8>)
    requires
        s.white + 3 <= u64::MAX,
    ensures
        spec_read_stats(spec_stats_bytes(s) + t) == Some((s, spec_stats_bytes(s).len())),
{
    let e0 = encode_uint(s.rating_sum as nat);
    let c = spec_counts_bytes(s);
    let b = spec_stats_bytes(s) + t;
    assert(b =~= e0 + (c + t));
    lemma_uint_roundtrip(s.rating_sum, c + t);
    lemma_skip_concat(e0, c + t);
    lemma_counts_roundtrip(s, t);
}

proof fn lemma_counts_roundtrip(s: Stats, t: Seq<u8>)
    requires
        s.white + 3 <= u64::MAX,
    ensures
        spec_read_counts(spec_counts_bytes(s) + t) == Some(
            ((s.white, s.draws, s.black), spec_counts_bytes(s).len()),
        ),
{
    if s.white == 1 && s.draws == 0 && s.black == 0 {
        lemma_uint_roundtrip(0, t);
    } else if s.white == 0 && s.draws == 0 && s.black == 1 {
        lemma_uint_roundtrip(1, t);
    } else if s.white == 0 && s.draws == 1 && s.black == 0 {
        lemma_uint_roundtrip(2, t);
    } else {
        let e1 = encode_uint((s.white + 3) as nat);
        let e2 = encode_uint(s.draws as nat);
        let e3 = encode_uint(s.black as nat);
        let b = spec_counts_bytes(s) + t;
        assert(b =~= e1 + (e2 + (e3 + t)));
        lemma_uint_roundtrip((s.white + 3) as u64, e2 + (e3 + t));
        lemma_skip_concat(e1, e2 + (e3 + t));
        lemma_uint_roundtrip(s.draws, e3 + t);
        assert(b.skip((e1.len() + e2.len()) as int) =~= e3 + t);
        lemma_uint_roundtrip(s.black, t);
    }
}

/// Reading counts takes at least one byte and at most what there is.
pub proof fn lemma_read_stats_len(b: Seq<u8>)
    ensures
        spec_read_stats(b) matches Some((s, l)) ==> 1 <= l <= b.len(),
{
    lemma_read_uint_len(b);
    if let Some((r, l1)) = spec_read_uint(b) {
        let c = b.skip(l1 as int);
        lemma_read_uint_len(c);
        if let Some((k, l2)) = spec_read_uint(c) {
            if k > 2 {
                lemma_read_uint_len(c.skip(l2 as int));
                if let Some((d, l3)) = spec_read_uint(c.skip(l2 as int)) {
                    lemma_read_uint_len(c.skip((l2 + l3) as int));
                }
            }
        }
    }
}

/// Adding counts to no games gives those counts.
pub proof fn lemma_add_empty(s: Stats)
    ensures
        spec_can_add(spec_empty_stats(), s),
        spec_add(spec_empty_stats(), s) == s,
{
}

/// The number of games is the white wins, the draws and the black wins
/// together: none exactly when all three are zero, one exactly when one of
/// them is one and the others zero. A single game counts one game: a win
/// for its winner, or a draw.
pub proof fn lemma_stats_total(s: Stats, outcome: Outcome, rating: u16)
    ensures
        spec_total(s) == s.white + s.draws + s.black,
        (spec_total(s) == 0) <==> (s.white == 0 && s.draws == 0 && s.black == 0),
        (spec_total(s) == 1) <==> ((s.white == 1 && s.draws == 0 && s.black == 0) || (s.white == 0
            && s.draws == 1 && s.black == 0) || (s.white == 0 && s.draws == 0 && s.black == 1)),
        spec_total(spec_single(outcome, rating)) == 1,
        spec_single(outcome, rating).white == 1 <==> outcome.spec_winner() == Some(Color::White),
        spec_single(outcome, rating).black == 1 <==> outcome.spec_winner() == Some(Color::Black),
        spec_single(outcome, rating).draws == 1 <==> outcome.spec_winner() is None,
        spec_single(outcome, rating).rating_sum == rating,
{
}

} // verus!
