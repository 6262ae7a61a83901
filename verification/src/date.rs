//! Years and months from 1952 to 3000, and the lax dates of game records,
//! whose month and day may be unknown.
use vstd::prelude::*;
use vstd::string::StringSliceAdditionalSpecFns;

use crate::decimal::{
    decimal_value, is_decimal, is_digit, parse_u16, parse_u8, spec_digits, spec_parse_u16, spec_parse_u8,
    unsigned_digits,
};
use crate::text::{ascii_chars, ascii_string};

verus! {

pub const MIN_YEAR: u16 = 1952;

/// The last year; its last month still fits in sixteen bits.
pub const MAX_YEAR: u16 = 3000;

/// A date cannot be read or is out of range.
#[derive(Debug, Clone, Copy, PartialEq, Eq, Structural)]
pub enum InvalidDate {
    InvalidYear,
    InvalidMonth,
}

/// The decimal digits of `v`, most significant first, without leading
/// zeros.
pub open spec fn spec_dec(v: nat) -> Seq<u8>
    decreases v,
{
    if v < 10 {
        seq![(48 + v) as u8]
    } else {
        spec_dec(v / 10).push((48 + v % 10) as u8)
    }
}

/// The decimal digits of `v`, padded with zeros in front to `width`.
pub open spec fn spec_padded(v: nat, width: nat) -> Seq<u8> {
    let d = spec_dec(v);
    if d.len() < width {
        Seq::new((width - d.len()) as nat, |i: int| 48u8) + d
    } else {
        d
    }
}

proof fn lemma_dec_ascii(v: nat)
    ensures
        forall|i: int| 0 <= i < spec_dec(v).len() ==> 48 <= #[trigger] spec_dec(v)[i] < 58,
        spec_dec(v).len() >= 1,
    decreases v,
{
    if v >= 10 {
        lemma_dec_ascii(v / 10);
    }
}

/// Appends the digits of `v`.
fn push_dec(buf: &mut Vec<u8>, v: u64)
    ensures
        final(buf)@ == old(buf)@ + spec_dec(v as nat),
    decreases v,
{
    if v >= 10 {
        push_dec(buf, v / 10);
    }
    buf.push((48 + v % 10) as u8);
    proof {
        if v >= 10 {
            assert(final(buf)@ =~= old(buf)@ + spec_dec(v as nat));
        } else {
            assert(final(buf)@ =~= old(buf)@ + spec_dec(v as nat));
        }
    }
}

pub open spec fn pow10(k: nat) -> nat
    decreases k,
{
    if k == 0 {
        1
    } else {
        10 * pow10((k - 1) as nat)
    }
}

proof fn lemma_dec_len(v: nat, k: nat)
    requires
        v < pow10(k),
        k >= 1,
    ensures
        spec_dec(v).len() <= k,
        spec_dec(v).len() >= 1,
    decreases v,
{
    if v >= 10 {
        assert(k >= 2) by {
            if k == 0 {
            } else if k == 1 {
                assert(pow10(1) == 10 * pow10(0));
            }
        }
        assert(v / 10 < pow10((k - 1) as nat)) by (nonlinear_arith)
            requires
                v < 10 * pow10((k - 1) as nat),
        ;
        lemma_dec_len(v / 10, (k - 1) as nat);
    } else {
        if k == 0 {
        }
    }
}

/// The number of digits of `v`.
fn dec_len(v: u64) -> (n: usize)
    ensures
        n == spec_dec(v as nat).len(),
        n <= 20,
    decreases v,
{
    proof {
        reveal_with_fuel(pow10, 21);
        lemma_dec_len(v as nat, 20);
    }
    if v >= 10 {
        dec_len(v / 10) + 1
    } else {
        1
    }
}

/// Appends the digits of `v`, padded with zeros in front to `width`.
pub fn push_padded(buf: &mut Vec<u8>, v: u64, width: usize)
    ensures
        final(buf)@ == old(buf)@ + spec_padded(v as nat, width as nat),
        forall|i: int| 0 <= i < spec_padded(v as nat, width as nat).len() ==> 48 <= #[trigger] spec_padded(v as nat, width as nat)[i] < 58,
{
    let n = dec_len(v);
    let ghost start = buf@;
    let mut k: usize = n;
    while k < width
        invariant
            n <= k,
            n < width ==> k <= width,
            n >= width ==> k == n,
            n == spec_dec(v as nat).len(),
            buf@ == start + Seq::new((k - n) as nat, |i: int| 48u8),
        decreases width - k,
    {
        buf.push(48);
        proof {
            assert(buf@ =~= start + Seq::new((k + 1 - n) as nat, |i: int| 48u8));
        }
        k = k + 1;
    }
    push_dec(buf, v);
    proof {
        lemma_dec_ascii(v as nat);
        if n < width {
            assert(buf@ =~= start + spec_padded(v as nat, width as nat));
        } else {
            assert(k == n);
            assert(buf@ =~= start + spec_padded(v as nat, width as nat));
        }
    }
}

/// A year, at most 3000; the years in range are those from 1952.
#[derive(Debug, Clone, Copy, PartialEq, Eq, Structural, PartialOrd, Ord, Hash)]
pub struct Year(u16);

/// A month counted from January of year zero, at most December 3000; the
/// months in range are those from January 1952.
#[derive(Debug, Clone, Copy, PartialEq, Eq, Structural, PartialOrd, Ord, Hash)]
pub struct Month(u16);

impl Year {
    /// No year is after 3000.
    #[verifier::type_invariant]
    spec fn year_inv(self) -> bool {
        self.0 <= MAX_YEAR
    }

    /// The year.
    pub closed spec fn value(self) -> u16 {
        self.0
    }

    /// Every year is at most 3000.
    pub fn check_bound(&self)
        ensures
            self.value() <= MAX_YEAR,
    {
        proof {
            use_type_invariant(self);
        }
    }

    /// The year `y`, as a value of specifications.
    pub closed spec fn spec_from(y: u16) -> Year {
        Year(y)
    }

    pub proof fn lemma_from(y: u16)
        ensures
            Year::spec_from(y).value() == y,
    {
    }

    pub proof fn lemma_eq(a: Year, b: Year)
        requires
            a.value() == b.value(),
        ensures
            a == b,
    {
    }

    /// Whether the year is in range.
    pub open spec fn wf(self) -> bool {
        MIN_YEAR <= self.value() <= MAX_YEAR
    }

    /// 1952.
    pub fn min_value() -> (y: Year)
        ensures
            y.value() == MIN_YEAR,
    {
        Year(MIN_YEAR)
    }

    /// 3000.
    pub fn max_value() -> (y: Year)
        ensures
            y.value() == MAX_YEAR,
    {
        Year(MAX_YEAR)
    }

    /// The last year of the masters database.
    pub fn max_masters() -> (y: Year)
        ensures
            y.value() == 2022,
    {
        Year(2022)
    }

    /// The year `years` later, but at most 3000.
    pub fn add_years_saturating(self, years: u16) -> (y: Year)
        ensures
            y.value() == if self.value() + years > MAX_YEAR {
                MAX_YEAR as int
            } else {
                self.value() + years
            },
    {
        let sum: u32 = self.0 as u32 + years as u32;
        if sum > MAX_YEAR as u32 {
            Year(MAX_YEAR)
        } else {
            Year(sum as u16)
        }
    }

    /// The year as a number.
    pub fn to_u16(self) -> (y: u16)
        ensures
            y == self.value(),
    {
        self.0
    }

    /// The year `year`, if it is from 1952 to 3000.
    pub fn try_from_u16(year: u16) -> (r: Result<Year, InvalidDate>)
        ensures
            MIN_YEAR <= year <= MAX_YEAR ==> (r matches Ok(y) && y.value() == year),
            !(MIN_YEAR <= year <= MAX_YEAR) ==> r == Err::<Year, InvalidDate>(
                InvalidDate::InvalidYear,
            ),
    {
        if MIN_YEAR <= year && year <= MAX_YEAR {
            Ok(Year(year))
        } else {
            Err(InvalidDate::InvalidYear)
        }
    }

    /// The year written in decimal in `s`.
    pub fn parse(s: &[u8]) -> (r: Result<Year, InvalidDate>)
        ensures
            match spec_parse_u16(s@) {
                Some(y) => if MIN_YEAR <= y <= MAX_YEAR {
                    r matches Ok(v) && v.value() == y
                } else {
                    r == Err::<Year, InvalidDate>(InvalidDate::InvalidYear)
                },
                None => r == Err::<Year, InvalidDate>(InvalidDate::InvalidYear),
            },
    {
        match parse_u16(s) {
            Some(y) => Year::try_from_u16(y),
            None => Err(InvalidDate::InvalidYear),
        }
    }
}

impl From<Year> for u16 {
    fn from(year: Year) -> (y: u16) {
        year.0
    }
}

impl vstd::std_specs::convert::FromSpecImpl<Year> for u16 {
    open spec fn obeys_from_spec() -> bool {
        true
    }

    open spec fn from_spec(year: Year) -> u16 {
        year.value()
    }
}

impl std::str::FromStr for Year {
    type Err = InvalidDate;

    fn from_str(s: &str) -> (r: Result<Year, InvalidDate>)
        ensures
            match spec_parse_u16(s.spec_bytes()) {
                Some(y) => if MIN_YEAR <= y <= MAX_YEAR {
                    r matches Ok(v) && v.value() == y
                } else {
                    r == Err::<Year, InvalidDate>(InvalidDate::InvalidYear)
                },
                None => r == Err::<Year, InvalidDate>(InvalidDate::InvalidYear),
            },
    {
        Year::parse(s.as_bytes())
    }
}

/// The number of the month `month0` (from zero) of `year`.
pub open spec fn spec_month_number(year: int, month0: int) -> int {
    year * 12 + month0
}

/// The month written as a year, a `-` or `/`, and the month from `1` to
/// `12`, each as the standard library reads a `u16`.
pub open spec fn spec_parse_month(s: Seq<u8>) -> Option<u16> {
    if exists|i: int| 0 <= i < s.len() && (s[i] == 45 || s[i] == 47) {
        let i = choose|i: int|
            0 <= i < s.len() && (s[i] == 45 || s[i] == 47) && forall|j: int|
                0 <= j < i ==> s[j] != 45 && s[j] != 47;
        match (spec_parse_u16(s.take(i)), spec_parse_u16(s.skip(i + 1))) {
            (Some(y), Some(m)) => if MIN_YEAR <= y <= MAX_YEAR && 1 <= m <= 12 {
                Some((y * 12 + m - 1) as u16)
            } else {
                None
            },
            _ => None,
        }
    } else {
        None
    }
}

/// The written form of a month: the year in four digits, `-`, and the
/// month from `01` to `12`.
pub open spec fn spec_month_text(m: u16) -> Seq<u8> {
    spec_padded((m / 12) as nat, 4) + seq![45u8] + spec_padded((m % 12 + 1) as nat, 2)
}

impl Month {
    /// No month is after December 3000.
    #[verifier::type_invariant]
    spec fn month_inv(self) -> bool {
        self.0 <= MAX_YEAR * 12 + 11
    }

    /// Every month is at most December 3000.
    pub fn check_bound(&self)
        ensures
            self.value() <= MAX_YEAR * 12 + 11,
    {
        proof {
            use_type_invariant(self);
        }
    }

    /// The number of the month, counted from January of year zero.
    pub closed spec fn value(self) -> u16 {
        self.0
    }

    /// The month numbered `m`, as a value of specifications.
    pub closed spec fn spec_from(m: u16) -> Month {
        Month(m)
    }

    pub proof fn lemma_from(m: u16)
        ensures
            Month::spec_from(m).value() == m,
    {
    }

    pub proof fn lemma_eq(a: Month, b: Month)
        requires
            a.value() == b.value(),
        ensures
            a == b,
    {
    }

    /// Whether the month is in range.
    pub open spec fn wf(self) -> bool {
        MIN_YEAR * 12 <= self.value() <= MAX_YEAR * 12 + 11
    }

    /// January of year zero, written `0000-01`: the earliest month a query
    /// can start from, so that a filter from it leaves out no game. It is
    /// below the months in range (`wf`), which are the months that text and
    /// keys are read as and games are stored under, from January 1952.
    pub fn min_value() -> (m: Month)
        ensures
            m.value() == 0,
    {
        Month(0)
    }

    /// December 3000.
    pub fn max_value() -> (m: Month)
        ensures
            m.value() == MAX_YEAR * 12 + 11,
    {
        Month(MAX_YEAR * 12 + 11)
    }

    /// The month `month` (from `1` to `12`) of `year`, with the year
    /// clamped to the range.
    pub fn from_time_saturating(year: i32, month: u8) -> (m: Month)
        requires
            1 <= month <= 12,
        ensures
            m.value() == spec_month_number(
                if year < MIN_YEAR {
                    MIN_YEAR as int
                } else if year > MAX_YEAR {
                    MAX_YEAR as int
                } else {
                    year as int
                },
                month - 1,
            ),
    {
        let y: u16 = if year < MIN_YEAR as i32 {
            MIN_YEAR
        } else if year > MAX_YEAR as i32 {
            MAX_YEAR
        } else {
            year as u16
        };
        Month(y * 12 + (month - 1) as u16)
    }

    /// The month `months` later, but at most December 3000.
    pub fn add_months_saturating(self, months: u16) -> (m: Month)
        ensures
            m.value() == if self.value() + months > MAX_YEAR * 12 + 11 {
                (MAX_YEAR * 12 + 11) as int
            } else {
                self.value() + months
            },
    {
        let sum: u32 = self.0 as u32 + months as u32;
        if sum > (MAX_YEAR * 12 + 11) as u32 {
            Month(MAX_YEAR * 12 + 11)
        } else {
            Month(sum as u16)
        }
    }

    /// The year of the month.
    pub fn year(self) -> (y: Year)
        ensures
            y.value() == self.value() / 12,
    {
        proof {
            use_type_invariant(&self);
        }
        Year(self.0 / 12)
    }

    /// The number of the month.
    pub fn to_u16(self) -> (m: u16)
        ensures
            m == self.value(),
    {
        self.0
    }

    /// The month numbered `month`, if it is in range.
    pub fn try_from_u16(month: u16) -> (r: Result<Month, InvalidDate>)
        ensures
            MIN_YEAR * 12 <= month <= MAX_YEAR * 12 + 11 ==> (r matches Ok(m) && m.value()
                == month),
            !(MIN_YEAR * 12 <= month <= MAX_YEAR * 12 + 11) ==> r == Err::<Month, InvalidDate>(
                InvalidDate::InvalidMonth,
            ),
    {
        if MIN_YEAR * 12 <= month && month <= MAX_YEAR * 12 + 11 {
            Ok(Month(month))
        } else {
            Err(InvalidDate::InvalidMonth)
        }
    }

    /// The month written as `YYYY-MM` or `YYYY/MM`.
    pub fn parse(s: &[u8]) -> (r: Result<Month, InvalidDate>)
        ensures
            match spec_parse_month(s@) {
                Some(m) => r matches Ok(v) && v.value() == m,
                None => r == Err::<Month, InvalidDate>(InvalidDate::InvalidMonth),
            },
    {
        let n = s.len();
        let mut i: usize = 0;
        while i < n && s[i] != 45 && s[i] != 47
            invariant
                n == s@.len(),
                i <= n,
                forall|j: int| 0 <= j < i ==> s@[j] != 45 && s@[j] != 47,
            decreases n - i,
        {
            i = i + 1;
        }
        if i == n {
            return Err(InvalidDate::InvalidMonth);
        }
        proof {
            let c = choose|c: int|
                0 <= c < s@.len() && (s@[c] == 45 || s@[c] == 47) && forall|j: int|
                    0 <= j < c ==> s@[j] != 45 && s@[j] != 47;
            assert(c == i as int) by {
                if c < i {
                } else if c > i {
                    assert(s@[i as int] == 45 || s@[i as int] == 47);
                }
            }
        }
        let year_part = slice_range(s, 0, i);
        let month_part = slice_range(s, i + 1, n);
        let year = match parse_u16(year_part.as_slice()) {
            Some(y) => y,
            None => return Err(InvalidDate::InvalidMonth),
        };
        let month = match parse_u16(month_part.as_slice()) {
            Some(m) => m,
            None => return Err(InvalidDate::InvalidMonth),
        };
        if MIN_YEAR <= year && year <= MAX_YEAR && 1 <= month && month <= 12 {
            Ok(Month(year * 12 + month - 1))
        } else {
            Err(InvalidDate::InvalidMonth)
        }
    }

    /// The month written as `YYYY-MM` (digits).
    pub fn to_text(self) -> (b: Vec<u8>)
        ensures
            b@ == spec_month_text(self.value()),
            forall|i: int| 0 <= i < b@.len() ==> b@[i] < 128,
    {
        let mut b: Vec<u8> = Vec::new();
        push_padded(&mut b, (self.0 / 12) as u64, 4);
        b.push(45);
        push_padded(&mut b, (self.0 % 12 + 1) as u64, 2);
        proof {
            assert(b@ =~= spec_month_text(self.0));
        }
        b
    }

    /// The month written as `YYYY-MM`.
    pub fn to_string(self) -> (s: String)
        ensures
            s@ == ascii_chars(spec_month_text(self.value())),
    {
        let b = self.to_text();
        ascii_string(b.as_slice())
    }
}

/// The bytes of `s` from `a` to `b`.
pub fn slice_range(s: &[u8], a: usize, b: usize) -> (r: Vec<u8>)
    requires
        a <= b <= s@.len(),
    ensures
        r@ == s@.subrange(a as int, b as int),
{
    let mut r: Vec<u8> = Vec::new();
    let mut i = a;
    while i < b
        invariant
            a <= i <= b,
            b <= s@.len(),
            r@ == s@.subrange(a as int, i as int),
        decreases b - i,
    {
        r.push(s[i]);
        proof {
            assert(r@ =~= s@.subrange(a as int, i + 1));
        }
        i = i + 1;
    }
    r
}

impl From<Month> for u16 {
    fn from(month: Month) -> (m: u16) {
        month.0
    }
}

impl vstd::std_specs::convert::FromSpecImpl<Month> for u16 {
    open spec fn obeys_from_spec() -> bool {
        true
    }

    open spec fn from_spec(month: Month) -> u16 {
        month.value()
    }
}

impl std::str::FromStr for Month {
    type Err = InvalidDate;

    fn from_str(s: &str) -> (r: Result<Month, InvalidDate>)
        ensures
            match spec_parse_month(s.spec_bytes()) {
                Some(m) => r matches Ok(v) && v.value() == m,
                None => r == Err::<Month, InvalidDate>(InvalidDate::InvalidMonth),
            },
    {
        Month::parse(s.as_bytes())
    }
}


/// The position of the first `c` in `s`, if there is one.
#[verifier::opaque]
pub open spec fn spec_find(s: Seq<u8>, c: u8) -> Option<int> {
    if exists|i: int| 0 <= i < s.len() && s[i] == c {
        Some(
            choose|i: int|
                0 <= i < s.len() && s[i] == c && forall|j: int| 0 <= j < i ==> s[j] != c,
        )
    } else {
        None
    }
}

proof fn lemma_find_first(s: Seq<u8>, c: u8, i: int)
    requires
        0 <= i < s.len(),
        s[i] == c,
        forall|j: int| 0 <= j < i ==> s[j] != c,
    ensures
        spec_find(s, c) == Some(i),
{
    reveal(spec_find);
    let x = choose|x: int| 0 <= x < s.len() && s[x] == c && forall|j: int| 0 <= j < x ==> s[j] != c;
    assert(x == i) by {
        if x < i {
        } else if x > i {
            assert(s[i] == c);
        }
    }
}

/// The position of the first `c` in `s`, or its length.
pub fn find_byte(s: &[u8], c: u8) -> (r: usize)
    ensures
        r <= s@.len(),
        (r == s@.len()) == (spec_find(s@, c) is None),
        match spec_find(s@, c) {
            Some(i) => r == i,
            None => r == s@.len(),
        },
{
    let n = s.len();
    let mut i: usize = 0;
    while i < n && s[i] != c
        invariant
            n == s@.len(),
            i <= n,
            forall|j: int| 0 <= j < i ==> s@[j] != c,
        decreases n - i,
    {
        i = i + 1;
    }
    proof {
        reveal(spec_find);
        if i < n {
            lemma_find_first(s@, c, i as int);
        }
    }
    i
}

/// A date of a game record: the year, and the month and day if they are
/// known.
#[derive(Debug, Clone, Copy, PartialEq, Eq, Structural)]
pub struct LaxDate {
    year: Year,
    month: Option<u8>,
    day: Option<u8>,
}

/// The parts of a lax date `YYYY.MM.DD`: the text before the first dot,
/// between the first and the second, and after the second, if there are
/// such dots.
pub open spec fn spec_lax_parts(s: Seq<u8>) -> (Seq<u8>, Option<Seq<u8>>, Option<Seq<u8>>) {
    match spec_find(s, 46) {
        None => (s, None, None),
        Some(i) => {
            let rest = s.skip(i + 1);
            match spec_find(rest, 46) {
                None => (s.take(i), Some(rest), None),
                Some(j) => (s.take(i), Some(rest.take(j)), Some(rest.skip(j + 1))),
            }
        },
    }
}

/// The month of a lax date: a number from `1` to `12`.
pub open spec fn spec_lax_month(p: Option<Seq<u8>>) -> Option<u8> {
    match p {
        Some(t) => match spec_parse_u8(t) {
            Some(m) => if 1 <= m <= 12 {
                Some(m)
            } else {
                None
            },
            None => None,
        },
        None => None,
    }
}

/// The day of a lax date: any number that fits in a byte.
pub open spec fn spec_lax_day(p: Option<Seq<u8>>) -> Option<u8> {
    match p {
        Some(t) => spec_parse_u8(t),
        None => None,
    }
}

/// The written form of a lax date: `YYYY.MM.DD`, with `??` for what is
/// unknown.
pub open spec fn spec_lax_text(year: u16, month: Option<u8>, day: Option<u8>) -> Seq<u8> {
    spec_padded(year as nat, 4) + seq![46u8] + match month {
        Some(m) => spec_padded(m as nat, 2),
        None => seq![63u8, 63u8],
    } + seq![46u8] + match day {
        Some(d) => spec_padded(d as nat, 2),
        None => seq![63u8, 63u8],
    }
}

impl LaxDate {
    /// The year.
    pub closed spec fn spec_year(self) -> Year {
        self.year
    }

    /// The month from `1` to `12`, if known.
    pub closed spec fn spec_month(self) -> Option<u8> {
        self.month
    }

    /// The day, if known.
    pub closed spec fn spec_day(self) -> Option<u8> {
        self.day
    }

    /// Whether the year is in range and the month from `1` to `12`.
    pub open spec fn wf(self) -> bool {
        self.spec_year().wf() && (self.spec_month() matches Some(m) ==> 1 <= m <= 12)
    }

    /// Dates are made by `parse` only, so each is well formed.
    #[verifier::type_invariant]
    spec fn inv(self) -> bool {
        self.wf()
    }

    /// A date at hand is well formed.
    pub fn check_wf(self)
        ensures
            self.wf(),
    {
        proof {
            use_type_invariant(&self);
        }
    }

    /// The year.
    pub fn year(self) -> (y: Year)
        ensures
            y == self.spec_year(),
    {
        self.year
    }

    /// The month, if known.
    pub fn month(self) -> (m: Option<Month>)
        ensures
            match self.spec_month() {
                Some(k) => m matches Some(v) && v.value() == self.spec_year().value() * 12 + k - 1,
                None => m is None,
            },
    {
        proof {
            use_type_invariant(&self);
        }
        match self.month {
            Some(m) => Some(Month(self.year.0 * 12 + m as u16 - 1)),
            None => None,
        }
    }

    /// The date written as `YYYY.MM.DD`, where the month and day may be
    /// missing or not numbers (`??`): only the year must be valid.
    pub fn parse(s: &[u8]) -> (r: Result<LaxDate, InvalidDate>)
        ensures
            match Year::spec_parse_text(spec_lax_parts(s@).0) {
                Some(y) => r matches Ok(d) && d.wf() && d.spec_year().value() == y
                    && d.spec_month() == spec_lax_month(spec_lax_parts(s@).1) && d.spec_day()
                    == spec_lax_day(spec_lax_parts(s@).2),
                None => r == Err::<LaxDate, InvalidDate>(InvalidDate::InvalidYear),
            },
    {
        let n = s.len();
        let i = find_byte(s, 46);
        let year_part = slice_range(s, 0, i);
        let ghost parts = spec_lax_parts(s@);
        proof {
            if i == n {
                assert(year_part@ =~= s@);
            } else {
                assert(year_part@ =~= s@.take(i as int));
            }
            assert(year_part@ == parts.0);
        }
        let year = match Year::parse(year_part.as_slice()) {
            Ok(y) => y,
            Err(e) => return Err(InvalidDate::InvalidYear),
        };
        if i == n {
            return Ok(LaxDate { year, month: None, day: None });
        }
        let rest = slice_range(s, i + 1, n);
        proof {
            assert(rest@ =~= s@.skip(i + 1));
        }
        let (month, day) = parse_lax_rest(rest.as_slice());
        Ok(LaxDate { year, month, day })
    }

    /// The date written as `YYYY.MM.DD`, with `??` for what is unknown.
    pub fn to_text(self) -> (b: Vec<u8>)
        ensures
            b@ == spec_lax_text(self.spec_year().value(), self.spec_month(), self.spec_day()),
            forall|i: int| 0 <= i < b@.len() ==> b@[i] < 128,
    {
        let mut b: Vec<u8> = Vec::new();
        push_padded(&mut b, self.year.0 as u64, 4);
        b.push(46);
        let ghost after_year = b@;
        match self.month {
            Some(m) => push_padded(&mut b, m as u64, 2),
            None => {
                b.push(63);
                b.push(63);
            },
        }
        let ghost after_month = b@;
        b.push(46);
        match self.day {
            Some(d) => push_padded(&mut b, d as u64, 2),
            None => {
                b.push(63);
                b.push(63);
            },
        }
        proof {
            assert(b@ =~= spec_lax_text(self.year.0, self.month, self.day));
        }
        b
    }

    /// The date written as `YYYY.MM.DD`, with `??` for what is unknown.
    pub fn to_string(self) -> (s: String)
        ensures
            s@ == ascii_chars(spec_lax_text(self.spec_year().value(), self.spec_month(), self.spec_day())),
    {
        let b = self.to_text();
        ascii_string(b.as_slice())
    }
}

/// The month and day of a lax date from what follows the first dot.
fn parse_lax_rest(rest: &[u8]) -> (r: (Option<u8>, Option<u8>))
    ensures
        r.0 == spec_lax_month(
            match spec_find(rest@, 46) {
                None => Some(rest@),
                Some(j) => Some(rest@.take(j)),
            },
        ),
        r.1 == spec_lax_day(
            match spec_find(rest@, 46) {
                None => None,
                Some(j) => Some(rest@.skip(j + 1)),
            },
        ),
{
    let j = find_byte(rest, 46);
    let month_part = slice_range(rest, 0, j);
    proof {
        if j < rest@.len() {
            assert(month_part@ =~= rest@.take(j as int));
        } else {
            assert(month_part@ =~= rest@);
        }
    }
    let month = match parse_u8(month_part.as_slice()) {
        Some(m) => if 1 <= m && m <= 12 {
            Some(m)
        } else {
            None
        },
        None => None,
    };
    if j == rest.len() {
        return (month, None);
    }
    let day_part = slice_range(rest, j + 1, rest.len());
    proof {
        assert(day_part@ =~= rest@.skip(j + 1));
    }
    (month, parse_u8(day_part.as_slice()))
}

impl Year {
    /// The year written in decimal, if it is in range.
    pub open spec fn spec_parse_text(s: Seq<u8>) -> Option<u16> {
        match spec_parse_u16(s) {
            Some(y) => if MIN_YEAR <= y <= MAX_YEAR {
                Some(y)
            } else {
                None
            },
            None => None,
        }
    }
}

impl std::str::FromStr for LaxDate {
    type Err = InvalidDate;

    fn from_str(s: &str) -> (r: Result<LaxDate, InvalidDate>)
        ensures
            match Year::spec_parse_text(spec_lax_parts(s.spec_bytes()).0) {
                Some(y) => r matches Ok(d) && d.wf() && d.spec_year().value() == y
                    && d.spec_month() == spec_lax_month(spec_lax_parts(s.spec_bytes()).1) && d.spec_day()
                    == spec_lax_day(spec_lax_parts(s.spec_bytes()).2),
                None => r == Err::<LaxDate, InvalidDate>(InvalidDate::InvalidYear),
            },
    {
        LaxDate::parse(s.as_bytes())
    }
}

proof fn lemma_dec_value(v: nat)
    ensures
        is_decimal(spec_dec(v)),
        decimal_value(spec_dec(v)) == v,
    decreases v,
{
    lemma_dec_ascii(v);
    let d = spec_dec(v);
    if v >= 10 {
        lemma_dec_value(v / 10);
        assert(d.drop_last() =~= spec_dec(v / 10));
        assert(d.last() == (48 + v % 10) as u8);
        assert(d.last() - 48 == v % 10);
        assert(decimal_value(d) == 10 * decimal_value(d.drop_last()) + (d.last() - 48) as nat);
    } else {
        assert(d.drop_last() =~= Seq::<u8>::empty());
        assert(d.last() - 48 == v);
        assert(decimal_value(d) == 10 * decimal_value(d.drop_last()) + (d.last() - 48) as nat);
    }
}

proof fn lemma_zeros_value(k: nat)
    ensures
        decimal_value(Seq::new(k, |i: int| 48u8)) == 0,
    decreases k,
{
    if k > 0 {
        lemma_zeros_value((k - 1) as nat);
        assert(Seq::new(k, |i: int| 48u8).drop_last() =~= Seq::new((k - 1) as nat, |i: int| 48u8));
    }
}

proof fn lemma_zeros_prefix_value(k: nat, d: Seq<u8>)
    ensures
        decimal_value(Seq::new(k, |i: int| 48u8) + d) == decimal_value(d),
    decreases d.len(),
{
    let z = Seq::new(k, |i: int| 48u8);
    if d.len() == 0 {
        assert(z + d =~= z);
        lemma_zeros_value(k);
    } else {
        lemma_zeros_prefix_value(k, d.drop_last());
        assert((z + d).drop_last() =~= z + d.drop_last());
    }
}

/// The digits of `v` padded to a width read back as `v`.
proof fn lemma_padded_value(v: nat, width: nat)
    ensures
        is_decimal(spec_padded(v, width)),
        decimal_value(spec_padded(v, width)) == v,
        unsigned_digits(spec_padded(v, width)) == spec_padded(v, width),
{
    let d = spec_dec(v);
    lemma_dec_value(v);
    if d.len() < width {
        let z = Seq::new((width - d.len()) as nat, |i: int| 48u8);
        lemma_zeros_prefix_value((width - d.len()) as nat, d);
        assert forall|i: int| 0 <= i < (z + d).len() implies is_digit(#[trigger] (z + d)[i]) by {
            if i >= z.len() {
                assert((z + d)[i] == d[i - z.len()]);
            }
        }
    }
    assert(is_digit(spec_padded(v, width)[0]));
}

proof fn lemma_parse_padded(v: nat, width: nat)
    ensures
        v <= 0xffff ==> spec_parse_u16(spec_padded(v, width)) == Some(v as u16),
        v <= 0xff ==> spec_parse_u8(spec_padded(v, width)) == Some(v as u8),
{
    lemma_padded_value(v, width);
    reveal(spec_digits);
}

/// Every byte of a padded number is a digit, so none is a separator.
proof fn lemma_padded_digits(v: nat, width: nat)
    ensures
        forall|i: int| 0 <= i < spec_padded(v, width).len() ==> is_digit(#[trigger] spec_padded(v, width)[i]),
{
    lemma_padded_value(v, width);
}

/// Reading the written form of a month gives the month back: `Month::parse`
/// of `Month::to_text` is the month itself.
pub proof fn lemma_month_text_roundtrip(m: u16)
    requires
        MIN_YEAR * 12 <= m <= MAX_YEAR * 12 + 11,
    ensures
        spec_parse_month(spec_month_text(m)) == Some(m),
{
    let p = spec_padded((m / 12) as nat, 4);
    let q = spec_padded((m % 12 + 1) as nat, 2);
    let s = spec_month_text(m);
    lemma_parse_padded((m / 12) as nat, 4);
    lemma_parse_padded((m % 12 + 1) as nat, 2);
    lemma_padded_digits((m / 12) as nat, 4);
    let i = p.len() as int;
    assert(s[i] == 45);
    assert(forall|j: int| 0 <= j < i ==> s[j] == p[j]);
    let c = choose|c: int|
        0 <= c < s.len() && (s[c] == 45 || s[c] == 47) && forall|j: int|
            0 <= j < c ==> s[j] != 45 && s[j] != 47;
    assert(c == i) by {
        if c < i {
            assert(is_digit(p[c]));
        } else if c > i {
            assert(s[i] == 45);
        }
    }
    assert(s.take(i) =~= p);
    assert(s.skip(i + 1) =~= q);
}

/// A month or day field of a lax date: the number padded to two digits,
/// or `??`.
spec fn spec_lax_field(x: Option<u8>) -> Seq<u8> {
    match x {
        Some(v) => spec_padded(v as nat, 2),
        None => seq![63u8, 63u8],
    }
}

proof fn lemma_lax_field(x: Option<u8>)
    ensures
        forall|i: int| 0 <= i < spec_lax_field(x).len() ==> #[trigger] spec_lax_field(x)[i] != 46,
        spec_parse_u8(spec_lax_field(x)) == x,
{
    match x {
        Some(v) => {
            lemma_parse_padded(v as nat, 2);
            lemma_padded_digits(v as nat, 2);
        },
        None => {
            let t = seq![63u8, 63u8];
            assert(unsigned_digits(t) == t);
            assert(!is_digit(t[0]));
            reveal(spec_digits);
        },
    }
}

/// Reading the written form of a well-formed lax date gives its year,
/// month and day back: `LaxDate::parse` of `LaxDate::to_text` is the date
/// itself.
pub proof fn lemma_lax_date_text_roundtrip(year: u16, month: Option<u8>, day: Option<u8>)
    requires
        MIN_YEAR <= year <= MAX_YEAR,
        month matches Some(m) ==> 1 <= m <= 12,
    ensures
        Year::spec_parse_text(spec_lax_parts(spec_lax_text(year, month, day)).0) == Some(year),
        spec_lax_month(spec_lax_parts(spec_lax_text(year, month, day)).1) == month,
        spec_lax_day(spec_lax_parts(spec_lax_text(year, month, day)).2) == day,
{
    let p = spec_padded(year as nat, 4);
    let mt = spec_lax_field(month);
    let dt = spec_lax_field(day);
    let s = spec_lax_text(year, month, day);
    assert(s =~= p + seq![46u8] + mt + seq![46u8] + dt);
    lemma_parse_padded(year as nat, 4);
    lemma_padded_digits(year as nat, 4);
    lemma_lax_field(month);
    lemma_lax_field(day);
    let i = p.len() as int;
    assert(forall|j: int| 0 <= j < i ==> s[j] == p[j]);
    assert forall|j: int| 0 <= j < i implies s[j] != 46 by {
        assert(is_digit(p[j]));
    }
    lemma_find_first(s, 46, i);
    let rest = s.skip(i + 1);
    assert(rest =~= mt + seq![46u8] + dt);
    let k = mt.len() as int;
    assert(forall|j: int| 0 <= j < k ==> rest[j] == mt[j]);
    lemma_find_first(rest, 46, k);
    assert(s.take(i) =~= p);
    assert(rest.take(k) =~= mt);
    assert(rest.skip(k + 1) =~= dt);
}

/// Whether `y` is a leap year of the Gregorian calendar.
pub open spec fn spec_leap(y: int) -> bool {
    (y % 4 == 0 && y % 100 != 0) || y % 400 == 0
}

/// The number of days of the year `y`.
pub open spec fn spec_year_days(y: int) -> int {
    if spec_leap(y) {
        366
    } else {
        365
    }
}

/// The number of days of the month `m` (from `1` to `12`) of the year `y`.
pub open spec fn spec_month_days(y: int, m: int) -> int {
    if m == 2 {
        if spec_leap(y) {
            29
        } else {
            28
        }
    } else if m == 4 || m == 6 || m == 9 || m == 11 {
        30
    } else {
        31
    }
}

/// The days from 1 January 1970 to 1 January of `y`, from 1970 on.
pub open spec fn spec_days_to_year(y: int) -> int
    decreases y - 1970,
{
    if y <= 1970 {
        0
    } else {
        spec_days_to_year(y - 1) + spec_year_days(y - 1)
    }
}

/// The days from 1 January to the first of the month `m` of the year `y`.
pub open spec fn spec_days_to_month(y: int, m: int) -> int
    decreases m,
{
    if m <= 1 {
        0
    } else {
        spec_days_to_month(y, m - 1) + spec_month_days(y, m - 1)
    }
}

/// The number of milliseconds of a day.
pub const MILLIS_PER_DAY: u64 = 86_400_000;

fn year_days(y: u64) -> (n: u64)
    ensures
        n == spec_year_days(y as int),
{
    if (y % 4 == 0 && y % 100 != 0) || y % 400 == 0 {
        366
    } else {
        365
    }
}

fn month_days(y: u64, m: u8) -> (n: u64)
    ensures
        n == spec_month_days(y as int, m as int),
{
    if m == 2 {
        if (y % 4 == 0 && y % 100 != 0) || y % 400 == 0 {
            29
        } else {
            28
        }
    } else if m == 4 || m == 6 || m == 9 || m == 11 {
        30
    } else {
        31
    }
}

proof fn lemma_days_to_year_grows(y: int)
    requires
        y >= 1970,
    ensures
        spec_days_to_year(y) >= 365 * (y - 1970),
    decreases y - 1970,
{
    if y > 1970 {
        lemma_days_to_year_grows(y - 1);
    }
}

proof fn lemma_year_of_months(y: int)
    ensures
        spec_days_to_month(y, 13) == spec_year_days(y),
{
    reveal_with_fuel(spec_days_to_month, 13);
}

/// The year and the month (from `1` to `12`) of the day of a time given in
/// milliseconds since 1 January 1970, in the Gregorian calendar.
pub fn year_month_of_millis(millis: u64) -> (r: (i32, u8))
    ensures
        1970 <= r.0,
        1 <= r.1 <= 12,
        ({
            let days = (millis / MILLIS_PER_DAY) as int;
            let first = spec_days_to_year(r.0 as int) + spec_days_to_month(r.0 as int, r.1 as int);
            first <= days < first + spec_month_days(r.0 as int, r.1 as int)
        }),
{
    let days = millis / MILLIS_PER_DAY;
    let mut y: u64 = 1970;
    let mut rest: u64 = days;
    while rest >= year_days(y)
        invariant
            1970 <= y,
            rest + spec_days_to_year(y as int) == days,
            days == millis / MILLIS_PER_DAY,
            days <= u64::MAX / MILLIS_PER_DAY,
        decreases rest,
    {
        proof {
            lemma_days_to_year_grows(y as int);
            assert(365 * (y - 1970) <= days);
        }
        rest = rest - year_days(y);
        y = y + 1;
    }
    proof {
        lemma_days_to_year_grows(y as int);
        assert(365 * (y - 1970) <= days);
        lemma_year_of_months(y as int);
    }
    let mut m: u8 = 1;
    while m < 12 && rest >= month_days(y, m)
        invariant
            1 <= m <= 12,
            rest + spec_days_to_month(y as int, m as int) + spec_days_to_year(y as int) == days,
            spec_days_to_month(y as int, m as int) + rest < spec_year_days(y as int),
            spec_days_to_month(y as int, 13) == spec_year_days(y as int),
        decreases 12 - m,
    {
        rest = rest - month_days(y, m);
        m = m + 1;
    }
    (y as i32, m)
}

} // verus!
