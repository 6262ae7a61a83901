//! Unsigned decimal numbers written in ASCII.
use vstd::prelude::*;

verus! {

pub open spec fn is_digit(b: u8) -> bool {
    48 <= b <= 57
}

/// Whether `s` is a non-empty run of decimal digits.
pub open spec fn is_decimal(s: Seq<u8>) -> bool {
    s.len() > 0 && forall|i: int| 0 <= i < s.len() ==> is_digit(#[trigger] s[i])
}

/// The value of a run of decimal digits, most significant first.
pub open spec fn decimal_value(s: Seq<u8>) -> nat
    decreases s.len(),
{
    if s.len() == 0 {
        0
    } else {
        10 * decimal_value(s.drop_last()) + (s.last() - 48) as nat
    }
}

/// The value of a non-empty run of digits that is at most `max`.
#[verifier::opaque]
pub open spec fn spec_digits(s: Seq<u8>, max: nat) -> Option<nat> {
    if is_decimal(s) && decimal_value(s) <= max {
        Some(decimal_value(s))
    } else {
        None
    }
}

/// The digits of an unsigned number as the standard library reads it: an
/// optional leading `+`, then the digits.
pub open spec fn unsigned_digits(s: Seq<u8>) -> Seq<u8> {
    if s.len() > 0 && s[0] == 43 {
        s.drop_first()
    } else {
        s
    }
}

/// The value of `s` as the standard library reads a `u16`: an optional `+`,
/// then a non-empty run of digits whose value is at most `65535`.
pub open spec fn spec_parse_u16(s: Seq<u8>) -> Option<u16> {
    match spec_digits(unsigned_digits(s), 0xffff) {
        Some(v) => Some(v as u16),
        None => None,
    }
}

/// The value of `s` as the standard library reads a `u8`.
pub open spec fn spec_parse_u8(s: Seq<u8>) -> Option<u8> {
    match spec_digits(unsigned_digits(s), 0xff) {
        Some(v) => Some(v as u8),
        None => None,
    }
}

proof fn lemma_decimal_mono(s: Seq<u8>, i: nat)
    requires
        i <= s.len(),
        forall|j: int| 0 <= j < s.len() ==> is_digit(#[trigger] s[j]),
    ensures
        decimal_value(s.take(i as int)) <= decimal_value(s),
    decreases s.len() - i,
{
    if i < s.len() {
        lemma_decimal_mono(s, i + 1);
        let t = s.take(i + 1 as int);
        assert(t.drop_last() =~= s.take(i as int));
    } else {
        assert(s.take(i as int) =~= s);
    }
}

/// Reads an unsigned decimal number that fits in sixteen bits, as the
/// standard library does.
pub fn parse_u16(s: &[u8]) -> (r: Option<u16>)
    ensures
        r == spec_parse_u16(s@),
{
    let start: usize = if s.len() > 0 && s[0] == 43 { 1 } else { 0 };
    let r = parse_digits(s, start, 0xffff);
    proof {
        assert(s@.skip(start as int) =~= unsigned_digits(s@));
    }
    match r {
        Some(v) => Some(v as u16),
        None => None,
    }
}

/// Reads an unsigned decimal number that fits in eight bits, as the
/// standard library does.
pub fn parse_u8(s: &[u8]) -> (r: Option<u8>)
    ensures
        r == spec_parse_u8(s@),
{
    let start: usize = if s.len() > 0 && s[0] == 43 { 1 } else { 0 };
    let r = parse_digits(s, start, 0xff);
    proof {
        assert(s@.skip(start as int) =~= unsigned_digits(s@));
    }
    match r {
        Some(v) => Some(v as u8),
        None => None,
    }
}

/// The value of the digits of `s` from `start` on, if it is at most `max`.
#[verifier::loop_isolation(false)]
fn parse_digits(s: &[u8], start: usize, max: u32) -> (r: Option<u32>)
    requires
        start <= s@.len(),
        max <= 0xffff,
    ensures
        match spec_digits(s@.skip(start as int), max as nat) {
            Some(v) => v <= max && r == Some(v as u32),
            None => r is None,
        },
{
    reveal(spec_digits);
    let ghost d = s@.skip(start as int);
    if s.len() == start {
        return None;
    }
    let mut v: u32 = 0;
    let mut i: usize = start;
    while i < s.len()
        invariant
            start <= i <= s@.len(),
            d == s@.skip(start as int),
            max <= 0xffff,
            forall|j: int| 0 <= j < i - start ==> is_digit(#[trigger] d[j]),
            v == decimal_value(d.take(i - start)),
            v <= max,
        decreases s@.len() - i,
    {
        let b = s[i];
        assert(d[i - start] == b);
        if b < 48 || b > 57 {
            return None;
        }
        proof {
            let t = d.take(i - start + 1);
            assert(t.drop_last() =~= d.take(i - start));
        }
        let next = 10 * v + (b - 48) as u32;
        if next > max {
            proof {
                if is_decimal(d) {
                    lemma_decimal_mono(d, (i - start + 1) as nat);
                }
            }
            return None;
        }
        v = next;
        i = i + 1;
    }
    assert(d.take(i - start) =~= d);
    Some(v)
}

/// The value of `s` as the standard library reads a `u64`.
pub open spec fn spec_parse_u64(s: Seq<u8>) -> Option<u64> {
    match spec_digits(unsigned_digits(s), 0xffff_ffff_ffff_ffff) {
        Some(v) => Some(v as u64),
        None => None,
    }
}

/// Reads an unsigned decimal number that fits in 64 bits, as the standard
/// library does.
#[verifier::loop_isolation(false)]
pub fn parse_u64(s: &[u8]) -> (r: Option<u64>)
    ensures
        r == spec_parse_u64(s@),
{
    reveal(spec_digits);
    let start: usize = if s.len() > 0 && s[0] == 43 { 1 } else { 0 };
    let ghost d = s@.skip(start as int);
    proof {
        assert(d =~= unsigned_digits(s@));
    }
    if s.len() == start {
        return None;
    }
    let mut v: u64 = 0;
    let mut i: usize = start;
    while i < s.len()
        invariant
            start <= i <= s@.len(),
            d == s@.skip(start as int),
            forall|j: int| 0 <= j < i - start ==> is_digit(#[trigger] d[j]),
            v == decimal_value(d.take(i - start)),
        decreases s@.len() - i,
    {
        let b = s[i];
        assert(d[i - start] == b);
        if b < 48 || b > 57 {
            return None;
        }
        proof {
            let t = d.take(i - start + 1);
            assert(t.drop_last() =~= d.take(i - start));
        }
        let next: u128 = 10 * (v as u128) + (b - 48) as u128;
        if next > 0xffff_ffff_ffff_ffff {
            proof {
                if is_decimal(d) {
                    lemma_decimal_mono(d, (i - start + 1) as nat);
                }
            }
            return None;
        }
        v = next as u64;
        i = i + 1;
    }
    assert(d.take(i - start) =~= d);
    Some(v)
}

} // verus!
