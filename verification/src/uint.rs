//! Variable-length unsigned integers: seven bits per byte, least significant
//! group first, the high bit set on every byte but the last.
use vstd::prelude::*;

use crate::buf::Reader;

verus! {

/// The encoding of `n`.
pub open spec fn encode_uint(n: nat) -> Seq<u8>
    decreases n,
{
    if n < 128 {
        seq![n as u8]
    } else {
        seq![(n % 128 + 128) as u8] + encode_uint(n / 128)
    }
}

/// Value of a sequence of seven-bit groups, least significant first.
pub open spec fn horner(s: Seq<u8>) -> nat
    decreases s.len(),
{
    if s.len() == 0 {
        0
    } else {
        (s[0] % 128) as nat + 128 * horner(s.drop_first())
    }
}

/// Decodes a variable-length integer of at most `limit` bytes: its value,
/// not truncated, and the number of bytes it takes.
pub open spec fn parse_varint(s: Seq<u8>, limit: nat) -> Option<(nat, nat)>
    decreases limit,
{
    if limit == 0 || s.len() == 0 {
        None
    } else if s[0] < 128 {
        Some((s[0] as nat, 1))
    } else {
        match parse_varint(s.drop_first(), (limit - 1) as nat) {
            None => None,
            Some((v, l)) => Some(((s[0] % 128) as nat + 128 * v, l + 1)),
        }
    }
}

/// What reading a variable-length integer from the front of `s` gives: its
/// value modulo `2^64` and the number of bytes it takes. At most ten bytes
/// are read; a longer or unterminated encoding cannot be read.
pub open spec fn spec_read_uint(s: Seq<u8>) -> Option<(u64, nat)> {
    match parse_varint(s, 10) {
        None => None,
        Some((v, l)) => Some(((v % 0x1_0000_0000_0000_0000) as u64, l)),
    }
}

pub open spec fn pow128(n: nat) -> nat
    decreases n,
{
    if n == 0 {
        1
    } else {
        128 * pow128((n - 1) as nat)
    }
}

proof fn lemma_pow128_10()
    ensures
        pow128(10) == 0x40_0000_0000_0000_0000,
        pow128(9) == 0x8000_0000_0000_0000,
{
    reveal_with_fuel(pow128, 11);
}

proof fn lemma_pow128_mono(a: nat, b: nat)
    requires
        a <= b,
    ensures
        pow128(a) <= pow128(b),
        pow128(a) > 0,
    decreases b,
{
    if a < b {
        lemma_pow128_mono(a, (b - 1) as nat);
    } else if a > 0 {
        lemma_pow128_mono((a - 1) as nat, (a - 1) as nat);
    }
}

proof fn lemma_horner_bound(s: Seq<u8>)
    ensures
        horner(s) < pow128(s.len()),
    decreases s.len(),
{
    if s.len() > 0 {
        lemma_horner_bound(s.drop_first());
        let r = horner(s.drop_first());
        let p = pow128((s.len() - 1) as nat);
        assert((s[0] % 128) as nat + 128 * r < 128 * p) by (nonlinear_arith)
            requires
                r < p,
                (s[0] % 128) < 128,
        ;
    }
}

/// The encoding of `n` takes at most `k` bytes when `n < 128^k`.
pub proof fn lemma_encode_uint_len(n: nat, k: nat)
    requires
        n < pow128(k),
        k >= 1,
    ensures
        1 <= encode_uint(n).len() <= k,
    decreases n,
{
    if n >= 128 {
        if k == 1 {
            assert(pow128(1) == 128) by {
                reveal_with_fuel(pow128, 2);
            }
        }
        let p = pow128((k - 1) as nat);
        assert(n / 128 < p) by (nonlinear_arith)
            requires
                n < 128 * p,
        ;
        lemma_encode_uint_len(n / 128, (k - 1) as nat);
    }
}

/// The encoding of a `u64` takes between one and ten bytes.
pub proof fn lemma_encode_u64_len(n: u64)
    ensures
        1 <= encode_uint(n as nat).len() <= 10,
{
    lemma_pow128_10();
    lemma_encode_uint_len(n as nat, 10);
}

/// Decoding the encoding of `n`, followed by anything, gives back `n`.
pub proof fn lemma_parse_varint_encode(n: nat, t: Seq<u8>, limit: nat)
    requires
        encode_uint(n).len() <= limit,
    ensures
        parse_varint(encode_uint(n) + t, limit) == Some((n, encode_uint(n).len())),
    decreases n,
{
    let s = encode_uint(n) + t;
    if n >= 128 {
        lemma_parse_varint_encode(n / 128, t, (limit - 1) as nat);
        assert(s.drop_first() =~= encode_uint(n / 128) + t);
        assert(((n % 128 + 128) as u8) % 128 == n % 128);
    }
}

/// Reading back a written `u64` gives the same value and consumes exactly
/// what was written, whatever follows.
pub proof fn lemma_uint_roundtrip(n: u64, t: Seq<u8>)
    ensures
        spec_read_uint(encode_uint(n as nat) + t) == Some((n, encode_uint(n as nat).len())),
        1 <= encode_uint(n as nat).len() <= 10,
{
    lemma_encode_u64_len(n);
    lemma_parse_varint_encode(n as nat, t, 10);
}

proof fn lemma_parse_varint_len(s: Seq<u8>, limit: nat)
    ensures
        parse_varint(s, limit) matches Some((v, l)) ==> 1 <= l <= s.len() && l <= limit,
    decreases limit,
{
    if limit > 0 && s.len() > 0 && s[0] >= 128 {
        lemma_parse_varint_len(s.drop_first(), (limit - 1) as nat);
    }
}

/// A variable-length integer takes between one and ten of the bytes read.
pub proof fn lemma_read_uint_len(s: Seq<u8>)
    ensures
        spec_read_uint(s) matches Some((v, l)) ==> 1 <= l <= s.len() && l <= 10,
{
    lemma_parse_varint_len(s, 10);
}

/// Skipping the first part of a concatenation leaves the second.
pub proof fn lemma_skip_concat(a: Seq<u8>, b: Seq<u8>)
    ensures
        (a + b).skip(a.len() as int) == b,
{
    assert((a + b).skip(a.len() as int) =~= b);
}

/// Skipping twice is skipping the sum.
pub proof fn lemma_skip_skip(s: Seq<u8>, i: nat, j: nat)
    requires
        i + j <= s.len(),
    ensures
        s.skip(i as int).skip(j as int) == s.skip((i + j) as int),
{
    assert(s.skip(i as int).skip(j as int) =~= s.skip((i + j) as int));
}

proof fn lemma_parse_varint_found(s: Seq<u8>, k: nat, limit: nat)
    requires
        k < limit,
        k < s.len(),
        s[k as int] < 128,
        forall|j: int| 0 <= j < k ==> s[j] >= 128,
    ensures
        parse_varint(s, limit) == Some((horner(s.take(k + 1 as int)), k + 1)),
    decreases k,
{
    if k == 0 {
        let t = s.take(1);
        assert(t.drop_first() =~= Seq::<u8>::empty());
        assert(horner(t.drop_first()) == 0);
        assert(horner(t) == (t[0] % 128) as nat + 128 * horner(t.drop_first()));
    } else {
        let d = s.drop_first();
        assert forall|j: int| 0 <= j < k - 1 implies d[j] >= 128 by {
            assert(d[j] == s[j + 1]);
        }
        lemma_parse_varint_found(d, (k - 1) as nat, (limit - 1) as nat);
        let t = s.take(k + 1 as int);
        assert(t.drop_first() =~= d.take(k as int));
        assert(horner(t) == (t[0] % 128) as nat + 128 * horner(t.drop_first()));
        assert(s[0] >= 128);
    }
}

proof fn lemma_parse_varint_none(s: Seq<u8>, limit: nat)
    requires
        forall|j: int| 0 <= j < s.len() && j < limit ==> s[j] >= 128,
    ensures
        parse_varint(s, limit) is None,
    decreases limit,
{
    if limit > 0 && s.len() > 0 {
        lemma_parse_varint_none(s.drop_first(), (limit - 1) as nat);
    }
}

/// Reads a variable-length integer. When none can be read, nothing is
/// consumed.
pub fn read_uint(reader: &mut Reader) -> (r: Option<u64>)
    ensures
        match spec_read_uint(old(reader)@) {
            None => r is None && final(reader)@ == old(reader)@,
            Some((v, l)) => r == Some(v) && final(reader)@ == old(reader)@.skip(l as int),
        },
{
    let ghost s = reader@;
    let avail = reader.remaining();
    let mut k: usize = 0;
    while k < 10 && k < avail && reader.peek(k) >= 128
        invariant
            k <= 10,
            k <= avail,
            avail == s.len(),
            reader@ == s,
            forall|j: int| 0 <= j < k ==> s[j] >= 128,
        decreases 10 - k,
    {
        k = k + 1;
    }
    if k == 10 || k == avail {
        proof {
            lemma_parse_varint_none(s, 10);
        }
        return None;
    }
    // The terminating byte is at index `k`; evaluate from the back.
    let mut v: u128 = 0;
    let mut i: usize = k + 1;
    proof {
        assert(s.subrange(k + 1 as int, k + 1 as int) =~= Seq::<u8>::empty());
    }
    while i > 0
        invariant
            k < 10,
            k < s.len(),
            reader@ == s,
            i <= k + 1,
            v == horner(s.subrange(i as int, k + 1)),
        decreases i,
    {
        let b = reader.peek(i - 1);
        proof {
            let t = s.subrange(i - 1, k + 1);
            assert(t.drop_first() =~= s.subrange(i as int, k + 1));
            lemma_horner_bound(t);
            lemma_pow128_mono(t.len(), 10);
            lemma_pow128_10();
        }
        v = (b % 128) as u128 + 128 * v;
        i = i - 1;
    }
    proof {
        lemma_parse_varint_found(s, k as nat, 10);
        assert(s.subrange(0, k + 1) =~= s.take(k + 1));
    }
    reader.advance(k + 1);
    Some((v % 0x1_0000_0000_0000_0000) as u64)
}

/// Appends the encoding of `n`.
pub fn write_uint(buf: &mut Vec<u8>, n: u64)
    ensures
        final(buf)@ == old(buf)@ + encode_uint(n as nat),
{
    let mut x = n;
    while x > 127
        invariant
            buf@ + encode_uint(x as nat) == old(buf)@ + encode_uint(n as nat),
        decreases x,
    {
        let ghost before = buf@;
        buf.push((x % 128 + 128) as u8);
        proof {
            assert(buf@ + encode_uint(x as nat / 128) =~= before + encode_uint(x as nat));
        }
        x = x / 128;
    }
    let ghost before = buf@;
    buf.push(x as u8);
    proof {
        assert(buf@ =~= before + encode_uint(x as nat));
    }
}

} // verus!
