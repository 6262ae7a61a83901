//! A cursor over a byte slice and helpers that append fixed-width
//! little-endian integers to a byte vector.
use vstd::prelude::*;

verus! {

/// Value of a little-endian byte sequence.
pub open spec fn le_value(s: Seq<u8>) -> nat
    decreases s.len(),
{
    if s.len() == 0 {
        0
    } else {
        s[0] as nat + 256 * le_value(s.drop_first())
    }
}

/// The `n` least significant bytes of `v`, least significant first.
pub open spec fn le_bytes(v: nat, n: nat) -> Seq<u8>
    decreases n,
{
    if n == 0 {
        Seq::empty()
    } else {
        seq![(v % 256) as u8] + le_bytes(v / 256, (n - 1) as nat)
    }
}

/// `256` to the power of `n`.
pub open spec fn pow256(n: nat) -> nat
    decreases n,
{
    if n == 0 {
        1
    } else {
        256 * pow256((n - 1) as nat)
    }
}

pub proof fn lemma_le_bytes_len(v: nat, n: nat)
    ensures
        le_bytes(v, n).len() == n,
    decreases n,
{
    if n > 0 {
        lemma_le_bytes_len(v / 256, (n - 1) as nat);
    }
}

/// Reading back `n` little-endian bytes gives the value modulo `256^n`.
pub proof fn lemma_le_roundtrip(v: nat, n: nat)
    ensures
        le_value(le_bytes(v, n)) == v % pow256(n),
        le_bytes(v, n).len() == n,
    decreases n,
{
    lemma_le_bytes_len(v, n);
    if n > 0 {
        lemma_le_roundtrip(v / 256, (n - 1) as nat);
        let s = le_bytes(v, n);
        assert(s.drop_first() =~= le_bytes(v / 256, (n - 1) as nat));
        let p = pow256((n - 1) as nat);
        assert(p > 0) by {
            lemma_pow256_pos((n - 1) as nat);
        }
        assert((v % 256) + 256 * ((v / 256) % p) == v % (256 * p)) by (nonlinear_arith)
            requires
                p > 0,
        {
            vstd::arithmetic::div_mod::lemma_breakdown(v as int, 256, p as int);
        }
    }
}

pub proof fn lemma_pow256_pos(n: nat)
    ensures
        pow256(n) > 0,
    decreases n,
{
    if n > 0 {
        lemma_pow256_pos((n - 1) as nat);
    }
}

/// A little-endian value of `n` bytes is below `256^n`.
pub proof fn lemma_le_value_bound(s: Seq<u8>)
    ensures
        le_value(s) < pow256(s.len()),
    decreases s.len(),
{
    if s.len() > 0 {
        lemma_le_value_bound(s.drop_first());
        let r = le_value(s.drop_first());
        let p = pow256((s.len() - 1) as nat);
        assert(s[0] as nat + 256 * r < 256 * p) by (nonlinear_arith)
            requires
                r < p,
                s[0] < 256,
        ;
    }
}

pub proof fn lemma_pow256_8()
    ensures
        pow256(8) == 0x1_0000_0000_0000_0000,
        pow256(6) == 0x1_0000_0000_0000,
        pow256(2) == 0x1_0000,
{
    reveal_with_fuel(pow256, 9);
}

/// A read cursor over a byte slice. Its view is the sequence of the bytes
/// that are not yet consumed.
pub struct Reader<'a> {
    buf: &'a [u8],
    pos: usize,
}

impl<'a> View for Reader<'a> {
    type V = Seq<u8>;

    closed spec fn view(&self) -> Seq<u8> {
        self.buf@.subrange(self.pos as int, self.buf@.len() as int)
    }
}

impl<'a> Reader<'a> {
    #[verifier::type_invariant]
    closed spec fn inv(self) -> bool {
        self.pos <= self.buf@.len()
    }

    /// A cursor at the start of `buf`.
    pub fn new(buf: &'a [u8]) -> (r: Reader<'a>)
        ensures
            r@ == buf@,
    {
        let r = Reader { buf, pos: 0 };
        assert(r@ =~= buf@);
        r
    }

    /// Whether bytes remain to be read.
    pub fn has_remaining(&self) -> (b: bool)
        ensures
            b == (self@.len() > 0),
    {
        proof {
            use_type_invariant(self);
        }
        self.pos < self.buf.len()
    }

    /// Number of bytes that remain to be read.
    pub fn remaining(&self) -> (n: usize)
        ensures
            n == self@.len(),
    {
        proof {
            use_type_invariant(self);
        }
        self.buf.len() - self.pos
    }

    /// The byte at offset `i` of what remains, without consuming it.
    pub fn peek(&self, i: usize) -> (b: u8)
        requires
            i < self@.len(),
        ensures
            b == self@[i as int],
    {
        proof {
            use_type_invariant(self);
        }
        let len = self.buf.len();
        assert(self@.len() == len - self.pos);
        self.buf[self.pos + i]
    }

    /// Consumes `n` bytes.
    pub fn advance(&mut self, n: usize)
        requires
            n <= old(self)@.len(),
        ensures
            final(self)@ == old(self)@.skip(n as int),
    {
        proof {
            use_type_invariant(&*self);
        }
        let len = self.buf.len();
        assert(self@.len() == len - self.pos);
        self.pos = self.pos + n;
        proof {
            assert(self@ =~= old(self)@.skip(n as int));
        }
    }

    /// Consumes one byte, or nothing when no byte remains.
    pub fn read_u8(&mut self) -> (r: Option<u8>)
        ensures
            old(self)@.len() == 0 ==> r is None && final(self)@ == old(self)@,
            old(self)@.len() > 0 ==> r == Some(old(self)@[0]) && final(self)@
                == old(self)@.drop_first(),
    {
        proof {
            use_type_invariant(&*self);
        }
        if self.pos < self.buf.len() {
            let b = self.buf[self.pos];
            self.pos = self.pos + 1;
            proof {
                assert(self@ =~= old(self)@.drop_first());
            }
            Some(b)
        } else {
            None
        }
    }

    /// Consumes `n` bytes, or nothing when fewer remain.
    pub fn read_bytes(&mut self, n: usize) -> (r: Option<Vec<u8>>)
        ensures
            old(self)@.len() < n ==> r is None && final(self)@ == old(self)@,
            old(self)@.len() >= n ==> r is Some && r->0@ == old(self)@.take(n as int)
                && final(self)@ == old(self)@.skip(n as int),
    {
        proof {
            use_type_invariant(&*self);
        }
        if self.buf.len() - self.pos < n {
            return None;
        }
        let mut out: Vec<u8> = Vec::new();
        let start = self.pos;
        let mut i: usize = 0;
        while i < n
            invariant
                start + n <= self.buf.len(),
                0 <= i <= n,
                out@ == self.buf@.subrange(start as int, start + i),
            decreases n - i,
        {
            out.push(self.buf[start + i]);
            i = i + 1;
            proof {
                assert(out@ =~= self.buf@.subrange(start as int, start + i));
            }
        }
        self.pos = start + n;
        proof {
            assert(out@ =~= old(self)@.take(n as int));
            assert(self@ =~= old(self)@.skip(n as int));
        }
        Some(out)
    }

    /// Consumes `n <= 8` bytes and reads them as a little-endian integer,
    /// or consumes nothing when fewer than `n` bytes remain.
    pub fn read_uint_le(&mut self, n: usize) -> (r: Option<u64>)
        requires
            n <= 8,
        ensures
            old(self)@.len() < n ==> r is None && final(self)@ == old(self)@,
            old(self)@.len() >= n ==> r == Some(le_value(old(self)@.take(n as int)) as u64)
                && le_value(old(self)@.take(n as int)) < pow256(n as nat)
                && final(self)@ == old(self)@.skip(n as int),
    {
        proof {
            use_type_invariant(&*self);
        }
        if self.buf.len() - self.pos < n {
            return None;
        }
        let start = self.pos;
        let ghost s = self.buf@.subrange(start as int, start + n);
        let mut v: u64 = 0;
        let mut i: usize = n;
        proof {
            lemma_pow256_8();
            assert(s.subrange(n as int, n as int) =~= Seq::<u8>::empty());
        }
        while i > 0
            invariant
                start + n <= self.buf.len(),
                n <= 8,
                i <= n,
                s == self.buf@.subrange(start as int, start + n),
                v == le_value(s.subrange(i as int, n as int)),
                pow256(8) == 0x1_0000_0000_0000_0000,
            decreases i,
        {
            let b = self.buf[start + i - 1];
            proof {
                let t = s.subrange(i - 1, n as int);
                assert(t.drop_first() =~= s.subrange(i as int, n as int));
                lemma_le_value_bound(t);
                lemma_pow256_mono(t.len(), 8);
            }
            v = b as u64 + 256 * v;
            i = i - 1;
        }
        self.pos = start + n;
        proof {
            assert(s.subrange(0, n as int) =~= s);
            assert(s =~= old(self)@.take(n as int));
            assert(self@ =~= old(self)@.skip(n as int));
            lemma_le_value_bound(s);
        }
        Some(v)
    }
}

pub proof fn lemma_pow256_mono(a: nat, b: nat)
    requires
        a <= b,
    ensures
        pow256(a) <= pow256(b),
    decreases b,
{
    if a < b {
        lemma_pow256_mono(a, (b - 1) as nat);
        lemma_pow256_pos((b - 1) as nat);
    }
}

/// Whether two byte slices hold the same bytes.
pub fn bytes_eq(a: &[u8], b: &[u8]) -> (r: bool)
    ensures
        r == (a@ == b@),
{
    if a.len() != b.len() {
        return false;
    }
    let mut i: usize = 0;
    while i < a.len()
        invariant
            a@.len() == b@.len(),
            i <= a@.len(),
            forall|j: int| 0 <= j < i ==> a@[j] == b@[j],
        decreases a@.len() - i,
    {
        if a[i] != b[i] {
            return false;
        }
        i = i + 1;
    }
    assert(a@ =~= b@);
    true
}

/// Appends the `n` least significant bytes of `v`, least significant first.
pub fn put_uint_le(buf: &mut Vec<u8>, v: u64, n: usize)
    requires
        n <= 8,
    ensures
        final(buf)@ == old(buf)@ + le_bytes(v as nat, n as nat),
{
    let mut x: u64 = v;
    let mut i: usize = 0;
    while i < n
        invariant
            i <= n,
            buf@ + le_bytes(x as nat, (n - i) as nat) == old(buf)@ + le_bytes(v as nat, n as nat),
        decreases n - i,
    {
        let ghost before = buf@;
        buf.push((x % 256) as u8);
        proof {
            let m = (n - i) as nat;
            assert(le_bytes(x as nat, m) == seq![(x as nat % 256) as u8] + le_bytes(
                x as nat / 256,
                (m - 1) as nat,
            ));
            assert(buf@ + le_bytes(x as nat / 256, (m - 1) as nat) =~= before + le_bytes(
                x as nat,
                m,
            ));
        }
        x = x / 256;
        i = i + 1;
    }
    proof {
        assert(buf@ + le_bytes(x as nat, 0) =~= buf@);
    }
}

} // verus!
