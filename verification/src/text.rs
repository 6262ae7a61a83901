//! Building strings of ASCII characters.
use vstd::prelude::*;
use vstd::string::StrSliceExecFns;

use crate::date::{push_padded, spec_dec};

verus! {

/// The characters of ASCII bytes.
pub open spec fn ascii_chars(b: Seq<u8>) -> Seq<char> {
    b.map_values(|x: u8| x as char)
}

/// Appends a character to a string (`String::push`).
#[verifier::external_body]
pub(crate) fn string_push(s: &mut String, c: char)
    ensures
        final(s)@ == old(s)@.push(c),
{
    s.push(c)
}

/// A string of the given ASCII bytes.
pub fn ascii_string(b: &[u8]) -> (s: String)
    requires
        forall|i: int| 0 <= i < b@.len() ==> b@[i] < 128,
    ensures
        s@ == ascii_chars(b@),
{
    let mut s = String::new();
    let mut i: usize = 0;
    while i < b.len()
        invariant
            i <= b@.len(),
            forall|j: int| 0 <= j < b@.len() ==> b@[j] < 128,
            s@ == ascii_chars(b@.take(i as int)),
        decreases b@.len() - i,
    {
        string_push(&mut s, b[i] as char);
        proof {
            assert(ascii_chars(b@.take(i + 1)) =~= ascii_chars(b@.take(i as int)).push(
                b@[i as int] as char,
            ));
        }
        i = i + 1;
    }
    assert(b@.take(i as int) =~= b@);
    s
}

/// Appends the characters of `t` to `s`.
pub fn push_str(s: &mut String, t: &str)
    ensures
        final(s)@ == old(s)@ + t@,
{
    let n = t.unicode_len();
    let ghost start = s@;
    let mut i: usize = 0;
    while i < n
        invariant
            i <= n,
            n == t@.len(),
            s@ == start + t@.take(i as int),
        decreases n - i,
    {
        let c = t.get_char(i);
        string_push(s, c);
        proof {
            assert(t@.take(i + 1) =~= t@.take(i as int).push(c));
        }
        i = i + 1;
    }
    proof {
        assert(t@.take(n as int) =~= t@);
    }
}

/// Appends ASCII bytes to `s` as characters.
pub fn push_ascii(s: &mut String, b: &[u8])
    requires
        forall|i: int| 0 <= i < b@.len() ==> b@[i] < 128,
    ensures
        final(s)@ == old(s)@ + ascii_chars(b@),
{
    let ghost start = s@;
    let mut i: usize = 0;
    while i < b.len()
        invariant
            i <= b@.len(),
            forall|j: int| 0 <= j < b@.len() ==> b@[j] < 128,
            s@ == start + ascii_chars(b@.take(i as int)),
        decreases b@.len() - i,
    {
        string_push(s, b[i] as char);
        proof {
            assert(ascii_chars(b@.take(i + 1)) =~= ascii_chars(b@.take(i as int)).push(
                b@[i as int] as char,
            ));
        }
        i = i + 1;
    }
    proof {
        assert(b@.take(b@.len() as int) =~= b@);
    }
}

/// The decimal digits of `v` as characters.
pub open spec fn spec_dec_text(v: nat) -> Seq<char> {
    ascii_chars(spec_dec(v))
}

/// Appends the decimal digits of `v`.
pub fn push_dec_text(s: &mut String, v: u64)
    ensures
        final(s)@ == old(s)@ + spec_dec_text(v as nat),
{
    let mut b: Vec<u8> = Vec::new();
    push_padded(&mut b, v, 0);
    proof {
        assert(b@ =~= spec_dec(v as nat));
    }
    push_ascii(s, b.as_slice());
}

} // verus!
