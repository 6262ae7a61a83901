//! Choosing the best entries of a list: the `len` entries with the highest
//! keys, highest first. Entries with equal keys may come in any order, and
//! among equal keys at the cut any may be kept.
use vstd::prelude::*;

verus! {

broadcast use vstd::seq_lib::group_to_multiset_ensures;

/// `out` holds the `len` entries of `input` with the highest keys, highest
/// first: as many as there are up to `len`, each taken from `input`, in
/// order of their keys from highest, and no entry left out has a higher key
/// than one kept.
pub open spec fn is_top_selection<T>(input: Seq<(u128, T)>, out: Seq<(u128, T)>, len: nat) -> bool {
    &&& out.len() == if input.len() < len {
        input.len()
    } else {
        len
    }
    &&& forall|x: (u128, T)| out.to_multiset().count(x) <= input.to_multiset().count(x)
    &&& forall|i: int, j: int| 0 <= i < j < out.len() ==> out[j].0 <= out[i].0
    &&& forall|x: (u128, T), j: int|
        #![trigger input.to_multiset().count(x), out[j]]
        0 <= j < out.len() && out.to_multiset().count(x) < input.to_multiset().count(x) ==> x.0
            <= out[j].0
}

/// The position of the first entry with the highest key.
fn argmax<T>(v: &Vec<(u128, T)>) -> (m: usize)
    requires
        v@.len() > 0,
    ensures
        m < v@.len(),
        forall|i: int| 0 <= i < v@.len() ==> v@[i].0 <= v@[m as int].0,
{
    let mut m: usize = 0;
    let mut i: usize = 1;
    while i < v.len()
        invariant
            m < i <= v@.len(),
            forall|j: int| 0 <= j < i ==> v@[j].0 <= v@[m as int].0,
        decreases v@.len() - i,
    {
        if v[i].0 > v[m].0 {
            m = i;
        }
        i = i + 1;
    }
    m
}

/// The `len` entries of `v` with the highest keys, highest first.
pub fn take_best<T>(v: Vec<(u128, T)>, len: usize) -> (out: Vec<(u128, T)>)
    ensures
        is_top_selection(v@, out@, len as nat),
{
    let ghost input = v@;
    let mut rem = v;
    let mut out: Vec<(u128, T)> = Vec::new();
    while out.len() < len && rem.len() > 0
        invariant
            out@.to_multiset().add(rem@.to_multiset()) == input.to_multiset(),
            out@.len() + rem@.len() == input.len(),
            out@.len() <= len,
            forall|i: int, j: int| 0 <= i < j < out@.len() ==> out@[j].0 <= out@[i].0,
            forall|r: int, j: int|
                #![trigger rem@[r], out@[j]]
                0 <= r < rem@.len() && 0 <= j < out@.len() ==> rem@[r].0 <= out@[j].0,
        decreases rem@.len(),
    {
        let m = argmax(&rem);
        let ghost old_rem = rem@;
        let ghost old_out = out@;
        let x = rem.remove(m);
        proof {
            assert(x == old_rem[m as int]);
            assert(rem@ =~= old_rem.remove(m as int));
            assert forall|r: int| 0 <= r < rem@.len() implies rem@[r].0 <= x.0 by {
                if r < m {
                    assert(rem@[r] == old_rem[r]);
                } else {
                    assert(rem@[r] == old_rem[r + 1]);
                }
            }
            assert forall|r: int, j: int|
                #![trigger rem@[r], old_out[j]]
                0 <= r < rem@.len() && 0 <= j < old_out.len() implies rem@[r].0
                <= old_out[j].0 by {
                if r < m {
                    assert(rem@[r] == old_rem[r]);
                } else {
                    assert(rem@[r] == old_rem[r + 1]);
                }
            }
        }
        out.push(x);
        proof {
            assert(out@ == old_out.push(x));
            assert(out@.to_multiset() =~= old_out.to_multiset().insert(x));
            assert(rem@.to_multiset() =~= old_rem.to_multiset().remove(x));
            assert(old_rem.to_multiset().count(x) > 0) by {
                assert(old_rem.contains(x));
            }
            assert(out@.to_multiset().add(rem@.to_multiset()) =~= old_out.to_multiset().add(
                old_rem.to_multiset(),
            ));
            assert forall|i: int, j: int| 0 <= i < j < out@.len() implies out@[j].0 <= out@[i].0 by {
                if j == out@.len() - 1 {
                    assert(old_rem[m as int].0 <= old_out[i].0);
                }
            }
        }
    }
    proof {
        assert forall|x: (u128, T)| out@.to_multiset().count(x) <= input.to_multiset().count(x) by {
            assert(input.to_multiset().count(x) == out@.to_multiset().count(x)
                + rem@.to_multiset().count(x));
        }
        assert forall|x: (u128, T), j: int|
            #![trigger input.to_multiset().count(x), out@[j]]
            0 <= j < out@.len() && out@.to_multiset().count(x) < input.to_multiset().count(
                x,
            ) implies x.0 <= out@[j].0 by {
            assert(input.to_multiset().count(x) == out@.to_multiset().count(x)
                + rem@.to_multiset().count(x));
            assert(rem@.to_multiset().count(x) > 0);
            assert(rem@.contains(x));
            let r = choose|r: int| 0 <= r < rem@.len() && rem@[r] == x;
            assert(rem@[r].0 <= out@[j].0);
        }
    }
    out
}

/// Every entry that a top selection keeps is an entry of its input.
pub proof fn lemma_top_selection_from<T>(input: Seq<(u128, T)>, out: Seq<(u128, T)>, len: nat, j: int)
    requires
        is_top_selection(input, out, len),
        0 <= j < out.len(),
    ensures
        input.contains(out[j]),
{
    out.to_multiset_ensures();
    input.to_multiset_ensures();
    assert(out.contains(out[j]));
    assert(out.to_multiset().count(out[j]) <= input.to_multiset().count(out[j]));
}

} // verus!
