//! Facts about sequences that the contract's proofs use.

use vstd::prelude::*;
use crate::chain::strings_view;

verus! {

/// Everything but `x`.
pub open spec fn other_than<A>(x: A) -> spec_fn(A) -> bool {
    |y: A| y != x
}

/// Filtering keeps a sequence free of duplicates.
pub proof fn lemma_filter_no_duplicates<A>(s: Seq<A>, p: spec_fn(A) -> bool)
    requires
        s.no_duplicates(),
    ensures
        s.filter(p).no_duplicates(),
    decreases s.len(),
{
    if s.len() > 0 {
        let d = s.drop_last();
        assert(s =~= d.push(s.last()));
        assert(d.no_duplicates()) by {
            assert forall|i: int, j: int| 0 <= i < d.len() && 0 <= j < d.len() && i != j implies d[i]
                != d[j] by {
                assert(d[i] == s[i] && d[j] == s[j]);
            }
        }
        lemma_filter_no_duplicates(d, p);
        d.lemma_filter_push(s.last(), p);
        if p(s.last()) {
            let f = d.filter(p);
            assert(!f.contains(s.last())) by {
                if f.contains(s.last()) {
                    d.lemma_filter_contains_rev(p, s.last());
                    let k = choose|k: int| 0 <= k < d.len() && d[k] == s.last();
                    assert(s[k] == s[s.len() - 1]);
                }
            }
            assert forall|i: int, j: int|
                0 <= i < f.push(s.last()).len() && 0 <= j < f.push(s.last()).len() && i != j implies f.push(
                s.last(),
            )[i] != f.push(s.last())[j] by {
                if i == f.len() {
                    assert(f.push(s.last())[j] == f[j]);
                } else if j == f.len() {
                    assert(f.push(s.last())[i] == f[i]);
                } else {
                    assert(f.push(s.last())[i] == f[i]);
                    assert(f.push(s.last())[j] == f[j]);
                }
            }
        }
    }
}

/// A filtered sequence holds exactly those elements of the sequence that pass.
pub proof fn lemma_filter_contains_iff<A>(s: Seq<A>, p: spec_fn(A) -> bool, x: A)
    ensures
        s.filter(p).contains(x) <==> (s.contains(x) && p(x)),
{
    broadcast use vstd::seq_lib::group_filter_ensures;

    if s.filter(p).contains(x) {
        s.lemma_filter_contains_rev(p, x);
        let k = choose|k: int| 0 <= k < s.filter(p).len() && s.filter(p)[k] == x;
        assert(p(s.filter(p)[k]));
    }
    if s.contains(x) && p(x) {
        let k = choose|k: int| 0 <= k < s.len() && s[k] == x;
        assert(s.filter(p).contains(s[k]));
    }
}

/// The strings of `v` other than `x`, in order.
pub(crate) fn retain_other_strings(v: &Vec<String>, x: &String) -> (r: Vec<String>)
    ensures
        strings_view(r@) == strings_view(v@).filter(other_than(x@)),
{
    let ghost p = other_than(x@);
    let mut r: Vec<String> = Vec::new();
    let mut i: usize = 0;
    while i < v.len()
        invariant
            0 <= i <= v.len(),
            p == other_than(x@),
            strings_view(r@) == strings_view(v@.take(i as int)).filter(p),
        decreases v.len() - i,
    {
        let ghost before = r@;
        proof {
            assert(strings_view(v@.take(i as int + 1)) =~= strings_view(v@.take(i as int)).push(v@[i as int]@));
            strings_view(v@.take(i as int)).lemma_filter_push(v@[i as int]@, p);
        }
        if v[i] != *x {
            r.push(v[i].clone());
            assert(strings_view(r@) =~= strings_view(before).push(v@[i as int]@));
            assert(p(v@[i as int]@));
        } else {
            assert(!p(v@[i as int]@));
        }
        assert(strings_view(r@) == strings_view(v@.take(i as int + 1)).filter(p));
        i = i + 1;
    }
    assert(v@.take(v.len() as int) =~= v@);
    r
}

/// The ids of `v` other than `x`, in order.
pub(crate) fn retain_other_ids(v: &Vec<u32>, x: u32) -> (r: Vec<u32>)
    ensures
        r@ == v@.filter(other_than(x)),
{
    let ghost p = other_than(x);
    let mut r: Vec<u32> = Vec::new();
    let mut i: usize = 0;
    while i < v.len()
        invariant
            0 <= i <= v.len(),
            p == other_than(x),
            r@ == v@.take(i as int).filter(p),
        decreases v.len() - i,
    {
        proof {
            assert(v@.take(i as int + 1) =~= v@.take(i as int).push(v@[i as int]));
            v@.take(i as int).lemma_filter_push(v@[i as int], p);
        }
        if v[i] != x {
            r.push(v[i]);
            assert(p(v@[i as int]));
        } else {
            assert(!p(v@[i as int]));
        }
        assert(r@ == v@.take(i as int + 1).filter(p));
        i = i + 1;
    }
    assert(v@.take(v.len() as int) =~= v@);
    r
}

} // verus!
