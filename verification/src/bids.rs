//! Counting how often an amount was bid, and finding the single lowest bid.

use vstd::prelude::*;

verus! {

broadcast use {
    vstd::seq_lib::group_to_multiset_ensures,
    vstd::multiset::group_multiset_axioms,
    vstd::multiset::group_multiset_properties,
};

/// `v` was bid by exactly one bidder.
pub open spec fn is_single_bid(amounts: Seq<u128>, v: u128) -> bool {
    amounts.to_multiset().count(v) == 1
}

/// Some amount was bid by exactly one bidder.
pub open spec fn has_single_bid(amounts: Seq<u128>) -> bool {
    exists|v: u128| is_single_bid(amounts, v)
}

/// `v` was bid by exactly one bidder, and no lower amount was.
pub open spec fn is_single_lowest_bid(amounts: Seq<u128>, v: u128) -> bool {
    &&& is_single_bid(amounts, v)
    &&& forall|w: u128| #[trigger] is_single_bid(amounts, w) ==> v <= w
}

/// The lowest amount that exactly one bidder bid, or 0 where every amount was bid
/// by two bidders or more.
pub open spec fn single_lowest_bid(amounts: Seq<u128>) -> u128 {
    if exists|v: u128| is_single_lowest_bid(amounts, v) {
        choose|v: u128| is_single_lowest_bid(amounts, v)
    } else {
        0
    }
}

/// The amounts are in ascending order.
pub open spec fn is_ascending(s: Seq<u128>) -> bool {
    forall|i: int, j: int| 0 <= i <= j < s.len() ==> s[i] <= s[j]
}

/// Appending `a` adds one to the count of `a` and leaves the others.
pub proof fn lemma_count_push(s: Seq<u128>, a: u128, v: u128)
    ensures
        s.push(a).to_multiset().count(v) == s.to_multiset().count(v) + (if a == v {
            1nat
        } else {
            0nat
        }),
{
    assert(s.push(a).to_multiset() =~= s.to_multiset().insert(a));
}

/// Two places that hold `v` make its count at least two.
pub proof fn lemma_count_two(s: Seq<u128>, j: int, k: int)
    requires
        0 <= j < k < s.len(),
        s[j] == s[k],
    ensures
        s.to_multiset().count(s[j]) >= 2,
    decreases s.len(),
{
    let d = s.drop_last();
    assert(s =~= d.push(s.last()));
    lemma_count_push(d, s.last(), s[j]);
    if k == s.len() - 1 {
        assert(d[j] == s[j]);
        assert(d.contains(s[j]));
    } else {
        assert(d[j] == s[j] && d[k] == s[k]);
        lemma_count_two(d, j, k);
    }
}

/// A value held at one place only has count one.
pub proof fn lemma_count_one(s: Seq<u128>, i: int)
    requires
        0 <= i < s.len(),
        forall|j: int| 0 <= j < s.len() && j != i ==> s[j] != s[i],
    ensures
        s.to_multiset().count(s[i]) == 1,
    decreases s.len(),
{
    let d = s.drop_last();
    assert(s =~= d.push(s.last()));
    lemma_count_push(d, s.last(), s[i]);
    if i == s.len() - 1 {
        assert(!d.contains(s[i])) by {
            if d.contains(s[i]) {
                let j = choose|j: int| 0 <= j < d.len() && d[j] == s[i];
                assert(s[j] == d[j]);
            }
        }
    } else {
        assert forall|j: int| 0 <= j < d.len() && j != i implies d[j] != d[i] by {
            assert(d[j] == s[j]);
        }
        lemma_count_one(d, i);
    }
}

/// In an ascending sequence a value is held at one place only exactly when its
/// neighbours differ from it.
pub proof fn lemma_ascending_single(t: Seq<u128>, i: int)
    requires
        is_ascending(t),
        0 <= i < t.len(),
    ensures
        (t.to_multiset().count(t[i]) == 1) <==> ((i == 0 || t[i - 1] != t[i]) && (i == t.len() - 1
            || t[i + 1] != t[i])),
{
    if (i == 0 || t[i - 1] != t[i]) && (i == t.len() - 1 || t[i + 1] != t[i]) {
        assert forall|j: int| 0 <= j < t.len() && j != i implies t[j] != t[i] by {
            if j < i {
                assert(t[j] <= t[i - 1]);
                assert(t[i - 1] <= t[i]);
            } else {
                assert(t[i + 1] <= t[j]);
                assert(t[i] <= t[i + 1]);
            }
        }
        lemma_count_one(t, i);
    } else if i > 0 && t[i - 1] == t[i] {
        lemma_count_two(t, i - 1, i);
    } else {
        lemma_count_two(t, i, i + 1);
    }
}

/// A sequence has a single lowest bid exactly when it has a single bid, and then
/// `single_lowest_bid` is that bid.
pub proof fn lemma_single_lowest_unique(amounts: Seq<u128>, v: u128)
    requires
        is_single_lowest_bid(amounts, v),
    ensures
        single_lowest_bid(amounts) == v,
{
    let c = choose|w: u128| is_single_lowest_bid(amounts, w);
    assert(is_single_lowest_bid(amounts, c));
    assert(c <= v && v <= c);
}

/// The single lowest bid depends only on how often each amount was bid, not on
/// the order the bids came in.
pub proof fn law_single_lowest_ignores_order(s1: Seq<u128>, s2: Seq<u128>)
    requires
        s1.to_multiset() == s2.to_multiset(),
    ensures
        single_lowest_bid(s1) == single_lowest_bid(s2),
{
    assert forall|v: u128| is_single_lowest_bid(s1, v) <==> is_single_lowest_bid(s2, v) by {
        assert forall|w: u128| is_single_bid(s1, w) <==> is_single_bid(s2, w) by {}
    }
    if exists|v: u128| is_single_lowest_bid(s1, v) {
        let v = choose|v: u128| is_single_lowest_bid(s1, v);
        lemma_single_lowest_unique(s1, v);
        lemma_single_lowest_unique(s2, v);
    }
}

/// Sorts `prices` in ascending order by `<[u128]>::sort`: std documents that it
/// sorts the slice, so the result is ascending and holds the same amounts as
/// before, each as often.
#[verifier::external_body]
fn sort_prices(prices: &mut Vec<u128>)
    ensures
        is_ascending(final(prices)@),
        final(prices)@.to_multiset() == old(prices)@.to_multiset(),
{
    prices.sort();
}

/// The single lowest of the given amounts: sorts them, then takes the first amount
/// whose neighbours both differ from it.
pub fn single_lowest_of(amounts: &Vec<u128>) -> (price: u128)
    requires
        amounts.len() > 0,
    ensures
        has_single_bid(amounts@) ==> is_single_lowest_bid(amounts@, price),
        !has_single_bid(amounts@) ==> price == 0,
        price == single_lowest_bid(amounts@),
{
    let mut prices = amounts.clone();
    assert(prices@ == amounts@);
    sort_prices(&mut prices);
    let ghost t = prices@;
    let n = prices.len();
    let mut i: usize = 0;
    while i < n
        invariant
            n == t.len(),
            prices@ == t,
            is_ascending(t),
            t.to_multiset() == amounts@.to_multiset(),
            0 <= i <= n,
            forall|k: int| 0 <= k < i ==> t.to_multiset().count(#[trigger] t[k]) != 1,
        decreases n - i,
    {
        proof {
            lemma_ascending_single(t, i as int);
        }
        if (i == 0 || prices[i - 1] != prices[i]) && (i == n - 1 || prices[i + 1] != prices[i]) {
            let price = prices[i];
            proof {
                assert forall|w: u128| #[trigger] is_single_bid(amounts@, w) implies price <= w by {
                    assert(t.to_multiset().count(w) == 1);
                    assert(t.contains(w));
                    let k = choose|k: int| 0 <= k < t.len() && t[k] == w;
                    if k < i {
                        assert(t.to_multiset().count(t[k]) != 1);
                    }
                }
                assert(is_single_bid(amounts@, price));
                lemma_single_lowest_unique(amounts@, price);
            }
            return price;
        }
        i = i + 1;
    }
    proof {
        assert forall|w: u128| !is_single_bid(amounts@, w) by {
            if is_single_bid(amounts@, w) {
                assert(t.to_multiset().count(w) == 1);
                assert(t.contains(w));
                let k = choose|k: int| 0 <= k < t.len() && t[k] == w;
                assert(t.to_multiset().count(t[k]) != 1);
            }
        }
    }
    0
}

} // verus!
