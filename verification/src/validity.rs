//! Testing the invariants at run time, for state that comes from outside the
//! library (such as the contract's storage).

use vstd::prelude::*;
use crate::account::{account_id_is_valid, is_valid_account_id};
use crate::auction::{Auction, bids_view};
use crate::chain::strings_view;
use crate::contract::{Contract, lemma_owner_entry_unique};
use crate::model::{has_owner, owner_entry};

verus! {

impl Auction {
    /// The auction is sound: its owner is a valid account, it is not both running
    /// and ended, and each bidder is a valid account that bid once, a positive
    /// amount.
    pub fn is_wf(&self) -> (b: bool)
        ensures
            b == self@.wf(),
    {
        let ghost ps = self@.participants;
        if !account_id_is_valid(&self.owner_id) {
            return false;
        }
        if self.is_enabled && self.is_end {
            return false;
        }
        let n = self.participants.len();
        let mut k: usize = 0;
        while k < n
            invariant
                n == self.participants.len(),
                ps == bids_view(self.participants@),
                ps == self@.participants,
                0 <= k <= n,
                forall|q: int| 0 <= q < k ==> is_valid_account_id((#[trigger] ps[q]).0) && ps[q].1 > 0,
            decreases n - k,
        {
            assert(ps[k as int] == (self.participants@[k as int].0@, self.participants@[k as int].1));
            if !account_id_is_valid(&self.participants[k].0) || self.participants[k].1 == 0 {
                assert(!(is_valid_account_id(ps[k as int].0) && ps[k as int].1 > 0));
                assert(!self@.wf());
                return false;
            }
            k = k + 1;
        }
        let mut k: usize = 0;
        while k < n
            invariant
                n == self.participants.len(),
                ps == bids_view(self.participants@),
                ps == self@.participants,
                0 <= k <= n,
                forall|q: int| 0 <= q < n ==> is_valid_account_id((#[trigger] ps[q]).0) && ps[q].1 > 0,
                forall|a: int, c: int| 0 <= a < c < k ==> (#[trigger] ps[a]).0 != (#[trigger] ps[c]).0,
            decreases n - k,
        {
            let mut j: usize = 0;
            while j < k
                invariant
                    n == self.participants.len(),
                    ps == bids_view(self.participants@),
                    ps == self@.participants,
                ps == self@.participants,
                    0 <= j <= k < n,
                    forall|a: int| 0 <= a < j ==> (#[trigger] ps[a]).0 != ps[k as int].0,
                decreases k - j,
            {
                assert(ps[j as int].0 == self.participants@[j as int].0@);
                assert(ps[k as int].0 == self.participants@[k as int].0@);
                if self.participants[j].0 == self.participants[k].0 {
                    assert(ps[j as int].0 == ps[k as int].0);
                    assert(!self@.wf());
                    return false;
                }
                j = j + 1;
            }
            k = k + 1;
        }
        true
    }
}

/// `x` is one of `v`.
fn contains_id(v: &Vec<u32>, x: u32) -> (b: bool)
    ensures
        b == v@.contains(x),
{
    let mut i: usize = 0;
    while i < v.len()
        invariant
            0 <= i <= v.len(),
            forall|j: int| 0 <= j < i ==> v@[j] != x,
        decreases v.len() - i,
    {
        if v[i] == x {
            return true;
        }
        i = i + 1;
    }
    false
}

/// No id occurs twice in `v`.
fn ids_distinct(v: &Vec<u32>) -> (b: bool)
    ensures
        b == v@.no_duplicates(),
{
    let n = v.len();
    let mut k: usize = 0;
    while k < n
        invariant
            n == v.len(),
            0 <= k <= n,
            forall|a: int, c: int| 0 <= a < c < k ==> v@[a] != v@[c],
        decreases n - k,
    {
        let mut j: usize = 0;
        while j < k
            invariant
                n == v.len(),
                0 <= j <= k < n,
                forall|a: int| 0 <= a < j ==> v@[a] != v@[k as int],
            decreases k - j,
        {
            if v[j] == v[k] {
                return false;
            }
            j = j + 1;
        }
        k = k + 1;
    }
    true
}

/// No string occurs twice in `v`.
fn strings_distinct(v: &Vec<String>) -> (b: bool)
    ensures
        b == strings_view(v@).no_duplicates(),
{
    let ghost s = strings_view(v@);
    let n = v.len();
    let mut k: usize = 0;
    while k < n
        invariant
            n == v.len(),
            s == strings_view(v@),
            0 <= k <= n,
            forall|a: int, c: int| 0 <= a < c < k ==> s[a] != s[c],
        decreases n - k,
    {
        let mut j: usize = 0;
        while j < k
            invariant
                n == v.len(),
                s == strings_view(v@),
                0 <= j <= k < n,
                forall|a: int| 0 <= a < j ==> s[a] != s[k as int],
            decreases k - j,
        {
            if v[j] == v[k] {
                assert(s[j as int] == s[k as int]);
                return false;
            }
            j = j + 1;
        }
        k = k + 1;
    }
    true
}

impl Contract {
    /// Each auction is stored under its id and is sound.
    fn auctions_ok(&self) -> (b: bool)
        ensures
            b == (forall|i: int|
                0 <= i < self@.auctions.len() ==> (#[trigger] self@.auctions[i]).auction_id == i + 1
                    && self@.auctions[i].wf()),
    {
        let ghost m = self@;
        let n = self.auction_by_id.len();
        let mut i: usize = 0;
        while i < n
            invariant
                n == self.auction_by_id.len(),
                m == self@,
                0 <= i <= n,
                forall|q: int| 0 <= q < i ==> (#[trigger] m.auctions[q]).auction_id == q + 1 && m.auctions[q].wf(),
            decreases n - i,
        {
            assert(m.auctions[i as int] == self.auction_by_id@[i as int]@);
            if i >= u32::MAX as usize || self.auction_by_id[i].auction_id != (i + 1) as u32
                || !self.auction_by_id[i].is_wf() {
                return false;
            }
            i = i + 1;
        }
        true
    }

    /// The running auctions are exactly those that have started and not ended.
    fn going_on_ok(&self) -> (b: bool)
        requires
            self.auction_by_id.len() <= u32::MAX,
        ensures
            b == (forall|id: u32|
                #[trigger] self@.auction_going_on.contains(id) <==> (self@.has_auction(id) && self@.auction(
                    id,
                ).is_enabled)),
    {
        let ghost m = self@;
        let g = &self.auction_going_on;
        let n = self.auction_by_id.len();
        let mut k: usize = 0;
        while k < g.len()
            invariant
                n == self.auction_by_id.len(),
                m == self@,
                g == &self.auction_going_on,
                0 <= k <= g.len(),
                forall|q: int| 0 <= q < k ==> m.has_auction(#[trigger] g@[q]) && m.auction(g@[q]).is_enabled,
            decreases g.len() - k,
        {
            let id = g[k];
            if id == 0 || id as usize > n {
                assert(m.auction_going_on.contains(id));
                return false;
            }
            assert(m.auction(id) == self.auction_by_id@[id - 1]@);
            if !self.auction_by_id[(id - 1) as usize].is_enabled {
                assert(m.auction_going_on.contains(id));
                return false;
            }
            k = k + 1;
        }
        let mut i: usize = 0;
        while i < n
            invariant
                n == self.auction_by_id.len(),
                n <= u32::MAX,
                m == self@,
                g == &self.auction_going_on,
                0 <= i <= n,
                forall|q: int| 0 <= q < g@.len() ==> m.has_auction(#[trigger] g@[q]) && m.auction(g@[q]).is_enabled,
                forall|id: u32| 1 <= id <= i && m.auction(id).is_enabled ==> #[trigger] g@.contains(id),
            decreases n - i,
        {
            assert(m.auctions[i as int] == self.auction_by_id@[i as int]@);
            if self.auction_by_id[i].is_enabled && !contains_id(g, (i + 1) as u32) {
                assert(m.has_auction((i + 1) as u32) && m.auction((i + 1) as u32).is_enabled);
                assert(!m.auction_going_on.contains((i + 1) as u32));
                return false;
            }
            i = i + 1;
        }
        assert forall|id: u32| #[trigger] m.auction_going_on.contains(id) <==> (m.has_auction(id) && m.auction(
            id,
        ).is_enabled) by {
            if m.auction_going_on.contains(id) {
                let q = choose|q: int| 0 <= q < g@.len() && g@[q] == id;
            }
        }
        true
    }

    /// Every listed token belongs to an auction that has not ended.
    fn tokens_ok(&self) -> (b: bool)
        ensures
            b == (forall|t: Seq<char>|
                #[trigger] self@.token_id_auctioned.contains(t) ==> exists|i: int|
                    0 <= i < self@.auctions.len() && (#[trigger] self@.auctions[i]).id_token_auction == t
                        && !self@.auctions[i].is_end),
    {
        let ghost m = self@;
        let n = self.auction_by_id.len();
        let nt = self.token_id_auctioned.len();
        let mut k: usize = 0;
        while k < nt
            invariant
                n == self.auction_by_id.len(),
                nt == self.token_id_auctioned.len(),
                m == self@,
                0 <= k <= nt,
                forall|q: int| 0 <= q < k ==> exists|i: int|
                    0 <= i < m.auctions.len() && (#[trigger] m.auctions[i]).id_token_auction == (
                    #[trigger] m.token_id_auctioned[q]) && !m.auctions[i].is_end,
            decreases nt - k,
        {
            let t = &self.token_id_auctioned[k];
            let mut i: usize = 0;
            let mut found = false;
            while i < n
                invariant
                    n == self.auction_by_id.len(),
                    m == self@,
                    0 <= k < nt,
                    t@ == m.token_id_auctioned[k as int],
                    0 <= i <= n,
                    !found ==> forall|q: int| 0 <= q < i ==> !((#[trigger] m.auctions[q]).id_token_auction == t@
                        && !m.auctions[q].is_end),
                    found ==> exists|q: int| 0 <= q < m.auctions.len() && (#[trigger] m.auctions[q]).id_token_auction == t@
                        && !m.auctions[q].is_end,
                decreases n - i,
            {
                assert(m.auctions[i as int] == self.auction_by_id@[i as int]@);
                if !found && self.auction_by_id[i].id_token_auction == *t && !self.auction_by_id[i].is_end {
                    found = true;
                }
                i = i + 1;
            }
            if !found {
                assert(m.token_id_auctioned.contains(t@));
                return false;
            }
            k = k + 1;
        }
        assert forall|t: Seq<char>| #[trigger] m.token_id_auctioned.contains(t) implies exists|i: int|
            0 <= i < m.auctions.len() && (#[trigger] m.auctions[i]).id_token_auction == t && !m.auctions[i].is_end by {
            let q = choose|q: int| 0 <= q < m.token_id_auctioned.len() && m.token_id_auctioned[q] == t;
        }
        true
    }
}

impl Contract {
    /// The index of auctions by owner is sound.
    fn owner_index_ok(&self) -> (b: bool)
        requires
            self.auction_by_id.len() <= u32::MAX,
        ensures
            b == self@.owner_index_wf(),
    {
        let ghost c = self@;
        let ghost m = c.auction_id_by_owner;
        let ne = self.auction_id_by_owner.len();
        let n = self.auction_by_id.len();
        // one entry per owner
        let mut k: usize = 0;
        while k < ne
            invariant
                ne == self.auction_id_by_owner.len(),
                c == self@,
                m == c.auction_id_by_owner,
                0 <= k <= ne,
                forall|a: int, d: int| 0 <= a < d < k ==> (#[trigger] m[a]).0 != (#[trigger] m[d]).0,
            decreases ne - k,
        {
            let mut j: usize = 0;
            while j < k
                invariant
                    ne == self.auction_id_by_owner.len(),
                    c == self@,
                    m == c.auction_id_by_owner,
                    0 <= j <= k < ne,
                    forall|a: int| 0 <= a < j ==> (#[trigger] m[a]).0 != m[k as int].0,
                decreases k - j,
            {
                assert(m[j as int].0 == self.auction_id_by_owner@[j as int].0@);
                assert(m[k as int].0 == self.auction_id_by_owner@[k as int].0@);
                if self.auction_id_by_owner[j].0 == self.auction_id_by_owner[k].0 {
                    assert(!c.owner_index_wf());
                    return false;
                }
                j = j + 1;
            }
            k = k + 1;
        }
        // each listed id is an auction of that owner, and each list ascends
        let mut e: usize = 0;
        while e < ne
            invariant
                ne == self.auction_id_by_owner.len(),
                n == self.auction_by_id.len(),
                c == self@,
                m == c.auction_id_by_owner,
                0 <= e <= ne,
                forall|a: int, d: int| 0 <= a < d < m.len() ==> (#[trigger] m[a]).0 != (#[trigger] m[d]).0,
                forall|a: int, q: int|
                    0 <= a < e && 0 <= q < m[a].1.len() ==> c.has_auction(#[trigger] m[a].1[q])
                        && c.auction(m[a].1[q]).owner_id == m[a].0,
                forall|a: int, q: int, l: int|
                    0 <= a < e && 0 <= q < l < m[a].1.len() ==> #[trigger] m[a].1[q] < #[trigger] m[a].1[l],
            decreases ne - e,
        {
            let ids = &self.auction_id_by_owner[e].1;
            let owner = &self.auction_id_by_owner[e].0;
            assert(ids@ == m[e as int].1 && owner@ == m[e as int].0);
            let mut q: usize = 0;
            while q < ids.len()
                invariant
                    n == self.auction_by_id.len(),
                    c == self@,
                    m == c.auction_id_by_owner,
                    0 <= e < ne == m.len(),
                    ids@ == m[e as int].1,
                    owner@ == m[e as int].0,
                    0 <= q <= ids.len(),
                    forall|r: int| 0 <= r < q ==> c.has_auction(#[trigger] ids@[r]) && c.auction(ids@[r]).owner_id == owner@,
                    forall|r: int, l: int| 0 <= r < l < q ==> #[trigger] ids@[r] < #[trigger] ids@[l],
                decreases ids.len() - q,
            {
                let x = ids[q];
                if x == 0 || x as usize > n {
                    assert(!c.has_auction(m[e as int].1[q as int]));
                    return false;
                }
                assert(c.auction(x) == self.auction_by_id@[x - 1]@);
                if self.auction_by_id[(x - 1) as usize].owner_id != *owner {
                    assert(c.auction(m[e as int].1[q as int]).owner_id != m[e as int].0);
                    return false;
                }
                if q > 0 && ids[q - 1] >= x {
                    assert(!(m[e as int].1[q - 1] < m[e as int].1[q as int]));
                    return false;
                }
                q = q + 1;
            }
            e = e + 1;
        }
        // every auction is listed under its owner
        let mut i: usize = 0;
        while i < n
            invariant
                ne == self.auction_id_by_owner.len(),
                n == self.auction_by_id.len(),
                n <= u32::MAX,
                c == self@,
                m == c.auction_id_by_owner,
                0 <= i <= n,
                forall|a: int, d: int| 0 <= a < d < m.len() ==> (#[trigger] m[a]).0 != (#[trigger] m[d]).0,
                forall|id: u32|
                    1 <= id <= i && #[trigger] c.has_auction(id) ==> has_owner(m, c.auction(id).owner_id) && m[owner_entry(
                        m,
                        c.auction(id).owner_id,
                    )].1.contains(id),
            decreases n - i,
        {
            let id = (i + 1) as u32;
            assert(c.auction(id) == self.auction_by_id@[i as int]@);
            assert(c.has_auction(id));
            match self.owner_position(&self.auction_by_id[i].owner_id) {
                None => {
                    return false;
                },
                Some(e) => {
                    proof {
                        lemma_owner_entry_unique(m, e as int);
                    }
                    assert(self.auction_id_by_owner@[e as int].1@ == m[e as int].1);
                    if !contains_id(&self.auction_id_by_owner[e].1, id) {
                        return false;
                    }
                },
            }
            i = i + 1;
        }
        true
    }

    /// The contract's invariant holds: use this on state that comes from outside
    /// the library before calling the methods that require it.
    pub fn is_wf(&self) -> (b: bool)
        ensures
            b == self.wf(),
    {
        if !account_id_is_valid(&self.owner_id) {
            return false;
        }
        if self.auction_by_id.len() != self.auction_id as usize {
            return false;
        }
        self.auctions_ok() && ids_distinct(&self.auction_going_on) && self.going_on_ok()
            && strings_distinct(&self.token_id_auctioned) && self.tokens_ok() && self.owner_index_ok()
    }
}

} // verus!
