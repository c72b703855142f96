//! One auction: its owner, token, timing, bids and outcome.

use vstd::prelude::*;
use crate::bids::{single_lowest_bid, single_lowest_of};
use crate::model::{AuctionModel, amounts, first_bid_of, has_bid};

verus! {

/// A bidder with the amount committed.
pub type Bid = (String, u128);

/// The model of a list of bids.
pub open spec fn bids_view(ps: Seq<Bid>) -> Seq<(Seq<char>, u128)> {
    ps.map_values(|p: Bid| (p.0@, p.1))
}

/// An auction. `participants` lists each bidder once, in the order the bids came
/// in; a bidder taken out leaves its place to the last one.
pub struct Auction {
    pub owner_id: String,
    pub auction_id: u32,
    pub auction_start_time: u64,
    pub auction_during_second: u64,
    pub id_token_auction: String,
    pub is_enabled: bool,
    pub is_end: bool,
    pub participants: Vec<Bid>,
    pub winner: String,
    pub close_price: u128,
}

impl View for Auction {
    type V = AuctionModel;

    open spec fn view(&self) -> AuctionModel {
        AuctionModel {
            owner_id: self.owner_id@,
            auction_id: self.auction_id,
            auction_start_time: self.auction_start_time,
            auction_during_second: self.auction_during_second,
            id_token_auction: self.id_token_auction@,
            is_enabled: self.is_enabled,
            is_end: self.is_end,
            participants: bids_view(self.participants@),
            winner: self.winner@,
            close_price: self.close_price,
        }
    }
}

/// A copy of the bids.
pub(crate) fn clone_bids(ps: &Vec<Bid>) -> (r: Vec<Bid>)
    ensures
        bids_view(r@) == bids_view(ps@),
{
    let mut r: Vec<Bid> = Vec::new();
    let mut i: usize = 0;
    while i < ps.len()
        invariant
            0 <= i <= ps.len(),
            r.len() == i,
            bids_view(r@) == bids_view(ps@.take(i as int)),
        decreases ps.len() - i,
    {
        let ghost before = r@;
        let name = ps[i].0.clone();
        r.push((name, ps[i].1));
        proof {
            let t = ps@.take(i as int + 1);
            assert(t == ps@.take(i as int).push(ps@[i as int]));
            assert forall|j: int| 0 <= j < t.len() implies bids_view(r@)[j] == bids_view(t)[j] by {
                if j < i {
                    assert(r@[j] == before[j]);
                    assert(bids_view(before)[j] == bids_view(ps@.take(i as int))[j]);
                }
            }
            assert(bids_view(r@) =~= bids_view(t));
        }
        i = i + 1;
    }
    assert(ps@.take(ps.len() as int) == ps@);
    r
}

impl Auction {
    /// A copy of the auction.
    pub fn clone_auction(&self) -> (r: Auction)
        ensures
            r@ == self@,
    {
        Auction {
            owner_id: self.owner_id.clone(),
            auction_id: self.auction_id,
            auction_start_time: self.auction_start_time,
            auction_during_second: self.auction_during_second,
            id_token_auction: self.id_token_auction.clone(),
            is_enabled: self.is_enabled,
            is_end: self.is_end,
            participants: clone_bids(&self.participants),
            winner: self.winner.clone(),
            close_price: self.close_price,
        }
    }

    /// A copy of the auction without its bids, as the view methods hand it out.
    pub fn without_participants(&self) -> (r: Auction)
        ensures
            r@ == self@.without_participants(),
    {
        let r = Auction {
            owner_id: self.owner_id.clone(),
            auction_id: self.auction_id,
            auction_start_time: self.auction_start_time,
            auction_during_second: self.auction_during_second,
            id_token_auction: self.id_token_auction.clone(),
            is_enabled: self.is_enabled,
            is_end: self.is_end,
            participants: Vec::new(),
            winner: self.winner.clone(),
            close_price: self.close_price,
        };
        assert(bids_view(r.participants@) =~= Seq::empty());
        r
    }

    /// The amounts bid, in the order of the bids.
    pub fn bid_amounts(&self) -> (r: Vec<u128>)
        ensures
            r@ == amounts(self@.participants),
    {
        let mut r: Vec<u128> = Vec::new();
        let mut i: usize = 0;
        while i < self.participants.len()
            invariant
                0 <= i <= self.participants.len(),
                r@ =~= amounts(bids_view(self.participants@.take(i as int))),
            decreases self.participants.len() - i,
        {
            r.push(self.participants[i].1);
            assert(self.participants@.take(i as int + 1) == self.participants@.take(i as int).push(
                self.participants@[i as int],
            ));
            i = i + 1;
        }
        assert(self.participants@.take(self.participants.len() as int) == self.participants@);
        r
    }

    /// The lowest amount that exactly one bidder committed, or 0 where every amount
    /// was committed by two bidders or more.
    pub fn single_lowest(&self) -> (price: u128)
        requires
            self.participants.len() > 0,
        ensures
            price == single_lowest_bid(amounts(self@.participants)),
    {
        let prices = self.bid_amounts();
        single_lowest_of(&prices)
    }

    /// The single lowest bid: the lowest amount that exactly one bidder committed,
    /// or 0 where there is none. There must be at least one bid.
    pub fn calculate_the_single_lowest(&mut self) -> (price: u128)
        requires
            old(self).participants.len() > 0,
        ensures
            *final(self) == *old(self),
            price == single_lowest_bid(amounts(old(self)@.participants)),
    {
        self.single_lowest()
    }

    /// Where the first bid of `price` stands.
    pub fn position_of_price(&self, price: u128) -> (k: usize)
        requires
            exists|j: int| 0 <= j < self.participants.len() && (#[trigger] self.participants[j]).1 == price,
        ensures
            k == first_bid_of(self@.participants, price),
            k < self.participants.len(),
            self.participants[k as int].1 == price,
    {
        let mut i: usize = 0;
        while i < self.participants.len()
            invariant
                0 <= i <= self.participants.len(),
                forall|j: int| 0 <= j < i ==> (#[trigger] self.participants[j]).1 != price,
            decreases self.participants.len() - i,
        {
            if self.participants[i].1 == price {
                proof {
                    let ps = self@.participants;
                    assert(ps[i as int].1 == price);
                    assert forall|j: int| 0 <= j < i implies (#[trigger] ps[j]).1 != price by {
                        assert(self.participants[j].1 != price);
                    }
                    let c = first_bid_of(ps, price);
                    assert(0 <= c < ps.len() && ps[c].1 == price && forall|j: int|
                        0 <= j < c ==> (#[trigger] ps[j]).1 != price);
                    if c < i {
                        assert(self.participants[c].1 == price);
                    }
                    if c > i {
                        assert(ps[i as int].1 != price);
                    }
                }
                return i;
            }
            i = i + 1;
        }
        proof {
            let j = choose|j: int| 0 <= j < self.participants.len() && (#[trigger] self.participants[j]).1 == price;
            assert(self.participants[j].1 != price);
        }
        0
    }

    /// Records as the winner the first bidder who committed `price`. Someone must
    /// have committed it.
    pub fn find_winner(&mut self, price: u128)
        requires
            exists|j: int| 0 <= j < old(self).participants.len() && (#[trigger] old(self).participants[j]).1 == price,
        ensures
            final(self)@ == (AuctionModel {
                winner: old(self)@.participants[first_bid_of(old(self)@.participants, price)].0,
                ..old(self)@
            }),
    {
        let k = self.position_of_price(price);
        self.winner = self.participants[k].0.clone();
    }
}

impl Auction {
    /// `account` has bid on this auction.
    pub fn has_committed(&self, account: &String) -> (b: bool)
        ensures
            b == has_bid(self@.participants, account@),
    {
        let mut i: usize = 0;
        while i < self.participants.len()
            invariant
                0 <= i <= self.participants.len(),
                forall|j: int| 0 <= j < i ==> (#[trigger] self.participants@[j]).0@ != account@,
            decreases self.participants.len() - i,
        {
            if self.participants[i].0 == *account {
                assert(self@.participants[i as int].0 == account@);
                return true;
            }
            i = i + 1;
        }
        proof {
            if has_bid(self@.participants, account@) {
                let k = choose|k: int| 0 <= k < self@.participants.len() && (#[trigger] self@.participants[k]).0 == account@;
                assert(self.participants@[k].0@ != account@);
            }
        }
        false
    }
}

} // verus!
