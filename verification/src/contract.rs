//! The auction contract: its state and its methods. Each method takes what the
//! chain tells it about the call, changes the state only when it succeeds, and
//! hands back what the chain is to do.

use vstd::prelude::*;
use crate::account::{ValidAccountId, account_id_is_valid, is_valid_account_id};
use crate::auction::{Auction, bids_view};
use crate::bids::{is_single_lowest_bid, single_lowest_bid};
use crate::chain::{Action, CallContext, actions_view, contains_string, strings_view};
use crate::decimal::{decimal, push_decimal};
use crate::model::{
    ActionModel, AuctionModel, ContractError, ContractModel, CREATE_AUCTION_FEE, MINT_FEE,
    NANOS_PER_SECOND, TRANSFER_FEE, add_owner_auction, amounts, auctions_of, award_actions, awarded,
    has_bid, has_owner, owner_entry, refunds, swap_remove, winner_of,
};
use crate::seqs::{
    lemma_filter_contains_iff, lemma_filter_no_duplicates, other_than, retain_other_ids,
    retain_other_strings,
};

verus! {

/// The auction state of the contract. The auction with id `i` is
/// `auction_by_id[i - 1]`; ids are handed out from 1 up, and `auction_id` is the
/// last one handed out.
pub struct Contract {
    pub owner_id: String,
    pub auction_id: u32,
    pub auction_by_id: Vec<Auction>,
    pub auction_id_by_owner: Vec<(String, Vec<u32>)>,
    pub auction_going_on: Vec<u32>,
    pub token_id_auctioned: Vec<String>,
}

/// The model of the index of auctions by owner.
pub open spec fn owner_index_view(m: Seq<(String, Vec<u32>)>) -> Seq<(Seq<char>, Seq<u32>)> {
    m.map_values(|e: (String, Vec<u32>)| (e.0@, e.1@))
}

/// The model of a list of auctions.
pub open spec fn auctions_view(s: Seq<Auction>) -> Seq<AuctionModel> {
    s.map_values(|a: Auction| a@)
}

impl View for Contract {
    type V = ContractModel;

    open spec fn view(&self) -> ContractModel {
        ContractModel {
            owner_id: self.owner_id@,
            auction_id: self.auction_id,
            auctions: auctions_view(self.auction_by_id@),
            auction_id_by_owner: owner_index_view(self.auction_id_by_owner@),
            auction_going_on: self.auction_going_on@,
            token_id_auctioned: strings_view(self.token_id_auctioned@),
        }
    }
}

impl Contract {
    /// The contract's invariant, over its model.
    pub open spec fn wf(&self) -> bool {
        self@.wf()
    }

    /// A contract owned by `owner_id`, with no auctions.
    pub fn new(owner_id: ValidAccountId) -> (c: Contract)
        ensures
            c@ == ContractModel::initial(owner_id@),
            c.wf(),
    {
        let c = Contract {
            owner_id: owner_id.to_string(),
            auction_id: 0,
            auction_by_id: Vec::new(),
            auction_id_by_owner: Vec::new(),
            auction_going_on: Vec::new(),
            token_id_auctioned: Vec::new(),
        };
        assert(c@.auctions =~= Seq::empty());
        assert(c@.auction_id_by_owner =~= Seq::empty());
        assert(c@.token_id_auctioned =~= Seq::empty());
        c
    }

    /// `token_id` is in an auction that has not ended.
    fn is_token_auctioned(&self, token_id: &String) -> (b: bool)
        ensures
            b == self@.token_id_auctioned.contains(token_id@),
    {
        contains_string(&self.token_id_auctioned, token_id)
    }

    /// Where `owner`'s entry stands in the index of auctions by owner.
    pub(crate) fn owner_position(&self, owner: &String) -> (r: Option<usize>)
        ensures
            match r {
                Some(i) => i < self.auction_id_by_owner.len() && self@.auction_id_by_owner[i as int].0
                    == owner@,
                None => !has_owner(self@.auction_id_by_owner, owner@),
            },
    {
        let mut i: usize = 0;
        while i < self.auction_id_by_owner.len()
            invariant
                0 <= i <= self.auction_id_by_owner.len(),
                forall|j: int| 0 <= j < i ==> (#[trigger] self@.auction_id_by_owner[j]).0 != owner@,
            decreases self.auction_id_by_owner.len() - i,
        {
            if self.auction_id_by_owner[i].0 == *owner {
                return Some(i);
            }
            i = i + 1;
        }
        None
    }

    /// `owner` has created an auction.
    fn is_auction_owner_exist(&self, owner: &String) -> (b: bool)
        ensures
            b == has_owner(self@.auction_id_by_owner, owner@),
    {
        self.owner_position(owner).is_some()
    }

    /// Lists `auction` under its owner in the index of auctions by owner.
    fn add_owner_id_auction(&mut self, auction: &Auction)
        requires
            forall|i: int, j: int|
                0 <= i < j < old(self)@.auction_id_by_owner.len() ==> (#[trigger] old(
                    self,
                )@.auction_id_by_owner[i]).0 != (#[trigger] old(self)@.auction_id_by_owner[j]).0,
        ensures
            final(self)@ == (ContractModel {
                auction_id_by_owner: add_owner_auction(
                    old(self)@.auction_id_by_owner,
                    auction.owner_id@,
                    auction.auction_id,
                ),
                ..old(self)@
            }),
    {
        let ghost m = self@.auction_id_by_owner;
        let ghost o = auction.owner_id@;
        match self.owner_position(&auction.owner_id) {
            Some(i) => {
                let mut ids = self.auction_id_by_owner[i].1.clone();
                assert(ids@ == m[i as int].1);
                ids.push(auction.auction_id);
                self.auction_id_by_owner.set(i, (auction.owner_id.clone(), ids));
                proof {
                    assert(has_owner(m, o));
                    let e = owner_entry(m, o);
                    if e != i {
                        if e < i {
                            assert(m[e].0 != m[i as int].0);
                        } else {
                            assert(m[i as int].0 != m[e].0);
                        }
                    }
                    assert(self@.auction_id_by_owner =~= add_owner_auction(m, o, auction.auction_id));
                }
            },
            None => {
                let mut ids: Vec<u32> = Vec::new();
                ids.push(auction.auction_id);
                self.auction_id_by_owner.push((auction.owner_id.clone(), ids));
                proof {
                    assert(ids@ =~= seq![auction.auction_id]);
                    assert(self@.auction_id_by_owner =~= add_owner_auction(m, o, auction.auction_id));
                }
            },
        }
    }

    /// Creates an auction of `token_id`, owned by the caller, to last
    /// `auction_during_seconds` once started. The deposit must be the creation fee,
    /// `owner_tokens` (the caller's tokens on the NFT ledger) must hold the token,
    /// and no auction that has not ended may hold it. The contract owner is to be
    /// approved for the token.
    pub fn create_auction(
        &mut self,
        ctx: &CallContext,
        owner_tokens: &Vec<String>,
        token_id: String,
        auction_during_seconds: u64,
    ) -> (r: Result<(Auction, Vec<Action>), ContractError>)
        requires
            old(self).wf(),
        ensures
            final(self).wf(),
            match r {
                Ok((a, acts)) => old(self)@.create_auction(
                    ctx@,
                    strings_view(owner_tokens@),
                    token_id@,
                    auction_during_seconds,
                ) == Ok::<(ContractModel, AuctionModel, Seq<ActionModel>), ContractError>((final(self)@, a@, actions_view(acts@))),
                Err(e) => old(self)@.create_auction(
                    ctx@,
                    strings_view(owner_tokens@),
                    token_id@,
                    auction_during_seconds,
                ) == Err::<(ContractModel, AuctionModel, Seq<ActionModel>), ContractError>(e)
                    && final(self)@ == old(self)@,
            },
    {
        if ctx.attached_deposit != CREATE_AUCTION_FEE {
            return Err(ContractError::WrongAuctionFee);
        }
        if !contains_string(owner_tokens, &token_id) {
            return Err(ContractError::NotTokenOwner);
        }
        if self.is_token_auctioned(&token_id) {
            return Err(ContractError::TokenAlreadyAuctioned);
        }
        if self.auction_id == u32::MAX {
            return Err(ContractError::AuctionIdOverflow);
        }
        if !account_id_is_valid(&ctx.predecessor_account_id) {
            return Err(ContractError::InvalidAccountId);
        }
        let ghost old_model = self@;
        self.auction_id = self.auction_id + 1;
        let auction = Auction {
            owner_id: ctx.predecessor_account_id.clone(),
            auction_id: self.auction_id,
            auction_start_time: 0,
            auction_during_second: auction_during_seconds,
            id_token_auction: token_id.clone(),
            is_enabled: false,
            is_end: false,
            participants: Vec::new(),
            winner: String::new(),
            close_price: 0,
        };
        assert(bids_view(auction.participants@) =~= Seq::empty());
        self.auction_by_id.push(auction.clone_auction());
        self.token_id_auctioned.push(token_id.clone());
        self.add_owner_id_auction(&auction);
        let mut actions: Vec<Action> = Vec::new();
        actions.push(Action::ApproveNft { token_id: token_id, account_id: self.owner_id.clone() });
        proof {
            assert(self@.auctions =~= old_model.auctions.push(auction@));
            assert(self@.token_id_auctioned =~= old_model.token_id_auctioned.push(token_id@));
            assert(actions_view(actions@) =~= seq![
                ActionModel::ApproveNft { token_id: token_id@, account_id: old_model.owner_id },
            ]);
            lemma_create_keeps_wf(old_model, self@, auction@);
        }
        Ok((auction, actions))
    }
}


impl Contract {
    /// Where auction `auction_id` stands, if there is one.
    fn auction_index(&self, auction_id: u32) -> (r: Option<usize>)
        ensures
            match r {
                Some(i) => self@.has_auction(auction_id) && i == auction_id - 1,
                None => !self@.has_auction(auction_id),
            },
    {
        if auction_id == 0 || auction_id as usize > self.auction_by_id.len() {
            None
        } else {
            Some((auction_id - 1) as usize)
        }
    }

    /// Puts `a` in place of auction `auction_id`.
    fn replace_auction(&mut self, auction_id: u32, a: Auction)
        requires
            old(self)@.has_auction(auction_id),
        ensures
            final(self)@ == old(self)@.with_auction(auction_id, a@),
            final(self).auction_by_id.len() == old(self).auction_by_id.len(),
    {
        let i = (auction_id - 1) as usize;
        self.auction_by_id.set(i, a);
        assert(self@.auctions =~= old(self)@.auctions.update(i as int, a@));
    }

    /// Starts auction `auction_id`: the call takes no deposit, and only its owner may, and only once, before it
    /// has ended. It starts at the block's time and is listed as running.
    pub fn start_auction(&mut self, ctx: &CallContext, auction_id: u32) -> (r: Result<(), ContractError>)
        requires
            old(self).wf(),
        ensures
            final(self).wf(),
            match r {
                Ok(_) => old(self)@.start_auction(ctx@, auction_id) == Ok::<ContractModel, ContractError>(final(self)@),
                Err(e) => old(self)@.start_auction(ctx@, auction_id) == Err::<ContractModel, ContractError>(e)
                    && final(self)@ == old(self)@,
            },
    {
        if ctx.attached_deposit != 0 {
            return Err(ContractError::DepositNotAccepted);
        }
        let i = match self.auction_index(auction_id) {
            Some(i) => i,
            None => { return Err(ContractError::AuctionNotFound); },
        };
        assert(self@.auction(auction_id) == self.auction_by_id@[i as int]@);
        if ctx.predecessor_account_id != self.auction_by_id[i].owner_id {
            return Err(ContractError::NotAuctionOwner);
        }
        if self.auction_by_id[i].is_end {
            return Err(ContractError::AuctionEnded);
        }
        if self.auction_by_id[i].is_enabled {
            return Err(ContractError::AuctionStarted);
        }
        let ghost c = self@;
        let mut a = self.auction_by_id[i].clone_auction();
        a.auction_start_time = ctx.block_timestamp;
        a.is_enabled = true;
        self.replace_auction(auction_id, a);
        self.auction_going_on.push(auction_id);
        proof {
            lemma_start_keeps_wf(c, auction_id, ctx.block_timestamp, self@);
        }
        Ok(())
    }

    /// Commits the attached deposit as the caller's bid on auction `auction_id`,
    /// which must be running; a caller bids once, and not nothing.
    pub fn commit_auction(&mut self, ctx: &CallContext, auction_id: u32) -> (r: Result<(), ContractError>)
        requires
            old(self).wf(),
        ensures
            final(self).wf(),
            match r {
                Ok(_) => old(self)@.commit_auction(ctx@, auction_id) == Ok::<ContractModel, ContractError>(final(self)@),
                Err(e) => old(self)@.commit_auction(ctx@, auction_id) == Err::<ContractModel, ContractError>(e)
                    && final(self)@ == old(self)@,
            },
    {
        let i = match self.auction_index(auction_id) {
            Some(i) => i,
            None => { return Err(ContractError::AuctionNotFound); },
        };
        assert(self@.auction(auction_id) == self.auction_by_id@[i as int]@);
        if ctx.attached_deposit == 0 {
            return Err(ContractError::ZeroCommit);
        }
        if self.auction_by_id[i].is_end {
            return Err(ContractError::CommitAuctionEnded);
        }
        if !self.auction_by_id[i].is_enabled {
            return Err(ContractError::AuctionNotStarted);
        }
        if self.auction_by_id[i].has_committed(&ctx.predecessor_account_id) {
            return Err(ContractError::AlreadyCommitted);
        }
        if !account_id_is_valid(&ctx.predecessor_account_id) {
            return Err(ContractError::InvalidAccountId);
        }
        let ghost c = self@;
        let mut a = self.auction_by_id[i].clone_auction();
        let ghost before = a.participants@;
        a.participants.push((ctx.predecessor_account_id.clone(), ctx.attached_deposit));
        assert(bids_view(a.participants@) =~= bids_view(before).push(
            (ctx.predecessor_account_id@, ctx.attached_deposit),
        ));
        let ghost a2 = a@;
        self.replace_auction(auction_id, a);
        proof {
            let old_a = c.auction(auction_id);
            assert(a2 == AuctionModel {
                participants: old_a.participants.push((ctx.predecessor_account_id@, ctx.attached_deposit)),
                ..old_a
            });
            assert(a2.wf()) by {
                let ps = a2.participants;
                assert forall|j: int, k: int| 0 <= j < k < ps.len() implies (#[trigger] ps[j]).0 != (#[trigger] ps[k]).0 by {
                    if k == ps.len() - 1 {
                        assert(ps[j] == old_a.participants[j]);
                        if ps[j].0 == ps[k].0 {
                            assert(has_bid(old_a.participants, ctx.predecessor_account_id@));
                        }
                    } else {
                        assert(ps[j] == old_a.participants[j] && ps[k] == old_a.participants[k]);
                    }
                }
                assert forall|k: int| 0 <= k < ps.len() implies is_valid_account_id((#[trigger] ps[k]).0)
                    && ps[k].1 > 0 by {
                    if k < ps.len() - 1 {
                        assert(ps[k] == old_a.participants[k]);
                    }
                }
            }
            lemma_replace_keeps_wf(c, auction_id, a2);
        }
        Ok(())
    }

    /// Closes auction `auction_id`: the call takes no deposit; the contract owner may close any auction, the
    /// auction's owner only one that has not started. It ends, and its token and id
    /// are no longer listed.
    pub fn close_auction(&mut self, ctx: &CallContext, auction_id: u32) -> (r: Result<(), ContractError>)
        requires
            old(self).wf(),
        ensures
            final(self).wf(),
            match r {
                Ok(_) => old(self)@.close_auction(ctx@, auction_id) == Ok::<ContractModel, ContractError>(final(self)@),
                Err(e) => old(self)@.close_auction(ctx@, auction_id) == Err::<ContractModel, ContractError>(e)
                    && final(self)@ == old(self)@,
            },
    {
        if ctx.attached_deposit != 0 {
            return Err(ContractError::DepositNotAccepted);
        }
        let i = match self.auction_index(auction_id) {
            Some(i) => i,
            None => { return Err(ContractError::AuctionNotFound); },
        };
        assert(self@.auction(auction_id) == self.auction_by_id@[i as int]@);
        if ctx.predecessor_account_id != self.owner_id
            && ctx.predecessor_account_id != self.auction_by_id[i].owner_id {
            return Err(ContractError::CannotClose);
        }
        if self.auction_by_id[i].is_enabled && ctx.predecessor_account_id != self.owner_id {
            return Err(ContractError::CannotCloseAfterStart);
        }
        let ghost c = self@;
        let mut a = self.auction_by_id[i].clone_auction();
        a.is_enabled = false;
        a.is_end = true;
        let token = a.id_token_auction.clone();
        self.replace_auction(auction_id, a);
        self.token_id_auctioned = retain_other_strings(&self.token_id_auctioned, &token);
        self.auction_going_on = retain_other_ids(&self.auction_going_on, auction_id);
        proof {
            lemma_close_keeps_wf(c, auction_id, self@);
        }
        Ok(())
    }
}


impl Contract {
    /// Auction `auction_id` without its bids.
    pub fn get_auction_by_id(&self, auction_id: u32) -> (r: Result<Auction, ContractError>)
        ensures
            match r {
                Ok(a) => self@.has_auction(auction_id) && a@ == self@.auction(auction_id).without_participants(),
                Err(e) => !self@.has_auction(auction_id) && e == ContractError::AuctionNotFound,
            },
    {
        match self.auction_index(auction_id) {
            Some(i) => {
                assert(self@.auction(auction_id) == self.auction_by_id@[i as int]@);
                Ok(self.auction_by_id[i].without_participants())
            },
            None => Err(ContractError::AuctionNotFound),
        }
    }

    /// The auctions `owner_id` has created, oldest first, each without its bids.
    /// Someone who never created one gets an error.
    pub fn get_auctions_by_owner(&self, owner_id: &String) -> (r: Result<Vec<Auction>, ContractError>)
        requires
            self.wf(),
        ensures
            match auctions_of(self@.auction_id_by_owner, owner_id@) {
                None => r == Err::<Vec<Auction>, ContractError>(ContractError::OwnerNotFound),
                Some(ids) => r matches Ok(v) && auctions_view(v@) == ids.map_values(
                    |id: u32| self@.auction(id).without_participants(),
                ),
            },
    {
        let e = match self.owner_position(owner_id) {
            Some(e) => e,
            None => { return Err(ContractError::OwnerNotFound); },
        };
        let ghost m = self@.auction_id_by_owner;
        proof {
            lemma_owner_entry_unique(m, e as int);
        }
        let ids = &self.auction_id_by_owner[e].1;
        assert(ids@ == m[e as int].1);
        let mut auctions: Vec<Auction> = Vec::new();
        let mut k: usize = 0;
        while k < ids.len()
            invariant
                0 <= k <= ids.len(),
                ids@ == m[e as int].1,
                self.wf(),
                m == self@.auction_id_by_owner,
                0 <= e < m.len(),
                auctions.len() == k,
                forall|j: int| 0 <= j < k ==> (#[trigger] auctions@[j])@ == self@.auction(ids@[j]).without_participants(),
            decreases ids.len() - k,
        {
            let id = ids[k];
            assert(self@.has_auction(m[e as int].1[k as int]));
            let i = (id - 1) as usize;
            assert(self@.auction(id) == self.auction_by_id@[i as int]@);
            auctions.push(self.auction_by_id[i].without_participants());
            k = k + 1;
        }
        assert(auctions_view(auctions@) =~= ids@.map_values(
            |id: u32| self@.auction(id).without_participants(),
        ));
        Ok(auctions)
    }

    /// Mints `token_id` to `owner_id`; the deposit must be the mint fee. The token
    /// itself is made on the NFT ledger.
    pub fn mint_nft(&self, ctx: &CallContext, owner_id: ValidAccountId, token_id: String) -> (r: Result<Vec<Action>, ContractError>)
        ensures
            ctx.attached_deposit == MINT_FEE ==> (r matches Ok(acts) && actions_view(acts@) == seq![
                ActionModel::MintNft { token_id: token_id@, receiver_id: owner_id@ },
            ]),
            ctx.attached_deposit != MINT_FEE ==> r == Err::<Vec<Action>, ContractError>(ContractError::WrongMintFee),
    {
        if ctx.attached_deposit != MINT_FEE {
            return Err(ContractError::WrongMintFee);
        }
        let mut acts: Vec<Action> = Vec::new();
        acts.push(Action::MintNft { token_id, receiver_id: owner_id.to_string() });
        assert(actions_view(acts@) =~= seq![
            ActionModel::MintNft { token_id: token_id@, receiver_id: owner_id@ },
        ]);
        Ok(acts)
    }

    /// Moves `token_id` to `new_owner_id` on the NFT ledger; the call takes no
    /// deposit.
    pub fn transfer_nft(&self, ctx: &CallContext, new_owner_id: ValidAccountId, token_id: String) -> (r: Result<Vec<Action>, ContractError>)
        ensures
            ctx.attached_deposit == 0 ==> (r matches Ok(acts) && actions_view(acts@) == seq![
                ActionModel::TransferNft { receiver_id: new_owner_id@, token_id: token_id@ },
            ]),
            ctx.attached_deposit != 0 ==> r == Err::<Vec<Action>, ContractError>(ContractError::DepositNotAccepted),
    {
        if ctx.attached_deposit != 0 {
            return Err(ContractError::DepositNotAccepted);
        }
        let mut acts: Vec<Action> = Vec::new();
        acts.push(Action::TransferNft { receiver_id: new_owner_id.to_string(), token_id });
        assert(actions_view(acts@) =~= seq![
            ActionModel::TransferNft { receiver_id: new_owner_id@, token_id: token_id@ },
        ]);
        Ok(acts)
    }
}

/// What a run of checks hands back once `done` has been done before it.
pub open spec fn after(
    done: Seq<ActionModel>,
    r: Result<(ContractModel, Seq<ActionModel>), ContractError>,
) -> Result<(ContractModel, Seq<ActionModel>), ContractError> {
    match r {
        Ok((c, acts)) => Ok((c, done + acts)),
        Err(e) => Err(e),
    }
}

impl Contract {
    /// A copy of the contract's state.
    pub fn clone_state(&self) -> (c: Contract)
        ensures
            c@ == self@,
    {
        let mut auctions: Vec<Auction> = Vec::new();
        let mut i: usize = 0;
        while i < self.auction_by_id.len()
            invariant
                0 <= i <= self.auction_by_id.len(),
                auctions.len() == i,
                forall|j: int| 0 <= j < i ==> (#[trigger] auctions@[j])@ == self.auction_by_id@[j]@,
            decreases self.auction_by_id.len() - i,
        {
            auctions.push(self.auction_by_id[i].clone_auction());
            i = i + 1;
        }
        assert(auctions_view(auctions@) =~= auctions_view(self.auction_by_id@));
        let mut index: Vec<(String, Vec<u32>)> = Vec::new();
        let mut i: usize = 0;
        while i < self.auction_id_by_owner.len()
            invariant
                0 <= i <= self.auction_id_by_owner.len(),
                index.len() == i,
                forall|j: int| 0 <= j < i ==> (#[trigger] index@[j]).0@ == self.auction_id_by_owner@[j].0@
                    && index@[j].1@ == self.auction_id_by_owner@[j].1@,
            decreases self.auction_id_by_owner.len() - i,
        {
            let ids = self.auction_id_by_owner[i].1.clone();
            assert(ids@ == self.auction_id_by_owner@[i as int].1@);
            index.push((self.auction_id_by_owner[i].0.clone(), ids));
            i = i + 1;
        }
        assert(owner_index_view(index@) =~= owner_index_view(self.auction_id_by_owner@));
        let mut tokens: Vec<String> = Vec::new();
        let mut i: usize = 0;
        while i < self.token_id_auctioned.len()
            invariant
                0 <= i <= self.token_id_auctioned.len(),
                tokens.len() == i,
                forall|j: int| 0 <= j < i ==> (#[trigger] tokens@[j])@ == self.token_id_auctioned@[j]@,
            decreases self.token_id_auctioned.len() - i,
        {
            tokens.push(self.token_id_auctioned[i].clone());
            i = i + 1;
        }
        assert(strings_view(tokens@) =~= strings_view(self.token_id_auctioned@));
        let going_on = self.auction_going_on.clone();
        assert(going_on@ == self.auction_going_on@);
        Contract {
            owner_id: self.owner_id.clone(),
            auction_id: self.auction_id,
            auction_by_id: auctions,
            auction_id_by_owner: index,
            auction_going_on: going_on,
            token_id_auctioned: tokens,
        }
    }

    /// The refunds of auction `auction_id`'s bids, each less the transfer fee.
    fn refund_actions(&self, auction_id: u32) -> (r: Result<Vec<Action>, ContractError>)
        requires
            self@.has_auction(auction_id),
        ensures
            match r {
                Ok(acts) => refunds(self@.auction(auction_id).participants) == Some(actions_view(acts@)),
                Err(e) => refunds(self@.auction(auction_id).participants) is None
                    && e == ContractError::RefundBelowFee,
            },
    {
        let a = &self.auction_by_id[(auction_id - 1) as usize];
        assert(self@.auction(auction_id) == a@);
        let ghost ps = a@.participants;
        let mut acts: Vec<Action> = Vec::new();
        let mut i: usize = 0;
        while i < a.participants.len()
            invariant
                0 <= i <= a.participants.len(),
                ps == bids_view(a.participants@),
                ps == self@.auction(auction_id).participants,
                acts.len() == i,
                forall|j: int| 0 <= j < i ==> (#[trigger] ps[j]).1 >= TRANSFER_FEE,
                forall|j: int| 0 <= j < i ==> (#[trigger] acts@[j])@ == (ActionModel::TransferFunds {
                    receiver_id: ps[j].0,
                    amount: (ps[j].1 - TRANSFER_FEE) as u128,
                }),
            decreases a.participants.len() - i,
        {
            let amount = a.participants[i].1;
            if amount < TRANSFER_FEE {
                assert(ps[i as int].1 < TRANSFER_FEE);
                assert(!(forall|k: int| 0 <= k < ps.len() ==> (#[trigger] ps[k]).1 >= TRANSFER_FEE));
                assert(refunds(ps) is None);
                return Err(ContractError::RefundBelowFee);
            }
            acts.push(
                Action::TransferFunds {
                    receiver_id: a.participants[i].0.clone(),
                    amount: amount - TRANSFER_FEE,
                },
            );
            i = i + 1;
        }
        assert(forall|j: int| 0 <= j < ps.len() ==> (#[trigger] ps[j]).1 >= TRANSFER_FEE);
        assert(refunds(ps) is Some);
        assert(actions_view(acts@) =~= refunds(ps)->0);
        assert(ps == self@.auction(auction_id).participants);
        assert(refunds(ps) == Some(actions_view(acts@)));
        Ok(acts)
    }

    /// Refunds the remaining bidders of auction `auction_id` and closes it; the
    /// refunds come after `actions`.
    fn refund_and_close(&mut self, ctx: &CallContext, auction_id: u32, actions: Vec<Action>) -> (r: Result<Vec<Action>, ContractError>)
        requires
            old(self).wf(),
            old(self)@.has_auction(auction_id),
        ensures
            match r {
                Ok(acts) => final(self).wf() && old(self)@.refund_and_close(ctx@, auction_id, actions_view(actions@)) == Ok::<(ContractModel, Seq<ActionModel>), ContractError>((final(self)@, actions_view(acts@))),
                Err(e) => old(self)@.refund_and_close(ctx@, auction_id, actions_view(actions@)) == Err::<(ContractModel, Seq<ActionModel>), ContractError>(e),
            },
    {
        let mut actions = actions;
        let ghost done = actions_view(actions@);
        let mut refund = match self.refund_actions(auction_id) {
            Ok(acts) => acts,
            Err(e) => { return Err(e); },
        };
        let ghost refunded = actions_view(refund@);
        match self.close_auction(ctx, auction_id) {
            Ok(_) => {},
            Err(e) => { return Err(e); },
        }
        actions.append(&mut refund);
        assert(actions_view(actions@) =~= done + refunded);
        Ok(actions)
    }

    /// Records `price` as the winning bid of auction `auction_id`: its first bidder
    /// wins and that bid leaves the bids. Hands back what the win asks of the chain.
    #[verifier::rlimit(40)]
    fn award(&mut self, auction_id: u32, price: u128) -> (r: Result<Vec<Action>, ContractError>)
        requires
            old(self).wf(),
            old(self)@.has_auction(auction_id),
            price != 0,
            price == single_lowest_bid(amounts(old(self)@.auction(auction_id).participants)),
        ensures
            match r {
                Ok(acts) => final(self).wf()
                    && is_valid_account_id(winner_of(old(self)@.auction(auction_id), price))
                    && final(self)@ == old(self)@.with_auction(auction_id, awarded(old(self)@.auction(auction_id), price))
                    && actions_view(acts@) == award_actions(old(self)@.auction(auction_id), price),
                Err(e) => e == ContractError::InvalidAccountId
                    && !is_valid_account_id(winner_of(old(self)@.auction(auction_id), price)),
            },
    {
        let i = (auction_id - 1) as usize;
        let ghost c = self@;
        let ghost a0 = c.auction(auction_id);
        assert(a0 == self.auction_by_id@[i as int]@);
        proof {
            lemma_winning_price_was_bid(a0.participants, price);
            let k = choose|k: int| 0 <= k < a0.participants.len() && (#[trigger] a0.participants[k]).1 == price;
            assert(self.auction_by_id@[i as int].participants[k].1 == price);
        }
        let mut a = self.auction_by_id[i].clone_auction();
        let k = a.position_of_price(price);
        a.find_winner(price);
        let w = a.winner.clone();
        if !account_id_is_valid(&w) {
            return Err(ContractError::InvalidAccountId);
        }
        a.close_price = price;
        let ghost before = a.participants@;
        a.participants.swap_remove(k);
        proof {
            assert(bids_view(a.participants@) =~= swap_remove(bids_view(before), k as int));
            lemma_swap_remove_keeps_bids(a0, k as int, a.winner@, price);
            assert(a@ == awarded(a0, price));
        }
        let token = a.id_token_auction.clone();
        let seller = a.owner_id.clone();
        self.replace_auction(auction_id, a);
        proof {
            lemma_replace_keeps_wf(c, auction_id, awarded(a0, price));
        }
        let actions = win_actions(w, price, token, seller);
        Ok(actions)
    }

    /// Settles auction `auction_id`, whose time is up.
    fn settle_auction(&mut self, ctx: &CallContext, auction_id: u32) -> (r: Result<Vec<Action>, ContractError>)
        requires
            old(self).wf(),
            old(self)@.has_auction(auction_id),
        ensures
            match r {
                Ok(acts) => final(self).wf() && old(self)@.settle_auction(ctx@, auction_id) == Ok::<(ContractModel, Seq<ActionModel>), ContractError>((final(self)@, actions_view(acts@))),
                Err(e) => old(self)@.settle_auction(ctx@, auction_id) == Err::<(ContractModel, Seq<ActionModel>), ContractError>(e),
            },
    {
        let i = (auction_id - 1) as usize;
        assert(self@.auction(auction_id) == self.auction_by_id@[i as int]@);
        if self.auction_by_id[i].participants.len() == 0 {
            return Err(ContractError::NoParticipants);
        }
        let price = self.auction_by_id[i].single_lowest();
        if price != 0 {
            let actions = match self.award(auction_id, price) {
                Ok(acts) => acts,
                Err(e) => { return Err(e); },
            };
            self.refund_and_close(ctx, auction_id, actions)
        } else {
            let actions: Vec<Action> = Vec::new();
            assert(actions_view(actions@) =~= Seq::empty());
            self.refund_and_close(ctx, auction_id, actions)
        }
    }

    /// Checks auction `auction_id`: settles it if its time is up.
    fn check_auction(&mut self, ctx: &CallContext, auction_id: u32) -> (r: Result<Vec<Action>, ContractError>)
        requires
            old(self).wf(),
        ensures
            match r {
                Ok(acts) => final(self).wf() && old(self)@.check_auction(ctx@, auction_id) == Ok::<(ContractModel, Seq<ActionModel>), ContractError>((final(self)@, actions_view(acts@))),
                Err(e) => old(self)@.check_auction(ctx@, auction_id) == Err::<(ContractModel, Seq<ActionModel>), ContractError>(e),
            },
    {
        let i = match self.auction_index(auction_id) {
            Some(i) => i,
            None => { return Err(ContractError::AuctionNotFound); },
        };
        assert(self@.auction(auction_id) == self.auction_by_id@[i as int]@);
        let during = match self.auction_by_id[i].auction_during_second.checked_mul(NANOS_PER_SECOND) {
            Some(d) => d,
            None => { return Err(ContractError::EndTimeOverflow); },
        };
        let end_time = match self.auction_by_id[i].auction_start_time.checked_add(during) {
            Some(t) => t,
            None => { return Err(ContractError::EndTimeOverflow); },
        };
        if end_time <= ctx.block_timestamp {
            self.settle_auction(ctx, auction_id)
        } else {
            let acts: Vec<Action> = Vec::new();
            assert(actions_view(acts@) =~= Seq::empty());
            Ok(acts)
        }
    }

    /// Checks every running auction, in the order they were started: each whose
    /// time is up is settled (see `ContractModel::settle_auction`). Only the
    /// contract account itself may call this, with no deposit. Where any auction cannot be settled,
    /// the call is refused and nothing changes.
    pub fn check_auctions(&mut self, ctx: &CallContext) -> (r: Result<Vec<Action>, ContractError>)
        requires
            old(self).wf(),
        ensures
            final(self).wf(),
            match r {
                Ok(acts) => old(self)@.check_auctions(ctx@) == Ok::<(ContractModel, Seq<ActionModel>), ContractError>((final(self)@, actions_view(acts@))),
                Err(e) => old(self)@.check_auctions(ctx@) == Err::<(ContractModel, Seq<ActionModel>), ContractError>(e)
                    && final(self)@ == old(self)@,
            },
    {
        if ctx.predecessor_account_id != ctx.current_account_id {
            return Err(ContractError::PrivateMethod);
        }
        if ctx.attached_deposit != 0 {
            return Err(ContractError::DepositNotAccepted);
        }
        let ids = self.auction_going_on.clone();
        assert(ids@ == self.auction_going_on@);
        let ghost c0 = self@;
        let mut next = self.clone_state();
        let mut actions: Vec<Action> = Vec::new();
        assert(c0.check_all(ctx@, ids@.skip(0)) == after(actions_view(actions@), next@.check_all(ctx@, ids@.skip(0)))) by {
            assert(ids@.skip(0) =~= ids@);
            let r = next@.check_all(ctx@, ids@);
            match r {
                Ok((cc, a)) => { assert(actions_view(actions@) + a =~= a); },
                Err(_) => {},
            }
        }
        let mut i: usize = 0;
        while i < ids.len()
            invariant
                0 <= i <= ids.len(),
                next.wf(),
                self.wf(),
                self@ == c0,
                c0.auction_going_on == ids@,
                ctx@.predecessor_account_id == ctx@.current_account_id,
                ctx@.attached_deposit == 0,
                c0.check_all(ctx@, ids@.skip(0)) == after(actions_view(actions@), next@.check_all(ctx@, ids@.skip(i as int))),
            decreases ids.len() - i,
        {
            let ghost n0 = next@;
            let ghost rest = ids@.skip(i as int);
            assert(rest[0] == ids@[i as int]);
            assert(rest.drop_first() =~= ids@.skip(i as int + 1));
            let ghost done = actions_view(actions@);
            match next.check_auction(ctx, ids[i]) {
                Ok(mut acts) => {
                    let ghost step = actions_view(acts@);
                    assert(n0.check_all(ctx@, rest) == after(step, next@.check_all(ctx@, ids@.skip(i as int + 1))));
                    actions.append(&mut acts);
                    proof {
                        assert(actions_view(actions@) =~= done + step);
                        let tail = next@.check_all(ctx@, ids@.skip(i as int + 1));
                        match tail {
                            Ok((cc, a)) => { assert(done + (step + a) =~= (done + step) + a); },
                            Err(_) => {},
                        }
                    }
                },
                Err(e) => {
                    assert(n0.check_all(ctx@, rest) == Err::<(ContractModel, Seq<ActionModel>), ContractError>(e));
                    assert(ids@.skip(0) =~= ids@);
                    return Err(e);
                },
            }
            i = i + 1;
        }
        proof {
            assert(ids@.skip(ids.len() as int) =~= Seq::<u32>::empty());
            assert(actions_view(actions@) + Seq::<ActionModel>::empty() =~= actions_view(actions@));
            assert(ids@.skip(0) =~= ids@);
        }
        *self = next;
        Ok(actions)
    }
}

/// What a win asks of the chain: a log line with the winner and the price, the
/// token to the winner, the price to the seller.
fn win_actions(winner: String, price: u128, token: String, seller: String) -> (acts: Vec<Action>)
    ensures
        actions_view(acts@) == seq![
            ActionModel::Log { message: winner@ + decimal(price as nat) },
            ActionModel::TransferNft { receiver_id: winner@, token_id: token@ },
            ActionModel::TransferFunds { receiver_id: seller@, amount: price },
        ],
{
    let mut message = winner.clone();
    push_decimal(&mut message, price);
    let mut actions: Vec<Action> = Vec::new();
    actions.push(Action::Log { message });
    actions.push(Action::TransferNft { receiver_id: winner, token_id: token });
    actions.push(Action::TransferFunds { receiver_id: seller, amount: price });
    assert(actions_view(actions@) =~= seq![
        ActionModel::Log { message: winner@ + decimal(price as nat) },
        ActionModel::TransferNft { receiver_id: winner@, token_id: token@ },
        ActionModel::TransferFunds { receiver_id: seller@, amount: price },
    ]);
    actions
}

/// A winning price that is not zero was bid by someone.
proof fn lemma_winning_price_was_bid(ps: Seq<(Seq<char>, u128)>, price: u128)
    requires
        price != 0,
        price == single_lowest_bid(amounts(ps)),
    ensures
        exists|k: int| 0 <= k < ps.len() && (#[trigger] ps[k]).1 == price,
{
    broadcast use vstd::seq_lib::group_to_multiset_ensures;

    let am = amounts(ps);
    assert(is_single_lowest_bid(am, price));
    assert(am.to_multiset().count(price) > 0);
    assert(am.contains(price));
    let k = choose|k: int| 0 <= k < am.len() && am[k] == price;
    assert(ps[k].1 == price);
}

/// Taking one bid out of a sound auction, and recording a winner and a price,
/// leaves it sound.
pub(crate) proof fn lemma_swap_remove_keeps_bids(a: AuctionModel, k: int, w: Seq<char>, p: u128)
    requires
        a.wf(),
        0 <= k < a.participants.len(),
    ensures
        (AuctionModel { participants: swap_remove(a.participants, k), winner: w, close_price: p, ..a }).wf(),
{
    let ps = a.participants;
    let s = swap_remove(ps, k);
    let n = ps.len();
    assert forall|j: int| 0 <= j < s.len() implies s[j] == ps[if j == k { n - 1 } else { j }] by {}
    assert forall|j: int, l: int| 0 <= j < l < s.len() implies (#[trigger] s[j]).0 != (#[trigger] s[l]).0 by {
        let jj = if j == k { n - 1 } else { j };
        let ll = if l == k { n - 1 } else { l };
        assert(s[j] == ps[jj] && s[l] == ps[ll]);
        if jj < ll {
            assert(ps[jj].0 != ps[ll].0);
        } else {
            assert(ps[ll].0 != ps[jj].0);
        }
    }
    assert forall|j: int| 0 <= j < s.len() implies is_valid_account_id((#[trigger] s[j]).0) && s[j].1 > 0 by {
        let jj = if j == k { n - 1 } else { j };
        assert(s[j] == ps[jj]);
    }
}

/// Putting in place of an auction one with the same id, owner, token and state,
/// whose bids are sound, keeps the invariant.
pub(crate) proof fn lemma_replace_keeps_wf(c: ContractModel, id: u32, a: AuctionModel)
    requires
        c.wf(),
        c.has_auction(id),
        a.wf(),
        a.auction_id == id,
        a.owner_id == c.auction(id).owner_id,
        a.id_token_auction == c.auction(id).id_token_auction,
        a.is_enabled == c.auction(id).is_enabled,
        a.is_end == c.auction(id).is_end,
    ensures
        c.with_auction(id, a).wf(),
{
    let c2 = c.with_auction(id, a);
    assert forall|x: u32| c.has_auction(x) && x != id implies c2.auction(x) == c.auction(x) by {
        assert(c2.auctions[x - 1] == c.auctions[x - 1]);
    }
    assert(c2.auction(id) == a);
    assert forall|i: int| 0 <= i < c2.auctions.len() implies (#[trigger] c2.auctions[i]).auction_id == i + 1
        && c2.auctions[i].wf() by {
        if i != id - 1 {
            assert(c2.auctions[i] == c.auctions[i]);
        }
    }
    assert forall|x: u32| #[trigger] c2.auction_going_on.contains(x) <==> (c2.has_auction(x) && c2.auction(
        x,
    ).is_enabled) by {
        if c.has_auction(x) && x != id {
            assert(c2.auction(x) == c.auction(x));
        }
    }
    assert forall|t: Seq<char>| #[trigger] c2.token_id_auctioned.contains(t) implies exists|i: int|
        0 <= i < c2.auctions.len() && (#[trigger] c2.auctions[i]).id_token_auction == t
            && !c2.auctions[i].is_end by {
        let i = choose|i: int| 0 <= i < c.auctions.len() && (#[trigger] c.auctions[i]).id_token_auction == t
            && !c.auctions[i].is_end;
        if i != id - 1 {
            assert(c2.auctions[i] == c.auctions[i]);
        } else {
            assert(c2.auctions[i] == a);
        }
    }
    let m = c.auction_id_by_owner;
    assert forall|x: u32| #[trigger] c2.has_auction(x) implies c2.auction(x).owner_id == c.auction(x).owner_id by {
        if x != id {
            assert(c2.auction(x) == c.auction(x));
        }
    }
    assert forall|i: int, k: int|
        0 <= i < m.len() && 0 <= k < m[i].1.len() implies c2.has_auction(#[trigger] m[i].1[k])
            && c2.auction(m[i].1[k]).owner_id == m[i].0 by {
        assert(c.has_auction(m[i].1[k]));
    }
    assert forall|x: u32| #[trigger] c2.has_auction(x) implies has_owner(m, c2.auction(x).owner_id) && m[owner_entry(
        m,
        c2.auction(x).owner_id,
    )].1.contains(x) by {
        assert(c.has_auction(x));
    }
}

/// Starting an unstarted auction keeps the invariant.
proof fn lemma_start_keeps_wf(c: ContractModel, id: u32, now: u64, c2: ContractModel)
    requires
        c.wf(),
        c.has_auction(id),
        !c.auction(id).is_enabled,
        !c.auction(id).is_end,
        c2 == (ContractModel {
            auction_going_on: c.auction_going_on.push(id),
            ..c.with_auction(id, AuctionModel { auction_start_time: now, is_enabled: true, ..c.auction(id) })
        }),
    ensures
        c2.wf(),
{
    let a = c2.auction(id);
    assert(c2.auctions[id - 1] == a);
    assert forall|x: u32| c.has_auction(x) && x != id implies c2.auction(x) == c.auction(x) by {
        assert(c2.auctions[x - 1] == c.auctions[x - 1]);
    }
    assert forall|i: int| 0 <= i < c2.auctions.len() implies (#[trigger] c2.auctions[i]).auction_id == i + 1
        && c2.auctions[i].wf() by {
        if i != id - 1 {
            assert(c2.auctions[i] == c.auctions[i]);
        }
    }
    assert(c.auction_going_on.contains(id) ==> c.has_auction(id) && c.auction(id).is_enabled);
    assert(!c.auction_going_on.contains(id));
    assert(c2.auctions[id - 1] == c.auctions.update(id - 1, a)[id - 1]);
    assert(a.is_enabled);
    assert(c2.auction_going_on[c.auction_going_on.len() as int] == id);
    assert forall|x: u32| #[trigger] c2.auction_going_on.contains(x) <==> (c2.has_auction(x) && c2.auction(
        x,
    ).is_enabled) by {
        if x == id {
            assert(c2.auction_going_on.contains(id));
        }
        if c.has_auction(x) && x != id {
            assert(c2.auction(x) == c.auction(x));
        }
        if c2.auction_going_on.contains(x) && x != id {
            let k = choose|k: int| 0 <= k < c2.auction_going_on.len() && c2.auction_going_on[k] == x;
            assert(c.auction_going_on[k] == x);
        }
        if x != id && c.auction_going_on.contains(x) {
            let k = choose|k: int| 0 <= k < c.auction_going_on.len() && c.auction_going_on[k] == x;
            assert(c2.auction_going_on[k] == x);
        }
    }
    assert forall|t: Seq<char>| #[trigger] c2.token_id_auctioned.contains(t) implies exists|i: int|
        0 <= i < c2.auctions.len() && (#[trigger] c2.auctions[i]).id_token_auction == t
            && !c2.auctions[i].is_end by {
        let i = choose|i: int| 0 <= i < c.auctions.len() && (#[trigger] c.auctions[i]).id_token_auction == t
            && !c.auctions[i].is_end;
        if i != id - 1 {
            assert(c2.auctions[i] == c.auctions[i]);
        }
    }
    let m = c.auction_id_by_owner;
    assert forall|x: u32| #[trigger] c2.has_auction(x) implies c2.auction(x).owner_id == c.auction(x).owner_id by {
        if x != id {
            assert(c2.auction(x) == c.auction(x));
        }
    }
    assert forall|i: int, k: int|
        0 <= i < m.len() && 0 <= k < m[i].1.len() implies c2.has_auction(#[trigger] m[i].1[k])
            && c2.auction(m[i].1[k]).owner_id == m[i].0 by {
        assert(c.has_auction(m[i].1[k]));
    }
    assert forall|x: u32| #[trigger] c2.has_auction(x) implies has_owner(m, c2.auction(x).owner_id) && m[owner_entry(
        m,
        c2.auction(x).owner_id,
    )].1.contains(x) by {
        assert(c.has_auction(x));
    }
}

/// Closing an auction keeps the invariant.
pub(crate) proof fn lemma_close_keeps_wf(c: ContractModel, id: u32, c2: ContractModel)
    requires
        c.wf(),
        c.has_auction(id),
        c2 == (ContractModel {
            token_id_auctioned: c.token_id_auctioned.filter(other_than(c.auction(id).id_token_auction)),
            auction_going_on: c.auction_going_on.filter(other_than(id)),
            ..c.with_auction(id, AuctionModel { is_enabled: false, is_end: true, ..c.auction(id) })
        }),
    ensures
        c2.wf(),
{
    let a = c2.auction(id);
    let tok = c.auction(id).id_token_auction;
    assert(c2.auctions[id - 1] == a);
    assert forall|x: u32| c.has_auction(x) && x != id implies c2.auction(x) == c.auction(x) by {
        assert(c2.auctions[x - 1] == c.auctions[x - 1]);
    }
    assert forall|i: int| 0 <= i < c2.auctions.len() implies (#[trigger] c2.auctions[i]).auction_id == i + 1
        && c2.auctions[i].wf() by {
        if i != id - 1 {
            assert(c2.auctions[i] == c.auctions[i]);
        }
    }
    lemma_filter_no_duplicates(c.auction_going_on, other_than(id));
    lemma_filter_no_duplicates(c.token_id_auctioned, other_than(tok));
    assert forall|x: u32| #[trigger] c2.auction_going_on.contains(x) <==> (c2.has_auction(x) && c2.auction(
        x,
    ).is_enabled) by {
        lemma_filter_contains_iff(c.auction_going_on, other_than(id), x);
        if c.has_auction(x) && x != id {
            assert(c2.auction(x) == c.auction(x));
        }
    }
    assert forall|t: Seq<char>| #[trigger] c2.token_id_auctioned.contains(t) implies exists|i: int|
        0 <= i < c2.auctions.len() && (#[trigger] c2.auctions[i]).id_token_auction == t
            && !c2.auctions[i].is_end by {
        lemma_filter_contains_iff(c.token_id_auctioned, other_than(tok), t);
        let i = choose|i: int| 0 <= i < c.auctions.len() && (#[trigger] c.auctions[i]).id_token_auction == t
            && !c.auctions[i].is_end;
        if i != id - 1 {
            assert(c2.auctions[i] == c.auctions[i]);
        } else {
            assert(c.auctions[i].id_token_auction == tok);
        }
    }
    let m = c.auction_id_by_owner;
    assert forall|x: u32| #[trigger] c2.has_auction(x) implies c2.auction(x).owner_id == c.auction(x).owner_id by {
        if x != id {
            assert(c2.auction(x) == c.auction(x));
        }
    }
    assert forall|i: int, k: int|
        0 <= i < m.len() && 0 <= k < m[i].1.len() implies c2.has_auction(#[trigger] m[i].1[k])
            && c2.auction(m[i].1[k]).owner_id == m[i].0 by {
        assert(c.has_auction(m[i].1[k]));
    }
    assert forall|x: u32| #[trigger] c2.has_auction(x) implies has_owner(m, c2.auction(x).owner_id) && m[owner_entry(
        m,
        c2.auction(x).owner_id,
    )].1.contains(x) by {
        assert(c.has_auction(x));
    }
}

/// In an index with one entry per owner, the entry of `m[i].0` is `i`.
pub proof fn lemma_owner_entry_unique(m: Seq<(Seq<char>, Seq<u32>)>, i: int)
    requires
        0 <= i < m.len(),
        forall|x: int, y: int| 0 <= x < y < m.len() ==> (#[trigger] m[x]).0 != (#[trigger] m[y]).0,
    ensures
        has_owner(m, m[i].0),
        owner_entry(m, m[i].0) == i,
{
    assert(m[i].0 == m[i].0);
    let e = owner_entry(m, m[i].0);
    if e < i {
        assert(m[e].0 != m[i].0);
    } else if e > i {
        assert(m[i].0 != m[e].0);
    }
}

/// Listing a new auction under its owner keeps the index of auctions by owner
/// sound: one entry per owner, each listed id an auction of that owner, each list
/// ascending, and every auction listed under its owner. The new auction takes the
/// next id, so no list held it before.
pub proof fn law_add_owner_auction_keeps_owner_index(c: ContractModel, c2: ContractModel, a: AuctionModel)
    requires
        c.owner_index_wf(),
        c.auctions.len() == c.auction_id,
        a.auction_id == c.auction_id + 1,
        c2 == (ContractModel {
            auction_id: a.auction_id,
            auctions: c.auctions.push(a),
            auction_id_by_owner: add_owner_auction(c.auction_id_by_owner, a.owner_id, a.auction_id),
            token_id_auctioned: c.token_id_auctioned.push(a.id_token_auction),
            ..c
        }),
    ensures
        c2.owner_index_wf(),
{
    let m = c.auction_id_by_owner;
    let m2 = c2.auction_id_by_owner;
    let o = a.owner_id;
    let id = a.auction_id;
    let n = c.auctions.len();
    assert forall|x: u32| c.has_auction(x) implies c2.has_auction(x) && c2.auction(x) == c.auction(x) by {
        assert(c2.auctions[x - 1] == c.auctions[x - 1]);
    }
    assert(c2.has_auction(id) && c2.auction(id) == a) by {
        assert(c2.auctions[n as int] == a);
    }
    if has_owner(m, o) {
        let e = owner_entry(m, o);
        assert(m2 == m.update(e, (o, m[e].1.push(id))));
        assert forall|i: int, j: int| 0 <= i < j < m2.len() implies (#[trigger] m2[i]).0 != (#[trigger] m2[j]).0 by {
            assert(m2[i].0 == m[i].0 && m2[j].0 == m[j].0);
        }
        assert forall|i: int, k: int|
            0 <= i < m2.len() && 0 <= k < m2[i].1.len() implies c2.has_auction(#[trigger] m2[i].1[k])
                && c2.auction(m2[i].1[k]).owner_id == m2[i].0 by {
            if i == e && k == m[e].1.len() {
            } else {
                assert(m2[i].1[k] == m[i].1[k]);
                assert(c.has_auction(m[i].1[k]));
            }
        }
        assert forall|i: int, k: int, l: int|
            0 <= i < m2.len() && 0 <= k < l < m2[i].1.len() implies #[trigger] m2[i].1[k] < #[trigger] m2[i].1[l] by {
            assert(m2[i].1[k] == m[i].1[k]);
            if i == e && l == m[e].1.len() {
                assert(c.has_auction(m[i].1[k]));
            } else {
                assert(m2[i].1[l] == m[i].1[l]);
            }
        }
        assert forall|x: u32| #[trigger] c2.has_auction(x) implies has_owner(m2, c2.auction(x).owner_id) && m2[owner_entry(
            m2,
            c2.auction(x).owner_id,
        )].1.contains(x) by {
            let ox = c2.auction(x).owner_id;
            if x == id {
                assert(m2[e].0 == o);
                lemma_owner_entry_unique(m2, e);
                assert(m2[e].1[m[e].1.len() as int] == id);
            } else {
                assert(c.has_auction(x));
                let ex = owner_entry(m, ox);
                assert(m2[ex].0 == ox);
                lemma_owner_entry_unique(m2, ex);
                let k = choose|k: int| 0 <= k < m[ex].1.len() && m[ex].1[k] == x;
                assert(m2[ex].1[k] == x);
            }
        }
    } else {
        assert(m2 == m.push((o, seq![id])));
        assert forall|i: int, j: int| 0 <= i < j < m2.len() implies (#[trigger] m2[i]).0 != (#[trigger] m2[j]).0 by {
            if j == m.len() {
                assert(m2[i] == m[i]);
                if m[i].0 == o {
                    assert(has_owner(m, o));
                }
            } else {
                assert(m2[i] == m[i] && m2[j] == m[j]);
            }
        }
        assert forall|i: int, k: int|
            0 <= i < m2.len() && 0 <= k < m2[i].1.len() implies c2.has_auction(#[trigger] m2[i].1[k])
                && c2.auction(m2[i].1[k]).owner_id == m2[i].0 by {
            if i < m.len() {
                assert(m2[i] == m[i]);
                assert(c.has_auction(m[i].1[k]));
            }
        }
        assert forall|i: int, k: int, l: int|
            0 <= i < m2.len() && 0 <= k < l < m2[i].1.len() implies #[trigger] m2[i].1[k] < #[trigger] m2[i].1[l] by {
            assert(m2[i] == m[i]);
        }
        assert forall|x: u32| #[trigger] c2.has_auction(x) implies has_owner(m2, c2.auction(x).owner_id) && m2[owner_entry(
            m2,
            c2.auction(x).owner_id,
        )].1.contains(x) by {
            let ox = c2.auction(x).owner_id;
            if x == id {
                lemma_owner_entry_unique(m2, m.len() as int);
                assert(m2[m.len() as int].1[0] == id);
            } else {
                assert(c.has_auction(x));
                let ex = owner_entry(m, ox);
                assert(m2[ex] == m[ex]);
                lemma_owner_entry_unique(m2, ex);
                let k = choose|k: int| 0 <= k < m[ex].1.len() && m[ex].1[k] == x;
                assert(m2[ex].1[k] == x);
            }
        }
    }
}

/// Adding a fresh auction, unstarted, whose token no running auction holds, keeps
/// the invariant.
proof fn lemma_create_keeps_wf(c: ContractModel, c2: ContractModel, a: AuctionModel)
    requires
        c.wf(),
        c.auction_id < u32::MAX,
        is_valid_account_id(a.owner_id),
        a.auction_id == c.auction_id + 1,
        !a.is_enabled,
        !a.is_end,
        a.participants.len() == 0,
        !c.token_id_auctioned.contains(a.id_token_auction),
        c2 == (ContractModel {
            auction_id: a.auction_id,
            auctions: c.auctions.push(a),
            auction_id_by_owner: add_owner_auction(c.auction_id_by_owner, a.owner_id, a.auction_id),
            token_id_auctioned: c.token_id_auctioned.push(a.id_token_auction),
            ..c
        }),
    ensures
        c2.wf(),
{
    let n = c.auctions.len();
    assert forall|x: u32| c.has_auction(x) implies c2.has_auction(x) && c2.auction(x) == c.auction(x) by {
        assert(c2.auctions[x - 1] == c.auctions[x - 1]);
    }
    assert(c2.auctions[n as int] == a);
    assert forall|i: int| 0 <= i < c2.auctions.len() implies (#[trigger] c2.auctions[i]).auction_id == i + 1
        && c2.auctions[i].wf() by {
        if i < n {
            assert(c2.auctions[i] == c.auctions[i]);
        }
    }
    assert forall|x: u32| #[trigger] c2.auction_going_on.contains(x) <==> (c2.has_auction(x) && c2.auction(
        x,
    ).is_enabled) by {
        if c2.has_auction(x) && !c.has_auction(x) {
            assert(x == a.auction_id);
            assert(!c.auction_going_on.contains(x));
        }
    }
    assert forall|t: Seq<char>| #[trigger] c2.token_id_auctioned.contains(t) implies exists|i: int|
        0 <= i < c2.auctions.len() && (#[trigger] c2.auctions[i]).id_token_auction == t
            && !c2.auctions[i].is_end by {
        if t == a.id_token_auction {
            assert(c2.auctions[n as int].id_token_auction == t);
        } else {
            assert(c.token_id_auctioned.contains(t));
            let i = choose|i: int| 0 <= i < c.auctions.len() && (#[trigger] c.auctions[i]).id_token_auction == t
                && !c.auctions[i].is_end;
            assert(c2.auctions[i] == c.auctions[i]);
        }
    }
    law_add_owner_auction_keeps_owner_index(c, c2, a);
}

} // verus!
