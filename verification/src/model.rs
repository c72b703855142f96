//! The mathematical model of the contract: its state, the calls' context, the
//! actions a call asks the chain to perform, and what each call does to the state.

use vstd::prelude::*;
use crate::account::is_valid_account_id;
use crate::bids::single_lowest_bid;
use crate::decimal::decimal;
use crate::seqs::other_than;

verus! {

/// What a deposit must be to mint a token: one NEAR, in yoctoNEAR.
pub const MINT_FEE: u128 = 1_000_000_000_000_000_000_000_000;

/// What a deposit must be to create an auction: five NEAR, in yoctoNEAR.
pub const CREATE_AUCTION_FEE: u128 = 5_000_000_000_000_000_000_000_000;

/// What a refunded bidder leaves behind: a thousandth of a NEAR, in yoctoNEAR.
pub const TRANSFER_FEE: u128 = 1_000_000_000_000_000_000_000;

/// Block timestamps count nanoseconds; auction lengths count seconds.
pub const NANOS_PER_SECOND: u64 = 1_000_000_000;

/// Why a call was refused. The chain rolls a refused call back, so a refused call
/// leaves the contract as it was.
#[derive(Clone, Copy, Debug, PartialEq, Eq, Structural)]
pub enum ContractError {
    InvalidAccountId,
    WrongMintFee,
    WrongAuctionFee,
    NotTokenOwner,
    TokenAlreadyAuctioned,
    AuctionIdOverflow,
    AuctionNotFound,
    OwnerNotFound,
    NotAuctionOwner,
    AuctionEnded,
    CommitAuctionEnded,
    AuctionStarted,
    ZeroCommit,
    AuctionNotStarted,
    AlreadyCommitted,
    PrivateMethod,
    DepositNotAccepted,
    EndTimeOverflow,
    NoParticipants,
    RefundBelowFee,
    CannotClose,
    CannotCloseAfterStart,
}

impl ContractError {
    /// The text the chain reports for the refusal.
    pub open spec fn message_text(self) -> Seq<char> {
        match self {
            ContractError::InvalidAccountId => "The account ID is invalid"@,
            ContractError::WrongMintFee => "deposit != MINT_FEE"@,
            ContractError::WrongAuctionFee => "Need 5 N To Create An Auction"@,
            ContractError::NotTokenOwner => "You Do Not Own This Token!"@,
            ContractError::TokenAlreadyAuctioned => "This Token Already In An Auction"@,
            ContractError::AuctionIdOverflow => "No Auction Id Is Left"@,
            ContractError::AuctionNotFound => "This Auction Does Not Exist"@,
            ContractError::OwnerNotFound => "This Account Owns No Auction"@,
            ContractError::NotAuctionOwner => "You Do Not Own This Auction"@,
            ContractError::AuctionEnded => "This Auction Already Ends"@,
            ContractError::CommitAuctionEnded => "This Auction Alredy Ends"@,
            ContractError::AuctionStarted => "This Auction Already Begins"@,
            ContractError::ZeroCommit => "You Can Not Commit 0N"@,
            ContractError::AuctionNotStarted => "This Auction Does Not Begin"@,
            ContractError::AlreadyCommitted => "You Have Already Commited"@,
            ContractError::PrivateMethod => "Method check_auctions is private"@,
            ContractError::DepositNotAccepted => "Method doesn't accept deposit"@,
            ContractError::EndTimeOverflow => "The Auction's End Time Overflows"@,
            ContractError::NoParticipants => "Nobody Committed To This Auction"@,
            ContractError::RefundBelowFee => "A Commitment Is Below The Transfer Fee"@,
            ContractError::CannotClose => "You Can Not Close This Auction"@,
            ContractError::CannotCloseAfterStart => "You Can Not Close Auction After Start"@,
        }
    }

    /// The text the chain reports for the refusal.
    pub fn message(&self) -> (m: &'static str)
        ensures
            m@ == self.message_text(),
    {
        match self {
            ContractError::InvalidAccountId => "The account ID is invalid",
            ContractError::WrongMintFee => "deposit != MINT_FEE",
            ContractError::WrongAuctionFee => "Need 5 N To Create An Auction",
            ContractError::NotTokenOwner => "You Do Not Own This Token!",
            ContractError::TokenAlreadyAuctioned => "This Token Already In An Auction",
            ContractError::AuctionIdOverflow => "No Auction Id Is Left",
            ContractError::AuctionNotFound => "This Auction Does Not Exist",
            ContractError::OwnerNotFound => "This Account Owns No Auction",
            ContractError::NotAuctionOwner => "You Do Not Own This Auction",
            ContractError::AuctionEnded => "This Auction Already Ends",
            ContractError::CommitAuctionEnded => "This Auction Alredy Ends",
            ContractError::AuctionStarted => "This Auction Already Begins",
            ContractError::ZeroCommit => "You Can Not Commit 0N",
            ContractError::AuctionNotStarted => "This Auction Does Not Begin",
            ContractError::AlreadyCommitted => "You Have Already Commited",
            ContractError::PrivateMethod => "Method check_auctions is private",
            ContractError::DepositNotAccepted => "Method doesn't accept deposit",
            ContractError::EndTimeOverflow => "The Auction's End Time Overflows",
            ContractError::NoParticipants => "Nobody Committed To This Auction",
            ContractError::RefundBelowFee => "A Commitment Is Below The Transfer Fee",
            ContractError::CannotClose => "You Can Not Close This Auction",
            ContractError::CannotCloseAfterStart => "You Can Not Close Auction After Start",
        }
    }
}

/// An auction as the model sees it.
pub struct AuctionModel {
    pub owner_id: Seq<char>,
    pub auction_id: u32,
    pub auction_start_time: u64,
    pub auction_during_second: u64,
    pub id_token_auction: Seq<char>,
    pub is_enabled: bool,
    pub is_end: bool,
    /// Each bidder with the amount committed, in the order the bids came in.
    pub participants: Seq<(Seq<char>, u128)>,
    pub winner: Seq<char>,
    pub close_price: u128,
}

/// Something the chain is asked to do once a call succeeds.
pub enum ActionModel {
    MintNft { token_id: Seq<char>, receiver_id: Seq<char> },
    ApproveNft { token_id: Seq<char>, account_id: Seq<char> },
    TransferNft { receiver_id: Seq<char>, token_id: Seq<char> },
    TransferFunds { receiver_id: Seq<char>, amount: u128 },
    Log { message: Seq<char> },
}

/// Who calls, on behalf of which contract, with what deposit, and when.
pub struct CallContextModel {
    pub current_account_id: Seq<char>,
    pub predecessor_account_id: Seq<char>,
    pub attached_deposit: u128,
    pub block_timestamp: u64,
}

/// The contract's auction state. The auction with id `i` is `auctions[i - 1]`.
pub struct ContractModel {
    pub owner_id: Seq<char>,
    pub auction_id: u32,
    pub auctions: Seq<AuctionModel>,
    pub auction_id_by_owner: Seq<(Seq<char>, Seq<u32>)>,
    pub auction_going_on: Seq<u32>,
    pub token_id_auctioned: Seq<Seq<char>>,
}

/// The amounts of the bids, in order.
pub open spec fn amounts(ps: Seq<(Seq<char>, u128)>) -> Seq<u128> {
    ps.map_values(|p: (Seq<char>, u128)| p.1)
}

/// `account` has bid.
pub open spec fn has_bid(ps: Seq<(Seq<char>, u128)>, account: Seq<char>) -> bool {
    exists|k: int| 0 <= k < ps.len() && (#[trigger] ps[k]).0 == account
}

/// The first bid of `price`.
pub open spec fn first_bid_of(ps: Seq<(Seq<char>, u128)>, price: u128) -> int {
    choose|k: int|
        0 <= k < ps.len() && (#[trigger] ps[k]).1 == price && forall|j: int|
            0 <= j < k ==> (#[trigger] ps[j]).1 != price
}

/// The bids with the one at `k` taken out and the last moved into its place.
pub open spec fn swap_remove<A>(s: Seq<A>, k: int) -> Seq<A> {
    s.update(k, s.last()).drop_last()
}

/// The refunds of the bids, each less the transfer fee; none where a bid is below
/// the fee.
pub open spec fn refunds(ps: Seq<(Seq<char>, u128)>) -> Option<Seq<ActionModel>> {
    if forall|k: int| 0 <= k < ps.len() ==> (#[trigger] ps[k]).1 >= TRANSFER_FEE {
        Some(
            ps.map_values(
                |p: (Seq<char>, u128)|
                    ActionModel::TransferFunds { receiver_id: p.0, amount: (p.1 - TRANSFER_FEE) as u128 },
            ),
        )
    } else {
        None
    }
}

/// The auction owner has an entry in the index of auctions by owner.
pub open spec fn has_owner(m: Seq<(Seq<char>, Seq<u32>)>, owner: Seq<char>) -> bool {
    exists|i: int| 0 <= i < m.len() && (#[trigger] m[i]).0 == owner
}

/// Where `owner`'s entry stands in the index.
pub open spec fn owner_entry(m: Seq<(Seq<char>, Seq<u32>)>, owner: Seq<char>) -> int {
    choose|i: int| 0 <= i < m.len() && (#[trigger] m[i]).0 == owner
}

/// The ids of `owner`'s auctions, where the index has an entry for `owner`.
pub open spec fn auctions_of(m: Seq<(Seq<char>, Seq<u32>)>, owner: Seq<char>) -> Option<Seq<u32>> {
    if has_owner(m, owner) {
        Some(m[owner_entry(m, owner)].1)
    } else {
        None
    }
}

/// The index with `id` added to `owner`'s entry, or with a new entry for `owner`
/// at its end.
pub open spec fn add_owner_auction(m: Seq<(Seq<char>, Seq<u32>)>, owner: Seq<char>, id: u32) -> Seq<(Seq<char>, Seq<u32>)> {
    if has_owner(m, owner) {
        let i = owner_entry(m, owner);
        m.update(i, (owner, m[i].1.push(id)))
    } else {
        m.push((owner, seq![id]))
    }
}

/// The first bidder of `price`.
pub open spec fn winner_of(a: AuctionModel, price: u128) -> Seq<char> {
    a.participants[first_bid_of(a.participants, price)].0
}

/// The auction once `price` has won: the price and the winner are recorded, and
/// the winner's bid is taken out of the bids.
pub open spec fn awarded(a: AuctionModel, price: u128) -> AuctionModel {
    AuctionModel {
        close_price: price,
        winner: winner_of(a, price),
        participants: swap_remove(a.participants, first_bid_of(a.participants, price)),
        ..a
    }
}

/// What a win asks of the chain: a log line with the winner and the price, the
/// token to the winner, the price to the seller.
pub open spec fn award_actions(a: AuctionModel, price: u128) -> Seq<ActionModel> {
    let w = winner_of(a, price);
    seq![
        ActionModel::Log { message: w + decimal(price as nat) },
        ActionModel::TransferNft { receiver_id: w, token_id: a.id_token_auction },
        ActionModel::TransferFunds { receiver_id: a.owner_id, amount: price },
    ]
}

/// The auction once its time is up and it has been settled: where some amount
/// was bid once, the lowest such amount has won; either way it has ended.
pub open spec fn settled(a: AuctionModel) -> AuctionModel {
    let price = single_lowest_bid(amounts(a.participants));
    let base = if price != 0 { awarded(a, price) } else { a };
    AuctionModel { is_enabled: false, is_end: true, ..base }
}

impl AuctionModel {
    /// The auction as the view methods hand it out: without its bids.
    pub open spec fn without_participants(self) -> AuctionModel {
        AuctionModel { participants: Seq::empty(), ..self }
    }

    /// The owner is a valid account, the auction is not both running and ended,
    /// and each bidder is a valid account that bid once, a positive amount.
    pub open spec fn wf(self) -> bool {
        &&& is_valid_account_id(self.owner_id)
        &&& !(self.is_enabled && self.is_end)
        &&& forall|k: int|
            0 <= k < self.participants.len() ==> is_valid_account_id((#[trigger] self.participants[k]).0)
                && self.participants[k].1 > 0
        &&& forall|j: int, k: int|
            0 <= j < k < self.participants.len() ==> (#[trigger] self.participants[j]).0
                != (#[trigger] self.participants[k]).0
    }
}

impl ContractModel {
    /// The state right after `new`.
    pub open spec fn initial(owner_id: Seq<char>) -> ContractModel {
        ContractModel {
            owner_id,
            auction_id: 0,
            auctions: Seq::empty(),
            auction_id_by_owner: Seq::empty(),
            auction_going_on: Seq::empty(),
            token_id_auctioned: Seq::empty(),
        }
    }

    pub open spec fn has_auction(self, id: u32) -> bool {
        1 <= id <= self.auctions.len()
    }

    pub open spec fn auction(self, id: u32) -> AuctionModel {
        self.auctions[id - 1]
    }

    pub open spec fn with_auction(self, id: u32, a: AuctionModel) -> ContractModel {
        ContractModel { auctions: self.auctions.update(id - 1, a), ..self }
    }

    /// Auction ids run from 1 up to the counter, each auction stored under its id;
    /// the running auctions are exactly the started ones that have not ended, each
    /// listed once; every listed token belongs to an auction that has not ended;
    /// the index by owner has one entry per owner, lists each of an owner's auctions
    /// in ascending order, and nothing else.
    pub open spec fn wf(self) -> bool {
        &&& is_valid_account_id(self.owner_id)
        &&& self.auctions.len() == self.auction_id
        &&& forall|i: int|
            0 <= i < self.auctions.len() ==> (#[trigger] self.auctions[i]).auction_id == i + 1
                && self.auctions[i].wf()
        &&& self.auction_going_on.no_duplicates()
        &&& forall|id: u32|
            #[trigger] self.auction_going_on.contains(id) <==> (self.has_auction(id) && self.auction(
                id,
            ).is_enabled)
        &&& self.token_id_auctioned.no_duplicates()
        &&& forall|t: Seq<char>|
            #[trigger] self.token_id_auctioned.contains(t) ==> exists|i: int|
                0 <= i < self.auctions.len() && (#[trigger] self.auctions[i]).id_token_auction == t
                    && !self.auctions[i].is_end
        &&& self.owner_index_wf()
    }

    pub open spec fn owner_index_wf(self) -> bool {
        let m = self.auction_id_by_owner;
        &&& forall|i: int, j: int| 0 <= i < j < m.len() ==> (#[trigger] m[i]).0 != (#[trigger] m[j]).0
        &&& forall|i: int, k: int|
            0 <= i < m.len() && 0 <= k < m[i].1.len() ==> self.has_auction(#[trigger] m[i].1[k])
                && self.auction(m[i].1[k]).owner_id == m[i].0
        &&& forall|i: int, k: int, l: int|
            0 <= i < m.len() && 0 <= k < l < m[i].1.len() ==> #[trigger] m[i].1[k] < #[trigger] m[i].1[l]
        &&& forall|id: u32|
            #[trigger] self.has_auction(id) ==> has_owner(m, self.auction(id).owner_id) && m[owner_entry(
                m,
                self.auction(id).owner_id,
            )].1.contains(id)
    }

    /// `create_auction`: checks the deposit, that the caller owns the token, that
    /// the token is in no other auction, and that the caller is a valid account;
    /// then stores a new auction under the next id and lists its token.
    pub open spec fn create_auction(
        self,
        ctx: CallContextModel,
        owner_tokens: Seq<Seq<char>>,
        token_id: Seq<char>,
        during: u64,
    ) -> Result<(ContractModel, AuctionModel, Seq<ActionModel>), ContractError> {
        if ctx.attached_deposit != CREATE_AUCTION_FEE {
            Err(ContractError::WrongAuctionFee)
        } else if !owner_tokens.contains(token_id) {
            Err(ContractError::NotTokenOwner)
        } else if self.token_id_auctioned.contains(token_id) {
            Err(ContractError::TokenAlreadyAuctioned)
        } else if self.auction_id == u32::MAX {
            Err(ContractError::AuctionIdOverflow)
        } else if !is_valid_account_id(ctx.predecessor_account_id) {
            Err(ContractError::InvalidAccountId)
        } else {
            let id = (self.auction_id + 1) as u32;
            let a = AuctionModel {
                owner_id: ctx.predecessor_account_id,
                auction_id: id,
                auction_start_time: 0,
                auction_during_second: during,
                id_token_auction: token_id,
                is_enabled: false,
                is_end: false,
                participants: Seq::empty(),
                winner: Seq::empty(),
                close_price: 0,
            };
            let c = ContractModel {
                auction_id: id,
                auctions: self.auctions.push(a),
                auction_id_by_owner: add_owner_auction(
                    self.auction_id_by_owner,
                    ctx.predecessor_account_id,
                    id,
                ),
                token_id_auctioned: self.token_id_auctioned.push(token_id),
                ..self
            };
            Ok((c, a, seq![ActionModel::ApproveNft { token_id, account_id: self.owner_id }]))
        }
    }

    /// `start_auction`: takes no deposit; the owner starts an auction that has neither started nor
    /// ended; it starts now and is listed as running.
    pub open spec fn start_auction(self, ctx: CallContextModel, id: u32) -> Result<ContractModel, ContractError> {
        if ctx.attached_deposit != 0 {
            Err(ContractError::DepositNotAccepted)
        } else if !self.has_auction(id) {
            Err(ContractError::AuctionNotFound)
        } else {
            let a = self.auction(id);
            if ctx.predecessor_account_id != a.owner_id {
                Err(ContractError::NotAuctionOwner)
            } else if a.is_end {
                Err(ContractError::AuctionEnded)
            } else if a.is_enabled {
                Err(ContractError::AuctionStarted)
            } else {
                let c = self.with_auction(
                    id,
                    AuctionModel { auction_start_time: ctx.block_timestamp, is_enabled: true, ..a },
                );
                Ok(ContractModel { auction_going_on: self.auction_going_on.push(id), ..c })
            }
        }
    }

    /// `commit_auction`: a caller who has not bid yet bids the attached deposit on
    /// a running auction.
    pub open spec fn commit_auction(self, ctx: CallContextModel, id: u32) -> Result<ContractModel, ContractError> {
        if !self.has_auction(id) {
            Err(ContractError::AuctionNotFound)
        } else {
            let a = self.auction(id);
            if ctx.attached_deposit == 0 {
                Err(ContractError::ZeroCommit)
            } else if a.is_end {
                Err(ContractError::CommitAuctionEnded)
            } else if !a.is_enabled {
                Err(ContractError::AuctionNotStarted)
            } else if has_bid(a.participants, ctx.predecessor_account_id) {
                Err(ContractError::AlreadyCommitted)
            } else if !is_valid_account_id(ctx.predecessor_account_id) {
                Err(ContractError::InvalidAccountId)
            } else {
                Ok(
                    self.with_auction(
                        id,
                        AuctionModel {
                            participants: a.participants.push(
                                (ctx.predecessor_account_id, ctx.attached_deposit),
                            ),
                            ..a
                        },
                    ),
                )
            }
        }
    }

    /// `close_auction`: takes no deposit; the contract owner may close any auction, the auction owner
    /// one that has not started; it ends, its token and id are no longer listed.
    pub open spec fn close_auction(self, ctx: CallContextModel, id: u32) -> Result<ContractModel, ContractError> {
        if ctx.attached_deposit != 0 {
            Err(ContractError::DepositNotAccepted)
        } else if !self.has_auction(id) {
            Err(ContractError::AuctionNotFound)
        } else {
            let a = self.auction(id);
            let p = ctx.predecessor_account_id;
            if p != self.owner_id && p != a.owner_id {
                Err(ContractError::CannotClose)
            } else if a.is_enabled && p != self.owner_id {
                Err(ContractError::CannotCloseAfterStart)
            } else {
                let c = self.with_auction(id, AuctionModel { is_enabled: false, is_end: true, ..a });
                Ok(
                    ContractModel {
                        token_id_auctioned: self.token_id_auctioned.filter(other_than(a.id_token_auction)),
                        auction_going_on: self.auction_going_on.filter(other_than(id)),
                        ..c
                    },
                )
            }
        }
    }

    /// The time a running auction ends, in nanoseconds, where it fits in a `u64`.
    pub open spec fn end_time(a: AuctionModel) -> Option<u64> {
        let t = a.auction_start_time + a.auction_during_second * NANOS_PER_SECOND;
        if a.auction_during_second * NANOS_PER_SECOND <= u64::MAX && t <= u64::MAX {
            Some(t as u64)
        } else {
            None
        }
    }

    /// Refunds the remaining bidders of auction `id`, then closes it.
    pub open spec fn refund_and_close(
        self,
        ctx: CallContextModel,
        id: u32,
        done: Seq<ActionModel>,
    ) -> Result<(ContractModel, Seq<ActionModel>), ContractError> {
        match refunds(self.auction(id).participants) {
            None => Err(ContractError::RefundBelowFee),
            Some(r) => match self.close_auction(ctx, id) {
                Err(e) => Err(e),
                Ok(c) => Ok((c, done + r)),
            },
        }
    }

    /// Settles auction `id`, whose time is up: the single lowest bid wins; the
    /// winner's bid goes to the seller and the token to the winner, the other
    /// bidders get their bids back less the fee, and the auction closes. Where no
    /// amount was bid once, every bidder gets the bid back less the fee.
    pub open spec fn settle_auction(self, ctx: CallContextModel, id: u32) -> Result<(ContractModel, Seq<ActionModel>), ContractError> {
        let a = self.auction(id);
        if a.participants.len() == 0 {
            Err(ContractError::NoParticipants)
        } else {
            let price = single_lowest_bid(amounts(a.participants));
            if price != 0 {
                if !is_valid_account_id(winner_of(a, price)) {
                    Err(ContractError::InvalidAccountId)
                } else {
                    self.with_auction(id, awarded(a, price)).refund_and_close(
                        ctx,
                        id,
                        award_actions(a, price),
                    )
                }
            } else {
                self.refund_and_close(ctx, id, Seq::empty())
            }
        }
    }

    /// One running auction: settled if its time is up, left as it is otherwise.
    pub open spec fn check_auction(self, ctx: CallContextModel, id: u32) -> Result<(ContractModel, Seq<ActionModel>), ContractError> {
        if !self.has_auction(id) {
            Err(ContractError::AuctionNotFound)
        } else {
            match Self::end_time(self.auction(id)) {
                None => Err(ContractError::EndTimeOverflow),
                Some(t) => if t <= ctx.block_timestamp {
                    self.settle_auction(ctx, id)
                } else {
                    Ok((self, Seq::empty()))
                },
            }
        }
    }

    /// The auctions `ids`, checked one after the other.
    pub open spec fn check_all(self, ctx: CallContextModel, ids: Seq<u32>) -> Result<(ContractModel, Seq<ActionModel>), ContractError>
        decreases ids.len(),
    {
        if ids.len() == 0 {
            Ok((self, Seq::empty()))
        } else {
            match self.check_auction(ctx, ids[0]) {
                Err(e) => Err(e),
                Ok((c, acts)) => match c.check_all(ctx, ids.drop_first()) {
                    Err(e) => Err(e),
                    Ok((c2, acts2)) => Ok((c2, acts + acts2)),
                },
            }
        }
    }

    /// `check_auctions`: only the contract account itself may call it, with no
    /// deposit; it checks
    /// each auction that was running when the call came in.
    pub open spec fn check_auctions(self, ctx: CallContextModel) -> Result<(ContractModel, Seq<ActionModel>), ContractError> {
        if ctx.predecessor_account_id != ctx.current_account_id {
            Err(ContractError::PrivateMethod)
        } else if ctx.attached_deposit != 0 {
            Err(ContractError::DepositNotAccepted)
        } else {
            self.check_all(ctx, self.auction_going_on)
        }
    }
}

} // verus!
