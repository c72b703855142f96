//! A reverse auction of NFTs: every bidder commits an amount once, and when the
//! auction's time is up the bidder whose amount nobody else committed, and which is
//! the lowest such amount, wins the token. This crate holds the contract's state and
//! its decisions; what touches the chain (the NFT ledger, transfers, logs) comes
//! back from each call as a list of actions.

pub mod account;
pub mod auction;
pub mod bids;
pub mod chain;
pub mod contract;
pub mod decimal;
pub mod laws;
pub mod model;
pub mod nft;
pub mod seqs;
pub mod validity;

use vstd::prelude::*;

verus! {

} // verus!
