use near_reverse_auction::account::ValidAccountId;
use near_reverse_auction::auction::Auction;
use near_reverse_auction::bids::single_lowest_of;
use near_reverse_auction::chain::{Action, CallContext};
use near_reverse_auction::contract::Contract;
use near_reverse_auction::decimal::push_decimal;
use near_reverse_auction::model::{
    ContractError, CREATE_AUCTION_FEE, MINT_FEE, NANOS_PER_SECOND, TRANSFER_FEE,
};
use near_reverse_auction::nft::{Token, TokenData};

const NEAR: u128 = 1_000_000_000_000_000_000_000_000;
const CONTRACT: &str = "senna.testnet";

fn ctx(account: &str, timestamp: u64, deposit: u128) -> CallContext {
    CallContext {
        current_account_id: CONTRACT.to_string(),
        predecessor_account_id: account.to_string(),
        attached_deposit: deposit,
        block_timestamp: timestamp,
    }
}

fn account(s: &str) -> ValidAccountId {
    ValidAccountId::try_from(s.to_string()).unwrap()
}

fn contract() -> Contract {
    Contract::new(account(CONTRACT))
}

fn tokens(names: &[&str]) -> Vec<String> {
    names.iter().map(|s| s.to_string()).collect()
}

fn auction_with(bids: &[(&str, u128)]) -> Auction {
    Auction {
        owner_id: "bob.testnet".to_string(),
        auction_id: 1,
        auction_start_time: 0,
        auction_during_second: 60,
        id_token_auction: "abcnft01".to_string(),
        is_enabled: true,
        is_end: false,
        participants: bids.iter().map(|(a, v)| (a.to_string(), *v)).collect(),
        winner: String::new(),
        close_price: 0,
    }
}

/// bob owns abcnft01 and abcnft02, creates an auction of abcnft02 and starts it.
fn started_auction() -> Contract {
    let mut c = contract();
    let owned = tokens(&["abcnft01", "abcnft02"]);
    let (a, actions) = c
        .create_auction(&ctx("bob.testnet", 0, CREATE_AUCTION_FEE), &owned, "abcnft02".to_string(), 60)
        .unwrap();
    assert_eq!(a.auction_id, 1);
    assert_eq!(actions.len(), 1);
    c.start_auction(&ctx("bob.testnet", 0, 0), 1).unwrap();
    c
}

#[test]
fn test_mint_nft() {
    let c = contract();
    let mut minted = Vec::new();
    for (owner, token) in [("senna.testnet", "abcnft01"), ("senna.testnet", "abcnft02"), ("bob.testnet", "abcnft03")] {
        let actions = c.mint_nft(&ctx(owner, 0, MINT_FEE), account(owner), token.to_string()).unwrap();
        minted.extend(actions);
    }
    let senna: Vec<String> = minted
        .iter()
        .filter_map(|a| match a {
            Action::MintNft { token_id, receiver_id } if receiver_id == "senna.testnet" => Some(token_id.clone()),
            _ => None,
        })
        .collect();
    assert_eq!(senna, vec![String::from("abcnft01"), String::from("abcnft02")]);
}

#[test]
fn mint_needs_the_exact_fee() {
    let c = contract();
    assert_eq!(
        c.mint_nft(&ctx("bob.testnet", 0, MINT_FEE - 1), account("bob.testnet"), "t".to_string()).err(),
        Some(ContractError::WrongMintFee)
    );
    assert_eq!(MINT_FEE, NEAR);
}

#[test]
fn account_ids_are_checked() {
    for ok in ["aa", "a-a", "100", "b-o_w_e-n", "illia.cheapaccounts.near", "10-4.8-2",
        "0123456789012345678901234567890123456789012345678901234567890123"] {
        assert!(ValidAccountId::try_from(ok.to_string()).is_ok(), "{}", ok);
    }
    for bad in ["", "a", "A", "-near", "near-", "near.", ".near", "a..near", "0__0", "nEar", "неар",
        "hello world", "01234567890123456789012345678901234567890123456789012345678901234"] {
        assert_eq!(ValidAccountId::try_from(bad.to_string()).err(), Some(ContractError::InvalidAccountId), "{}", bad);
    }
    assert_eq!(account("bob.near").to_string(), "bob.near");
}

#[test]
fn cal_test() {
    let prices: Vec<u128> = vec![5, 8, 5, 6, 9, 7, 10, 5, 9, 6, 12, 13, 9, 11];
    assert_eq!(single_lowest_of(&prices), 7);
}

#[test]
fn single_lowest_edge_cases() {
    assert_eq!(single_lowest_of(&vec![3]), 3);
    assert_eq!(single_lowest_of(&vec![4, 3]), 3);
    assert_eq!(single_lowest_of(&vec![5, 5]), 0);
    assert_eq!(single_lowest_of(&vec![5, 5, 7]), 7);
    assert_eq!(single_lowest_of(&vec![1, 1, 2, 2]), 0);
    assert_eq!(single_lowest_of(&vec![9, 2, 2, 9, 4]), 4);
}

#[test]
fn calculate_and_find_winner() {
    let mut a = auction_with(&[("alice.testnet", 5), ("carol.testnet", 8), ("john.testnet", 5), ("smith.testnet", 6)]);
    assert_eq!(a.calculate_the_single_lowest(), 6);
    a.find_winner(6);
    assert_eq!(a.winner, "smith.testnet");
    let mut b = auction_with(&[("alice.testnet", 5), ("john.testnet", 5)]);
    assert_eq!(b.calculate_the_single_lowest(), 0);
}

#[test]
fn decimal_text() {
    let mut s = String::from("smith.testnet");
    push_decimal(&mut s, 6_000_000_000_000_000_000_000_000);
    assert_eq!(s, "smith.testnet6000000000000000000000000");
    let mut z = String::new();
    push_decimal(&mut z, 0);
    assert_eq!(z, "0");
    let mut m = String::new();
    push_decimal(&mut m, u128::MAX);
    assert_eq!(m, u128::MAX.to_string());
}

#[test]
fn create_auction_checks() {
    let mut c = contract();
    let owned = tokens(&["abcnft01", "abcnft02"]);
    let bob = |d| ctx("bob.testnet", 0, d);
    assert_eq!(c.create_auction(&bob(NEAR), &owned, "abcnft02".to_string(), 60).err(), Some(ContractError::WrongAuctionFee));
    assert_eq!(c.create_auction(&bob(CREATE_AUCTION_FEE), &owned, "abcnft09".to_string(), 60).err(), Some(ContractError::NotTokenOwner));
    let (a, actions) = c.create_auction(&bob(CREATE_AUCTION_FEE), &owned, "abcnft02".to_string(), 60).unwrap();
    assert_eq!(a.auction_id, 1);
    assert_eq!(a.owner_id, "bob.testnet");
    assert!(!a.is_enabled && !a.is_end);
    match &actions[0] {
        Action::ApproveNft { token_id, account_id } => {
            assert_eq!(token_id, "abcnft02");
            assert_eq!(account_id, CONTRACT);
        }
        _ => panic!("expected an approval"),
    }
    assert_eq!(c.token_id_auctioned, vec!["abcnft02".to_string()]);
    assert_eq!(c.create_auction(&bob(CREATE_AUCTION_FEE), &owned, "abcnft02".to_string(), 60).err(), Some(ContractError::TokenAlreadyAuctioned));
    let (a2, _) = c.create_auction(&bob(CREATE_AUCTION_FEE), &owned, "abcnft01".to_string(), 30).unwrap();
    assert_eq!(a2.auction_id, 2);
    let mine = c.get_auctions_by_owner(&"bob.testnet".to_string()).unwrap();
    assert_eq!(mine.iter().map(|a| a.auction_id).collect::<Vec<_>>(), vec![1, 2]);
    assert_eq!(c.get_auctions_by_owner(&"alice.testnet".to_string()).err(), Some(ContractError::OwnerNotFound));
    let bad = ctx("Bad Account", 0, CREATE_AUCTION_FEE);
    assert_eq!(c.create_auction(&bad, &tokens(&["x"]), "x".to_string(), 1).err(), Some(ContractError::InvalidAccountId));
}

#[test]
fn create_close_auction() {
    let mut c = contract();
    let owned = tokens(&["abcnft02"]);
    c.create_auction(&ctx("bob.testnet", 0, CREATE_AUCTION_FEE), &owned, "abcnft02".to_string(), 60).unwrap();
    assert_eq!(c.token_id_auctioned, vec!["abcnft02".to_string()]);
    assert_eq!(c.close_auction(&ctx("alice.testnet", 0, 0), 1), Err(ContractError::CannotClose));
    c.close_auction(&ctx("bob.testnet", 0, 0), 1).unwrap();
    assert!(c.token_id_auctioned.is_empty());
    let a = c.get_auction_by_id(1).unwrap();
    assert!(a.is_end && !a.is_enabled);
    assert_eq!(c.start_auction(&ctx("bob.testnet", 0, 0), 1), Err(ContractError::AuctionEnded));
}

#[test]
fn start_and_commit_checks() {
    let mut c = contract();
    c.create_auction(&ctx("bob.testnet", 0, CREATE_AUCTION_FEE), &tokens(&["t"]), "t".to_string(), 60).unwrap();
    assert_eq!(c.commit_auction(&ctx("alice.testnet", 1, NEAR), 1), Err(ContractError::AuctionNotStarted));
    assert_eq!(c.start_auction(&ctx("alice.testnet", 0, 0), 1), Err(ContractError::NotAuctionOwner));
    assert_eq!(c.start_auction(&ctx("bob.testnet", 0, 1), 1), Err(ContractError::DepositNotAccepted));
    assert_eq!(c.start_auction(&ctx("bob.testnet", 0, 0), 7), Err(ContractError::AuctionNotFound));
    c.start_auction(&ctx("bob.testnet", 42, 0), 1).unwrap();
    assert_eq!(c.auction_going_on, vec![1]);
    assert_eq!(c.get_auction_by_id(1).unwrap().auction_start_time, 42);
    assert_eq!(c.start_auction(&ctx("bob.testnet", 0, 0), 1), Err(ContractError::AuctionStarted));
    assert_eq!(c.commit_auction(&ctx("alice.testnet", 1, 0), 1), Err(ContractError::ZeroCommit));
    c.commit_auction(&ctx("alice.testnet", 1, NEAR), 1).unwrap();
    assert_eq!(c.commit_auction(&ctx("alice.testnet", 2, NEAR), 1), Err(ContractError::AlreadyCommitted));
    assert_eq!(c.commit_auction(&ctx("ALICE", 2, NEAR), 1), Err(ContractError::InvalidAccountId));
    assert_eq!(c.auction_by_id[0].participants, vec![("alice.testnet".to_string(), NEAR)]);
    assert!(c.get_auction_by_id(1).unwrap().participants.is_empty());
    assert_eq!(c.close_auction(&ctx("bob.testnet", 0, 0), 1), Err(ContractError::CannotCloseAfterStart));
    c.close_auction(&ctx(CONTRACT, 0, 0), 1).unwrap();
    assert!(c.auction_going_on.is_empty());
    assert_eq!(c.commit_auction(&ctx("carol.testnet", 3, NEAR), 1), Err(ContractError::CommitAuctionEnded));
    assert_eq!(ContractError::CommitAuctionEnded.message(), "This Auction Alredy Ends");
}

#[test]
fn hold_auction() {
    let s2ns = NANOS_PER_SECOND;
    let mut c = started_auction();
    for (who, at, amount) in [
        ("alice.testnet", 5, 5 * NEAR),
        ("carol.testnet", 10, 8 * NEAR),
        ("john.testnet", 20, 5 * NEAR),
        ("smith.testnet", 25, 6 * NEAR),
        ("james.testnet", 26, 9 * NEAR),
        ("ili.testnet", 27, 7 * NEAR),
    ] {
        c.commit_auction(&ctx(who, at * s2ns, amount), 1).unwrap();
    }
    let early = c.check_auctions(&ctx(CONTRACT, 30 * s2ns, 0)).unwrap();
    assert!(early.is_empty());
    assert_eq!(c.get_auction_by_id(1).unwrap().winner, String::new());
    let actions = c.check_auctions(&ctx(CONTRACT, 60 * s2ns, 0)).unwrap();
    let a = c.get_auction_by_id(1).unwrap();
    assert_eq!(a.close_price, 6 * NEAR);
    assert_eq!(a.winner, "smith.testnet");
    assert!(a.is_end);
    assert!(c.auction_going_on.is_empty());
    assert!(c.token_id_auctioned.is_empty());
    match &actions[0] {
        Action::Log { message } => assert_eq!(message, "smith.testnet6000000000000000000000000"),
        _ => panic!("expected a log line"),
    }
    match &actions[1] {
        Action::TransferNft { receiver_id, token_id } => {
            assert_eq!(receiver_id, "smith.testnet");
            assert_eq!(token_id, "abcnft02");
        }
        _ => panic!("expected the token to move"),
    }
    match &actions[2] {
        Action::TransferFunds { receiver_id, amount } => {
            assert_eq!(receiver_id, "bob.testnet");
            assert_eq!(*amount, 6 * NEAR);
        }
        _ => panic!("expected the seller to be paid"),
    }
    let mut refunds: Vec<(String, u128)> = actions[3..]
        .iter()
        .map(|a| match a {
            Action::TransferFunds { receiver_id, amount } => (receiver_id.clone(), *amount),
            _ => panic!("expected refunds only"),
        })
        .collect();
    refunds.sort();
    assert_eq!(refunds, vec![
        ("alice.testnet".to_string(), 5 * NEAR - TRANSFER_FEE),
        ("carol.testnet".to_string(), 8 * NEAR - TRANSFER_FEE),
        ("ili.testnet".to_string(), 7 * NEAR - TRANSFER_FEE),
        ("james.testnet".to_string(), 9 * NEAR - TRANSFER_FEE),
        ("john.testnet".to_string(), 5 * NEAR - TRANSFER_FEE),
    ]);
    let paid: u128 = actions.iter().map(|a| match a { Action::TransferFunds { amount, .. } => *amount, _ => 0 }).sum();
    assert_eq!(paid + 5 * TRANSFER_FEE, (5 + 8 + 5 + 6 + 9 + 7) * NEAR);
}

#[test]
fn no_single_bid_refunds_everyone() {
    let mut c = started_auction();
    c.commit_auction(&ctx("alice.testnet", 1, 2 * NEAR), 1).unwrap();
    c.commit_auction(&ctx("carol.testnet", 2, 2 * NEAR), 1).unwrap();
    let actions = c.check_auctions(&ctx(CONTRACT, 61 * NANOS_PER_SECOND, 0)).unwrap();
    assert_eq!(actions.len(), 2);
    let a = c.get_auction_by_id(1).unwrap();
    assert!(a.is_end);
    assert_eq!(a.close_price, 0);
    assert_eq!(a.winner, String::new());
}

#[test]
fn check_auctions_refusals_leave_state_unchanged() {
    let mut c = started_auction();
    assert_eq!(c.check_auctions(&ctx("bob.testnet", 100 * NANOS_PER_SECOND, 0)).err(), Some(ContractError::PrivateMethod));
    assert_eq!(c.check_auctions(&ctx(CONTRACT, 100 * NANOS_PER_SECOND, 1)).err(), Some(ContractError::DepositNotAccepted));
    assert_eq!(c.check_auctions(&ctx(CONTRACT, 100 * NANOS_PER_SECOND, 0)).err(), Some(ContractError::NoParticipants));
    assert_eq!(c.auction_going_on, vec![1]);
    c.commit_auction(&ctx("alice.testnet", 1, TRANSFER_FEE - 1), 1).unwrap();
    c.commit_auction(&ctx("carol.testnet", 1, TRANSFER_FEE - 1), 1).unwrap();
    assert_eq!(c.check_auctions(&ctx(CONTRACT, 100 * NANOS_PER_SECOND, 0)).err(), Some(ContractError::RefundBelowFee));
    assert!(!c.auction_by_id[0].is_end);
    assert_eq!(c.auction_by_id[0].participants.len(), 2);
}

#[test]
fn end_time_overflow_is_refused() {
    let mut c = contract();
    c.create_auction(&ctx("bob.testnet", 0, CREATE_AUCTION_FEE), &tokens(&["t"]), "t".to_string(), u64::MAX).unwrap();
    c.start_auction(&ctx("bob.testnet", 0, 0), 1).unwrap();
    assert_eq!(c.check_auctions(&ctx(CONTRACT, 1, 0)).err(), Some(ContractError::EndTimeOverflow));
}

#[test]
fn error_messages() {
    assert_eq!(ContractError::WrongMintFee.message(), "deposit != MINT_FEE");
    assert_eq!(ContractError::WrongAuctionFee.message(), "Need 5 N To Create An Auction");
    assert_eq!(ContractError::CannotCloseAfterStart.message(), "You Can Not Close Auction After Start");
}

#[test]
fn transfer_nft_and_token_transfer() {
    let c = contract();
    let acts = c.transfer_nft(&ctx(CONTRACT, 0, 0), account("smith.testnet"), "abcnft02".to_string()).unwrap();
    match &acts[0] {
        Action::TransferNft { receiver_id, token_id } => {
            assert_eq!(receiver_id, "smith.testnet");
            assert_eq!(token_id, "abcnft02");
        }
        _ => panic!("expected a token transfer"),
    }
    assert_eq!(c.transfer_nft(&ctx(CONTRACT, 0, 1), account("smith.testnet"), "x".to_string()).err(), Some(ContractError::DepositNotAccepted));
    let mut t = Token {
        owner_id: "bob.testnet".to_string(),
        authorized_id: "bob.testnet".to_string(),
        token_id: 2,
        tokendata: TokenData::new(Some("first".to_string()), Some("first".to_string()), None, None),
    };
    t.transfer(account("smith.testnet"));
    assert_eq!(t.owner_id, "smith.testnet");
    assert_eq!(t.token_id, 2);
    assert_eq!(t.tokendata.title, Some("first".to_string()));
}

#[test]
fn single_lowest_ignores_order() {
    let a: Vec<u128> = vec![5, 8, 5, 6, 9, 7, 10, 5, 9, 6, 12, 13, 9, 11];
    let mut b = a.clone();
    b.reverse();
    let mut c = a.clone();
    c.sort();
    assert_eq!(single_lowest_of(&a), single_lowest_of(&b));
    assert_eq!(single_lowest_of(&a), single_lowest_of(&c));
}

#[test]
fn highest_single_bid_can_win() {
    let mut c = started_auction();
    c.commit_auction(&ctx("alice.testnet", 1, 5 * NEAR), 1).unwrap();
    c.commit_auction(&ctx("john.testnet", 2, 5 * NEAR), 1).unwrap();
    c.commit_auction(&ctx("carol.testnet", 3, 7 * NEAR), 1).unwrap();
    c.check_auctions(&ctx(CONTRACT, 60 * NANOS_PER_SECOND, 0)).unwrap();
    let a = c.get_auction_by_id(1).unwrap();
    assert_eq!(a.winner, "carol.testnet");
    assert_eq!(a.close_price, 7 * NEAR);
}

#[test]
fn only_due_auctions_are_settled() {
    let mut c = contract();
    let owned = tokens(&["t1", "t2"]);
    c.create_auction(&ctx("bob.testnet", 0, CREATE_AUCTION_FEE), &owned, "t1".to_string(), 10).unwrap();
    c.create_auction(&ctx("bob.testnet", 0, CREATE_AUCTION_FEE), &owned, "t2".to_string(), 100).unwrap();
    c.start_auction(&ctx("bob.testnet", 0, 0), 1).unwrap();
    c.start_auction(&ctx("bob.testnet", 0, 0), 2).unwrap();
    c.commit_auction(&ctx("alice.testnet", 1, NEAR), 1).unwrap();
    c.commit_auction(&ctx("alice.testnet", 1, NEAR), 2).unwrap();
    c.check_auctions(&ctx(CONTRACT, 50 * NANOS_PER_SECOND, 0)).unwrap();
    assert!(c.get_auction_by_id(1).unwrap().is_end);
    assert_eq!(c.get_auction_by_id(1).unwrap().winner, "alice.testnet");
    assert!(!c.get_auction_by_id(2).unwrap().is_end);
    assert_eq!(c.auction_going_on, vec![2]);
    assert_eq!(c.token_id_auctioned, vec!["t2".to_string()]);
}

#[test]
fn closing_an_ended_auction_again_unlists_its_token() {
    let mut c = contract();
    let owned = tokens(&["t"]);
    let bob = ctx("bob.testnet", 0, CREATE_AUCTION_FEE);
    c.create_auction(&bob, &owned, "t".to_string(), 60).unwrap();
    c.close_auction(&ctx("bob.testnet", 0, 0), 1).unwrap();
    c.create_auction(&bob, &owned, "t".to_string(), 60).unwrap();
    assert_eq!(c.token_id_auctioned, vec!["t".to_string()]);
    c.close_auction(&ctx("bob.testnet", 0, 0), 1).unwrap();
    assert!(c.token_id_auctioned.is_empty());
    assert!(!c.get_auction_by_id(2).unwrap().is_end);
}

#[test]
fn invariant_is_tested_at_run_time() {
    let mut c = started_auction();
    assert!(c.is_wf());
    c.commit_auction(&ctx("alice.testnet", 1, NEAR), 1).unwrap();
    assert!(c.is_wf());
    assert!(c.auction_by_id[0].is_wf());
    let mut broken = c.clone_state();
    broken.auction_id = 7;
    assert!(!broken.is_wf());
    let mut twice = c.clone_state();
    twice.auction_going_on.push(1);
    assert!(!twice.is_wf());
    let mut unlisted = c.clone_state();
    unlisted.auction_id_by_owner.clear();
    assert!(!unlisted.is_wf());
    let mut bad_bid = c.clone_state();
    bad_bid.auction_by_id[0].participants.push(("alice.testnet".to_string(), NEAR));
    assert!(!bad_bid.is_wf());
}

#[test]
fn checking_twice_at_the_same_time_does_nothing_more() {
    let mut c = started_auction();
    c.commit_auction(&ctx("alice.testnet", 1, NEAR), 1).unwrap();
    let first = c.check_auctions(&ctx(CONTRACT, 60 * NANOS_PER_SECOND, 0)).unwrap();
    assert!(!first.is_empty());
    let second = c.check_auctions(&ctx(CONTRACT, 60 * NANOS_PER_SECOND, 0)).unwrap();
    assert!(second.is_empty());
}
