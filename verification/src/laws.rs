//! What holds of the contract across its calls.

use vstd::prelude::*;
use crate::account::is_valid_account_id;
use crate::contract::{lemma_close_keeps_wf, lemma_replace_keeps_wf, lemma_swap_remove_keeps_bids};
use crate::seqs::{lemma_filter_contains_iff, other_than};
use crate::bids::{law_single_lowest_ignores_order, has_single_bid, is_single_bid, is_single_lowest_bid, single_lowest_bid};
use crate::model::{
    ActionModel, AuctionModel, CallContextModel, ContractError, ContractModel, TRANSFER_FEE, amounts, award_actions, awarded,
    first_bid_of, has_bid, refunds, settled, swap_remove, winner_of,
};

verus! {

/// A settled auction goes to a bidder whose amount nobody else bid and which is
/// the lowest such amount; that amount is its closing price. Where every amount
/// was bid twice or more, nobody wins and the price stays as it was. Either way
/// the auction has ended.
pub proof fn law_winner_has_single_lowest_bid(a: AuctionModel)
    requires
        a.wf(),
    ensures
        ({
            let a2 = settled(a);
            let bids = amounts(a.participants);
            &&& a2.is_end
            &&& !a2.is_enabled
            &&& has_single_bid(bids) ==> {
                &&& is_single_lowest_bid(bids, a2.close_price)
                &&& exists|k: int| 0 <= k < a.participants.len() && a.participants[k] == (a2.winner, a2.close_price)
            }
            &&& !has_single_bid(bids) ==> a2.close_price == a.close_price && a2.winner == a.winner
        }),
{
    let bids = amounts(a.participants);
    let price = single_lowest_bid(bids);
    if has_single_bid(bids) {
        lemma_single_lowest_exists(bids);
        let v = choose|v: u128| is_single_lowest_bid(bids, v);
        assert(price == v);
        if price != 0 {
            lemma_first_bid_of(a.participants, price);
            let k = first_bid_of(a.participants, price);
            assert(a.participants[k] == (winner_of(a, price), price));
        } else {
            broadcast use vstd::seq_lib::group_to_multiset_ensures;
            assert(bids.contains(0u128));
            let j = choose|j: int| 0 <= j < bids.len() && bids[j] == 0u128;
            assert(a.participants[j].1 > 0);
        }
    }
}

/// The bid `first_bid_of` finds is a bid of that amount.
proof fn lemma_first_bid_of(ps: Seq<(Seq<char>, u128)>, price: u128)
    requires
        amounts(ps).to_multiset().count(price) > 0,
    ensures
        0 <= first_bid_of(ps, price) < ps.len(),
        ps[first_bid_of(ps, price)].1 == price,
{
    broadcast use vstd::seq_lib::group_to_multiset_ensures;

    let bids = amounts(ps);
    assert(bids.contains(price));
    let j = choose|j: int| 0 <= j < bids.len() && bids[j] == price;
    assert(ps[j].1 == price);
    lemma_first_index(ps, price, j);
}

/// Where some bid has the amount, there is a first one.
proof fn lemma_first_index(ps: Seq<(Seq<char>, u128)>, price: u128, j: int)
    requires
        0 <= j < ps.len(),
        ps[j].1 == price,
    ensures
        exists|k: int|
            0 <= k < ps.len() && (#[trigger] ps[k]).1 == price && forall|i: int|
                0 <= i < k ==> (#[trigger] ps[i]).1 != price,
    decreases j,
{
    if exists|i: int| 0 <= i < j && (#[trigger] ps[i]).1 == price {
        let i = choose|i: int| 0 <= i < j && (#[trigger] ps[i]).1 == price;
        lemma_first_index(ps, price, i);
    } else {
        assert(forall|i: int| 0 <= i < j ==> (#[trigger] ps[i]).1 != price);
    }
}

/// Settling an auction leaves it settled.
pub proof fn law_settling_leaves_auction_settled(c: ContractModel, ctx: CallContextModel, id: u32)
    requires
        c.has_auction(id),
        c.settle_auction(ctx, id) is Ok,
    ensures
        (c.settle_auction(ctx, id)->Ok_0).0.auction(id) == settled(c.auction(id)),
{
    let a = c.auction(id);
    let price = single_lowest_bid(amounts(a.participants));
    let c1 = if price != 0 { c.with_auction(id, awarded(a, price)) } else { c };
    assert(c1.has_auction(id));
    let c3 = c1.close_auction(ctx, id)->Ok_0;
    assert(c3.auctions[id - 1] == c3.auction(id));
    assert(c1.auctions[id - 1] == c1.auction(id));
}

/// A finite list of bids with an amount bid once has a lowest such amount.
pub proof fn lemma_single_lowest_exists(bids: Seq<u128>)
    requires
        has_single_bid(bids),
    ensures
        exists|v: u128| is_single_lowest_bid(bids, v),
{
    broadcast use vstd::seq_lib::group_to_multiset_ensures;

    let w = choose|w: u128| is_single_bid(bids, w);
    assert(bids.contains(w));
    let i = choose|i: int| 0 <= i < bids.len() && bids[i] == w;
    let m = least_single_below(bids, i);
    assert(is_single_lowest_bid(bids, m));
}

/// Descending through ever lower amounts bid once ends, amounts being natural
/// numbers; where it ends stands the lowest.
proof fn least_single_below(bids: Seq<u128>, j: int) -> (m: u128)
    requires
        0 <= j < bids.len(),
        is_single_bid(bids, bids[j]),
    ensures
        is_single_lowest_bid(bids, m),
    decreases bids[j],
{
    broadcast use vstd::seq_lib::group_to_multiset_ensures;

    if exists|v: u128| #[trigger] is_single_bid(bids, v) && v < bids[j] {
        let v = choose|v: u128| #[trigger] is_single_bid(bids, v) && v < bids[j];
        assert(bids.contains(v));
        let k = choose|k: int| 0 <= k < bids.len() && bids[k] == v;
        least_single_below(bids, k)
    } else {
        bids[j]
    }
}

/// An auction that has ended can neither start again nor take bids.
pub proof fn law_ended_auction_is_final(c: ContractModel, ctx: CallContextModel, id: u32)
    requires
        c.wf(),
        c.has_auction(id),
        c.auction(id).is_end,
    ensures
        c.start_auction(ctx, id) is Err,
        c.commit_auction(ctx, id) is Err,
{
}

/// A bid is taken only on an auction that has started and not ended, and it adds
/// the caller with the attached deposit after the bids already taken.
pub proof fn law_bids_only_on_running_auctions(c: ContractModel, ctx: CallContextModel, id: u32)
    requires
        c.wf(),
        c.commit_auction(ctx, id) is Ok,
    ensures
        c.has_auction(id),
        c.auction(id).is_enabled,
        !c.auction(id).is_end,
        (c.commit_auction(ctx, id)->Ok_0).auction(id).participants == c.auction(id).participants.push(
            (ctx.predecessor_account_id, ctx.attached_deposit),
        ),
{
    let c2 = c.commit_auction(ctx, id)->Ok_0;
    assert(c2.auctions[id - 1] == c2.auction(id));
}

/// A created auction gets the next id, has not started, and is owned by the caller.
pub proof fn law_create_assigns_next_id(
    c: ContractModel,
    ctx: CallContextModel,
    owner_tokens: Seq<Seq<char>>,
    token_id: Seq<char>,
    during: u64,
)
    requires
        c.wf(),
        c.create_auction(ctx, owner_tokens, token_id, during) is Ok,
    ensures
        ({
            let (c2, a, _) = c.create_auction(ctx, owner_tokens, token_id, during)->Ok_0;
            &&& a.auction_id == c.auction_id + 1
            &&& c2.auction_id == a.auction_id
            &&& c2.has_auction(a.auction_id)
            &&& c2.auction(a.auction_id) == a
            &&& a.owner_id == ctx.predecessor_account_id
            &&& !a.is_enabled && !a.is_end
            &&& a.participants.len() == 0
        }),
{
    let (c2, a, _) = c.create_auction(ctx, owner_tokens, token_id, during)->Ok_0;
    assert(c2.auctions[c.auctions.len() as int] == a);
}

/// The sum of the bids.
pub open spec fn total(ps: Seq<(Seq<char>, u128)>) -> int
    decreases ps.len(),
{
    if ps.len() == 0 {
        0
    } else {
        total(ps.drop_last()) + ps.last().1
    }
}

/// The NEAR that the actions send out.
pub open spec fn funds_out(acts: Seq<ActionModel>) -> int
    decreases acts.len(),
{
    if acts.len() == 0 {
        0
    } else {
        funds_out(acts.drop_last()) + match acts.last() {
            ActionModel::TransferFunds { amount, .. } => amount as int,
            _ => 0,
        }
    }
}

/// Settling hands out every bid: the seller gets the winning bid, every other
/// bidder gets the bid back less the transfer fee, and nothing else is sent. So
/// what goes out, plus one fee per refunded bidder, is the sum of the bids.
pub proof fn law_settlement_pays_out_the_bids(c: ContractModel, ctx: CallContextModel, id: u32)
    requires
        c.wf(),
        c.has_auction(id),
        c.settle_auction(ctx, id) is Ok,
    ensures
        ({
            let a = c.auction(id);
            let acts = (c.settle_auction(ctx, id)->Ok_0).1;
            let price = single_lowest_bid(amounts(a.participants));
            let refunded = if price != 0 { a.participants.len() - 1 } else { a.participants.len() as int };
            funds_out(acts) + TRANSFER_FEE * refunded == total(a.participants)
        }),
{
    let a = c.auction(id);
    let ps = a.participants;
    let price = single_lowest_bid(amounts(ps));
    lemma_settle_actions(c, ctx, id);
    if price != 0 {
        lemma_first_bid_of(ps, price);
        let k = first_bid_of(ps, price);
        let rest = swap_remove(ps, k);
        lemma_total_swap_remove(ps, k);
        lemma_funds_out_refunds(rest);
        lemma_funds_out_award(a, price);
        lemma_funds_out_add(award_actions(a, price), refunds(rest)->Some_0);
    } else {
        lemma_funds_out_refunds(ps);
    }
}

/// What settling hands back: the win's actions, if any, then the refunds.
proof fn lemma_settle_actions(c: ContractModel, ctx: CallContextModel, id: u32)
    requires
        c.has_auction(id),
        c.settle_auction(ctx, id) is Ok,
    ensures
        ({
            let a = c.auction(id);
            let ps = a.participants;
            let price = single_lowest_bid(amounts(ps));
            let acts = (c.settle_auction(ctx, id)->Ok_0).1;
            &&& price != 0 ==> refunds(swap_remove(ps, first_bid_of(ps, price))) is Some && acts
                == award_actions(a, price) + refunds(swap_remove(ps, first_bid_of(ps, price)))->Some_0
            &&& price == 0 ==> refunds(ps) is Some && acts == refunds(ps)->Some_0
        }),
{
    let a = c.auction(id);
    let ps = a.participants;
    let price = single_lowest_bid(amounts(ps));
    if price != 0 {
        let c1 = c.with_auction(id, awarded(a, price));
        assert(c1.auctions[id - 1] == c1.auction(id));
    } else {
        assert(Seq::<ActionModel>::empty() + refunds(ps)->Some_0 =~= refunds(ps)->Some_0);
    }
}

/// A win sends out the price, to the seller.
proof fn lemma_funds_out_award(a: AuctionModel, price: u128)
    ensures
        funds_out(award_actions(a, price)) == price,
{
    let acts = award_actions(a, price);
    assert(acts.drop_last().drop_last().drop_last() =~= Seq::<ActionModel>::empty());
    reveal_with_fuel(funds_out, 4);
}

/// Funds out of two runs of actions add up.
pub proof fn lemma_funds_out_add(x: Seq<ActionModel>, y: Seq<ActionModel>)
    ensures
        funds_out(x + y) == funds_out(x) + funds_out(y),
    decreases y.len(),
{
    if y.len() == 0 {
        assert(x + y =~= x);
    } else {
        assert((x + y).drop_last() =~= x + y.drop_last());
        lemma_funds_out_add(x, y.drop_last());
    }
}

/// Refunds send out the bids less one fee each.
pub proof fn lemma_funds_out_refunds(ps: Seq<(Seq<char>, u128)>)
    requires
        refunds(ps) is Some,
    ensures
        funds_out(refunds(ps)->Some_0) + TRANSFER_FEE * ps.len() == total(ps),
    decreases ps.len(),
{
    if ps.len() > 0 {
        let d = ps.drop_last();
        assert(refunds(d) is Some) by {
            assert forall|k: int| 0 <= k < d.len() implies (#[trigger] d[k]).1 >= TRANSFER_FEE by {
                assert(d[k] == ps[k]);
            }
        }
        lemma_funds_out_refunds(d);
        assert((refunds(ps)->Some_0).drop_last() =~= refunds(d)->Some_0);
        assert(ps[ps.len() - 1].1 >= TRANSFER_FEE);
    }
}

/// Taking out one bid takes its amount off the sum.
pub proof fn lemma_total_swap_remove(ps: Seq<(Seq<char>, u128)>, k: int)
    requires
        0 <= k < ps.len(),
    ensures
        total(swap_remove(ps, k)) + ps[k].1 == total(ps),
{
    let d = ps.drop_last();
    if k == ps.len() - 1 {
        assert(swap_remove(ps, k) =~= d);
    } else {
        assert(swap_remove(ps, k) =~= d.update(k, ps.last()));
        lemma_total_update(d, k, ps.last());
    }
}

/// Changing one bid changes the sum by the difference.
pub proof fn lemma_total_update(ps: Seq<(Seq<char>, u128)>, k: int, v: (Seq<char>, u128))
    requires
        0 <= k < ps.len(),
    ensures
        total(ps.update(k, v)) == total(ps) - ps[k].1 + v.1,
    decreases ps.len(),
{
    let u = ps.update(k, v);
    if k == ps.len() - 1 {
        assert(u.drop_last() =~= ps.drop_last());
    } else {
        assert(u.drop_last() =~= ps.drop_last().update(k, v));
        lemma_total_update(ps.drop_last(), k, v);
    }
}

/// The time of auction `id` is up.
pub open spec fn is_due(c: ContractModel, ctx: CallContextModel, id: u32) -> bool {
    ContractModel::end_time(c.auction(id)) matches Some(t) && t <= ctx.block_timestamp
}

/// The listed tokens are exactly those of the auctions that have not ended, and
/// no two such auctions hold the same token.
pub open spec fn tokens_consistent(c: ContractModel) -> bool {
    &&& forall|t: Seq<char>|
        #[trigger] c.token_id_auctioned.contains(t) <==> exists|i: int|
            0 <= i < c.auctions.len() && (#[trigger] c.auctions[i]).id_token_auction == t
                && !c.auctions[i].is_end
    &&& forall|i: int, j: int|
        0 <= i < j < c.auctions.len() && !c.auctions[i].is_end && !c.auctions[j].is_end
            ==> (#[trigger] c.auctions[i]).id_token_auction != (#[trigger] c.auctions[j]).id_token_auction
}

/// What settling auction `x` does to the state.
proof fn lemma_settle_effect(c: ContractModel, ctx: CallContextModel, x: u32)
    requires
        c.has_auction(x),
        c.settle_auction(ctx, x) is Ok,
    ensures
        ({
            let a = c.auction(x);
            let price = single_lowest_bid(amounts(a.participants));
            let a1 = if price != 0 { awarded(a, price) } else { a };
            (c.settle_auction(ctx, x)->Ok_0).0 == (ContractModel {
                token_id_auctioned: c.token_id_auctioned.filter(other_than(a.id_token_auction)),
                auction_going_on: c.auction_going_on.filter(other_than(x)),
                ..c.with_auction(x, AuctionModel { is_enabled: false, is_end: true, ..a1 })
            })
        }),
{
    let a = c.auction(x);
    let price = single_lowest_bid(amounts(a.participants));
    let a1 = if price != 0 { awarded(a, price) } else { a };
    let c1 = c.with_auction(x, a1);
    assert(c1.auctions[x - 1] == c1.auction(x));
    assert(c1.with_auction(x, AuctionModel { is_enabled: false, is_end: true, ..a1 }).auctions
        =~= c.with_auction(x, AuctionModel { is_enabled: false, is_end: true, ..a1 }).auctions);
}

/// Settling keeps the invariant.
proof fn lemma_settle_keeps_wf(c: ContractModel, ctx: CallContextModel, x: u32)
    requires
        c.wf(),
        c.has_auction(x),
        c.settle_auction(ctx, x) is Ok,
    ensures
        (c.settle_auction(ctx, x)->Ok_0).0.wf(),
{
    let a = c.auction(x);
    let ps = a.participants;
    let price = single_lowest_bid(amounts(ps));
    assert(c.auctions[x - 1] == a);
    if price != 0 {
        lemma_first_bid_of(ps, price);
        let k = first_bid_of(ps, price);
        lemma_swap_remove_keeps_bids(a, k, winner_of(a, price), price);
        lemma_replace_keeps_wf(c, x, awarded(a, price));
        let c1 = c.with_auction(x, awarded(a, price));
        assert(c1.auctions[x - 1] == c1.auction(x));
        lemma_close_keeps_wf(c1, x, c1.close_auction(ctx, x)->Ok_0);
    } else {
        lemma_close_keeps_wf(c, x, c.close_auction(ctx, x)->Ok_0);
    }
}

/// Putting in an auction with the same token and the same end keeps the tokens
/// consistent.
proof fn lemma_replace_keeps_tokens(c: ContractModel, x: u32, a: AuctionModel)
    requires
        tokens_consistent(c),
        c.has_auction(x),
        a.id_token_auction == c.auction(x).id_token_auction,
        a.is_end == c.auction(x).is_end,
    ensures
        tokens_consistent(c.with_auction(x, a)),
{
    let c2 = c.with_auction(x, a);
    assert forall|i: int| 0 <= i < c.auctions.len() implies (#[trigger] c2.auctions[i]).id_token_auction
        == c.auctions[i].id_token_auction && c2.auctions[i].is_end == c.auctions[i].is_end by {}
    assert forall|t: Seq<char>| #[trigger] c2.token_id_auctioned.contains(t) <==> exists|i: int|
        0 <= i < c2.auctions.len() && (#[trigger] c2.auctions[i]).id_token_auction == t
            && !c2.auctions[i].is_end by {
        if c.token_id_auctioned.contains(t) {
            let i = choose|i: int| 0 <= i < c.auctions.len() && (#[trigger] c.auctions[i]).id_token_auction == t
                && !c.auctions[i].is_end;
            assert(c2.auctions[i].id_token_auction == t);
        }
        if exists|i: int| 0 <= i < c2.auctions.len() && (#[trigger] c2.auctions[i]).id_token_auction == t
            && !c2.auctions[i].is_end {
            let i = choose|i: int| 0 <= i < c2.auctions.len() && (#[trigger] c2.auctions[i]).id_token_auction == t
                && !c2.auctions[i].is_end;
            assert(c.auctions[i].id_token_auction == t);
        }
    }
}

/// Closing an auction that has not ended keeps the tokens consistent.
proof fn lemma_close_keeps_tokens(c: ContractModel, ctx: CallContextModel, x: u32)
    requires
        tokens_consistent(c),
        c.has_auction(x),
        !c.auction(x).is_end,
        c.close_auction(ctx, x) is Ok,
    ensures
        tokens_consistent(c.close_auction(ctx, x)->Ok_0),
{
    let c2 = c.close_auction(ctx, x)->Ok_0;
    let tok = c.auction(x).id_token_auction;
    let n = c.auctions.len();
    assert(c2.auctions[x - 1].is_end);
    assert forall|i: int| 0 <= i < n && i != x - 1 implies (#[trigger] c2.auctions[i]) == c.auctions[i] by {}
    assert forall|t: Seq<char>| #[trigger] c2.token_id_auctioned.contains(t) <==> exists|i: int|
        0 <= i < c2.auctions.len() && (#[trigger] c2.auctions[i]).id_token_auction == t
            && !c2.auctions[i].is_end by {
        lemma_filter_contains_iff(c.token_id_auctioned, other_than(tok), t);
        if c2.token_id_auctioned.contains(t) {
            let i = choose|i: int| 0 <= i < c.auctions.len() && (#[trigger] c.auctions[i]).id_token_auction == t
                && !c.auctions[i].is_end;
            assert(i != x - 1);
            assert(c2.auctions[i] == c.auctions[i]);
        }
        if exists|i: int| 0 <= i < c2.auctions.len() && (#[trigger] c2.auctions[i]).id_token_auction == t
            && !c2.auctions[i].is_end {
            let i = choose|i: int| 0 <= i < c2.auctions.len() && (#[trigger] c2.auctions[i]).id_token_auction == t
                && !c2.auctions[i].is_end;
            assert(i != x - 1);
            assert(c2.auctions[i] == c.auctions[i]);
            assert(c.auctions[x - 1].id_token_auction == tok && !c.auctions[x - 1].is_end);
            if i < x - 1 {
                assert(c.auctions[i].id_token_auction != c.auctions[x - 1].id_token_auction);
            } else {
                assert(c.auctions[x - 1].id_token_auction != c.auctions[i].id_token_auction);
            }
        }
    }
    assert forall|i: int, j: int|
        0 <= i < j < c2.auctions.len() && !c2.auctions[i].is_end && !c2.auctions[j].is_end implies (
        #[trigger] c2.auctions[i]).id_token_auction != (#[trigger] c2.auctions[j]).id_token_auction by {
        assert(c2.auctions[i] == c.auctions[i] && c2.auctions[j] == c.auctions[j]);
    }
}

/// Checking auctions that are all running, each once, keeps the invariant,
/// changes no other auction, settles each one whose time is up and leaves the others
/// as they were; and where the tokens were consistent, they stay so.
pub proof fn lemma_check_all(c: ContractModel, ctx: CallContextModel, ids: Seq<u32>)
    requires
        c.wf(),
        ids.no_duplicates(),
        forall|j: int| 0 <= j < ids.len() ==> c.has_auction(#[trigger] ids[j]) && c.auction(ids[j]).is_enabled,
        c.check_all(ctx, ids) is Ok,
    ensures
        ({
            let c2 = (c.check_all(ctx, ids)->Ok_0).0;
            &&& c2.wf()
            &&& c2.auctions.len() == c.auctions.len()
            &&& forall|y: u32| c.has_auction(y) && !ids.contains(y) ==> #[trigger] c2.auction(y) == c.auction(y)
            &&& forall|j: int|
                0 <= j < ids.len() ==> (is_due(c, ctx, #[trigger] ids[j]) ==> c2.auction(ids[j]) == settled(
                    c.auction(ids[j]),
                )) && (!is_due(c, ctx, ids[j]) ==> c2.auction(ids[j]) == c.auction(ids[j]))
            &&& tokens_consistent(c) ==> tokens_consistent(c2)
        }),
    decreases ids.len(),
{
    if ids.len() > 0 {
        let x = ids[0];
        let c1 = (c.check_auction(ctx, x)->Ok_0).0;
        let rest = ids.drop_first();
        if is_due(c, ctx, x) {
            lemma_settle_effect(c, ctx, x);
            lemma_settle_keeps_wf(c, ctx, x);
            if tokens_consistent(c) {
                let a = c.auction(x);
                let price = single_lowest_bid(amounts(a.participants));
                let a1 = if price != 0 { awarded(a, price) } else { a };
                assert(c.auctions[x - 1] == a);
                lemma_replace_keeps_tokens(c, x, a1);
                let cm = c.with_auction(x, a1);
                assert(cm.auctions[x - 1] == cm.auction(x));
                if price == 0 {
                    assert(cm.auctions =~= c.auctions);
                    assert(cm == c);
                }
                lemma_close_keeps_tokens(cm, ctx, x);
                assert(cm.close_auction(ctx, x)->Ok_0 == c1);
            }
        }
        assert forall|y: u32| c.has_auction(y) && y != x implies #[trigger] c1.auction(y) == c.auction(y) by {
            if is_due(c, ctx, x) {
                assert(c1.auctions[y - 1] == c.auctions[y - 1]);
            }
        }
        if is_due(c, ctx, x) {
            law_settling_leaves_auction_settled(c, ctx, x);
        }
        assert(rest.no_duplicates());
        assert forall|j: int| 0 <= j < rest.len() implies c1.has_auction(#[trigger] rest[j]) && c1.auction(rest[j]).is_enabled by {
            assert(rest[j] == ids[j + 1]);
            assert(ids[j + 1] != ids[0]);
        }
        lemma_check_all(c1, ctx, rest);
        let c2 = (c.check_all(ctx, ids)->Ok_0).0;
        assert(c2 == (c1.check_all(ctx, rest)->Ok_0).0);
        assert forall|y: u32| c.has_auction(y) && !ids.contains(y) implies #[trigger] c2.auction(y) == c.auction(y) by {
            assert(y != x);
            if rest.contains(y) {
                let j = choose|j: int| 0 <= j < rest.len() && rest[j] == y;
                assert(ids[j + 1] == y);
            }
        }
        assert forall|j: int| 0 <= j < ids.len() implies (is_due(c, ctx, #[trigger] ids[j]) ==> c2.auction(ids[j]) == settled(
            c.auction(ids[j]),
        )) && (!is_due(c, ctx, ids[j]) ==> c2.auction(ids[j]) == c.auction(ids[j])) by {
            if j == 0 {
                if rest.contains(x) {
                    let k = choose|k: int| 0 <= k < rest.len() && rest[k] == x;
                    assert(ids[k + 1] == ids[0]);
                }
            } else {
                assert(rest[j - 1] == ids[j]);
                assert(ids[j] != x);
                assert(c1.auction(ids[j]) == c.auction(ids[j]));
            }
        }
    }
}

/// Checking the auctions settles every running auction whose time is up and
/// leaves every other auction as it was.
pub proof fn law_check_auctions_settles_expired_auctions(c: ContractModel, ctx: CallContextModel)
    requires
        c.wf(),
        c.check_auctions(ctx) is Ok,
    ensures
        ({
            let c2 = (c.check_auctions(ctx)->Ok_0).0;
            &&& forall|id: u32|
                #[trigger] c.auction_going_on.contains(id) && is_due(c, ctx, id) ==> c2.auction(id) == settled(
                    c.auction(id),
                )
            &&& forall|id: u32|
                c.has_auction(id) && !(c.auction_going_on.contains(id) && is_due(c, ctx, id))
                    ==> #[trigger] c2.auction(id) == c.auction(id)
        }),
{
    let ids = c.auction_going_on;
    assert forall|j: int| 0 <= j < ids.len() implies c.has_auction(#[trigger] ids[j]) && c.auction(ids[j]).is_enabled by {
        assert(ids.contains(ids[j]));
    }
    lemma_check_all(c, ctx, ids);
    let c2 = (c.check_auctions(ctx)->Ok_0).0;
    assert forall|id: u32| #[trigger] c.auction_going_on.contains(id) && is_due(c, ctx, id) implies c2.auction(id) == settled(
        c.auction(id),
    ) by {
        let j = choose|j: int| 0 <= j < ids.len() && ids[j] == id;
    }
    assert forall|id: u32| c.has_auction(id) && !(c.auction_going_on.contains(id) && is_due(c, ctx, id))
        implies #[trigger] c2.auction(id) == c.auction(id) by {
        if ids.contains(id) {
            let j = choose|j: int| 0 <= j < ids.len() && ids[j] == id;
        }
    }
}

/// Checking the auctions keeps the tokens consistent.
pub proof fn law_check_auctions_keeps_tokens_consistent(c: ContractModel, ctx: CallContextModel)
    requires
        c.wf(),
        tokens_consistent(c),
        c.check_auctions(ctx) is Ok,
    ensures
        tokens_consistent((c.check_auctions(ctx)->Ok_0).0),
{
    let ids = c.auction_going_on;
    assert forall|j: int| 0 <= j < ids.len() implies c.has_auction(#[trigger] ids[j]) && c.auction(ids[j]).is_enabled by {
        assert(ids.contains(ids[j]));
    }
    lemma_check_all(c, ctx, ids);
}

/// Closing an auction that has not ended keeps the tokens consistent.
pub proof fn law_close_keeps_tokens_consistent(c: ContractModel, ctx: CallContextModel, id: u32)
    requires
        c.wf(),
        tokens_consistent(c),
        c.close_auction(ctx, id) is Ok,
        !c.auction(id).is_end,
    ensures
        tokens_consistent(c.close_auction(ctx, id)->Ok_0),
{
    lemma_close_keeps_tokens(c, ctx, id);
}

/// Starting an auction, or bidding on one, keeps the tokens consistent.
pub proof fn law_start_and_commit_keep_tokens_consistent(c: ContractModel, ctx: CallContextModel, id: u32)
    requires
        c.wf(),
        tokens_consistent(c),
    ensures
        c.start_auction(ctx, id) is Ok ==> tokens_consistent(c.start_auction(ctx, id)->Ok_0),
        c.commit_auction(ctx, id) is Ok ==> tokens_consistent(c.commit_auction(ctx, id)->Ok_0),
{
    if c.start_auction(ctx, id) is Ok {
        let a = c.auction(id);
        assert(c.auctions[id - 1] == a);
        let a2 = AuctionModel { auction_start_time: ctx.block_timestamp, is_enabled: true, ..a };
        lemma_replace_keeps_tokens(c, id, a2);
        let c2 = c.start_auction(ctx, id)->Ok_0;
        assert(c2.auctions == c.with_auction(id, a2).auctions);
        assert(c2.token_id_auctioned == c.with_auction(id, a2).token_id_auctioned);
    }
    if c.commit_auction(ctx, id) is Ok {
        let a = c.auction(id);
        assert(c.auctions[id - 1] == a);
        let a2 = AuctionModel { participants: a.participants.push((ctx.predecessor_account_id, ctx.attached_deposit)), ..a };
        lemma_replace_keeps_tokens(c, id, a2);
        assert(c.commit_auction(ctx, id)->Ok_0 == c.with_auction(id, a2));
    }
}

/// Creating an auction keeps the tokens consistent: its token was in no auction
/// that has not ended.
pub proof fn law_create_keeps_tokens_consistent(
    c: ContractModel,
    ctx: CallContextModel,
    owner_tokens: Seq<Seq<char>>,
    token_id: Seq<char>,
    during: u64,
)
    requires
        c.wf(),
        tokens_consistent(c),
        c.create_auction(ctx, owner_tokens, token_id, during) is Ok,
    ensures
        tokens_consistent((c.create_auction(ctx, owner_tokens, token_id, during)->Ok_0).0),
{
    let (c2, a, _) = c.create_auction(ctx, owner_tokens, token_id, during)->Ok_0;
    let n = c.auctions.len();
    assert(c2.auctions[n as int] == a);
    assert(c2.token_id_auctioned == c.token_id_auctioned.push(token_id));
    assert forall|i: int| 0 <= i < n implies (#[trigger] c2.auctions[i]) == c.auctions[i] by {}
    assert forall|t: Seq<char>| #[trigger] c2.token_id_auctioned.contains(t) <==> exists|i: int|
        0 <= i < c2.auctions.len() && (#[trigger] c2.auctions[i]).id_token_auction == t
            && !c2.auctions[i].is_end by {
        if t == token_id {
            assert(c2.token_id_auctioned[c.token_id_auctioned.len() as int] == t);
            assert(c2.auctions[n as int].id_token_auction == t && !c2.auctions[n as int].is_end);
        } else {
            if c2.token_id_auctioned.contains(t) {
                let k = choose|k: int| 0 <= k < c2.token_id_auctioned.len() && c2.token_id_auctioned[k] == t;
                assert(k < c.token_id_auctioned.len()) by {
                    if k == c.token_id_auctioned.len() {
                        assert(c2.token_id_auctioned[k] == token_id);
                    }
                }
                assert(c.token_id_auctioned[k] == t);
                assert(c.token_id_auctioned.contains(t));
                let i = choose|i: int| 0 <= i < c.auctions.len() && (#[trigger] c.auctions[i]).id_token_auction == t
                    && !c.auctions[i].is_end;
                assert(c2.auctions[i] == c.auctions[i]);
            }
            if exists|i: int| 0 <= i < c2.auctions.len() && (#[trigger] c2.auctions[i]).id_token_auction == t
                && !c2.auctions[i].is_end {
                let i = choose|i: int| 0 <= i < c2.auctions.len() && (#[trigger] c2.auctions[i]).id_token_auction == t
                    && !c2.auctions[i].is_end;
                assert(i != n);
                assert(c.auctions[i] == c2.auctions[i]);
                assert(c.token_id_auctioned.contains(t));
                let k = choose|k: int| 0 <= k < c.token_id_auctioned.len() && c.token_id_auctioned[k] == t;
                assert(c2.token_id_auctioned[k] == t);
            }
        }
    }
    assert forall|i: int, j: int|
        0 <= i < j < c2.auctions.len() && !c2.auctions[i].is_end && !c2.auctions[j].is_end implies (
        #[trigger] c2.auctions[i]).id_token_auction != (#[trigger] c2.auctions[j]).id_token_auction by {
        if j == n {
            assert(c2.auctions[i] == c.auctions[i]);
            if c.auctions[i].id_token_auction == token_id {
                assert(c.token_id_auctioned.contains(token_id));
            }
        } else {
            assert(c2.auctions[i] == c.auctions[i] && c2.auctions[j] == c.auctions[j]);
        }
    }
}

/// What settling an auction pays out: the sum of its bids, less one fee for
/// each bidder refunded.
pub open spec fn payout(a: AuctionModel) -> int {
    let price = single_lowest_bid(amounts(a.participants));
    let refunded = if price != 0 { a.participants.len() - 1 } else { a.participants.len() as int };
    total(a.participants) - TRANSFER_FEE * refunded
}

/// What settling those of `ids` whose time is up pays out.
pub open spec fn due_payout(c: ContractModel, ctx: CallContextModel, ids: Seq<u32>) -> int
    decreases ids.len(),
{
    if ids.len() == 0 {
        0
    } else {
        (if is_due(c, ctx, ids[0]) {
            payout(c.auction(ids[0]))
        } else {
            0
        }) + due_payout(c, ctx, ids.drop_first())
    }
}

/// The payout depends only on the auctions listed.
proof fn lemma_due_payout_frame(c: ContractModel, c1: ContractModel, ctx: CallContextModel, ids: Seq<u32>)
    requires
        forall|j: int| 0 <= j < ids.len() ==> c1.auction(#[trigger] ids[j]) == c.auction(ids[j]),
    ensures
        due_payout(c1, ctx, ids) == due_payout(c, ctx, ids),
    decreases ids.len(),
{
    if ids.len() > 0 {
        let rest = ids.drop_first();
        assert forall|j: int| 0 <= j < rest.len() implies c1.auction(#[trigger] rest[j]) == c.auction(rest[j]) by {
            assert(rest[j] == ids[j + 1]);
        }
        lemma_due_payout_frame(c, c1, ctx, rest);
        assert(c1.auction(ids[0]) == c.auction(ids[0]));
    }
}

/// Checking auctions that are all running, each once, pays out exactly what
/// settling those whose time is up pays out.
proof fn lemma_check_all_payout(c: ContractModel, ctx: CallContextModel, ids: Seq<u32>)
    requires
        c.wf(),
        ids.no_duplicates(),
        forall|j: int| 0 <= j < ids.len() ==> c.has_auction(#[trigger] ids[j]) && c.auction(ids[j]).is_enabled,
        c.check_all(ctx, ids) is Ok,
    ensures
        funds_out((c.check_all(ctx, ids)->Ok_0).1) == due_payout(c, ctx, ids),
    decreases ids.len(),
{
    if ids.len() > 0 {
        let x = ids[0];
        let (c1, acts1) = c.check_auction(ctx, x)->Ok_0;
        let rest = ids.drop_first();
        if is_due(c, ctx, x) {
            lemma_settle_effect(c, ctx, x);
            lemma_settle_keeps_wf(c, ctx, x);
            law_settlement_pays_out_the_bids(c, ctx, x);
        } else {
            assert(acts1 =~= Seq::<ActionModel>::empty());
        }
        assert forall|y: u32| c.has_auction(y) && y != x implies #[trigger] c1.auction(y) == c.auction(y) by {
            if is_due(c, ctx, x) {
                assert(c1.auctions[y - 1] == c.auctions[y - 1]);
            }
        }
        assert(rest.no_duplicates());
        assert forall|j: int| 0 <= j < rest.len() implies c1.has_auction(#[trigger] rest[j]) && c1.auction(rest[j]).is_enabled
            && c1.auction(rest[j]) == c.auction(rest[j]) by {
            assert(rest[j] == ids[j + 1]);
            assert(ids[j + 1] != ids[0]);
        }
        lemma_check_all_payout(c1, ctx, rest);
        lemma_due_payout_frame(c, c1, ctx, rest);
        let acts2 = (c1.check_all(ctx, rest)->Ok_0).1;
        lemma_funds_out_add(acts1, acts2);
    }
}

/// Checking the auctions pays out exactly the bids of the auctions it settles,
/// less one fee for each bidder refunded.
pub proof fn law_check_auctions_pays_out_settled_bids(c: ContractModel, ctx: CallContextModel)
    requires
        c.wf(),
        c.check_auctions(ctx) is Ok,
    ensures
        funds_out((c.check_auctions(ctx)->Ok_0).1) == due_payout(c, ctx, c.auction_going_on),
{
    let ids = c.auction_going_on;
    assert forall|j: int| 0 <= j < ids.len() implies c.has_auction(#[trigger] ids[j]) && c.auction(ids[j]).is_enabled by {
        assert(ids.contains(ids[j]));
    }
    lemma_check_all_payout(c, ctx, ids);
}

/// Two auctions whose bids hold the same amounts, each as often, whoever bid them
/// and in whatever order, have the same single lowest bid.
pub proof fn law_calculate_ignores_order(a1: AuctionModel, a2: AuctionModel)
    requires
        amounts(a1.participants).to_multiset() == amounts(a2.participants).to_multiset(),
    ensures
        single_lowest_bid(amounts(a1.participants)) == single_lowest_bid(amounts(a2.participants)),
{
    law_single_lowest_ignores_order(amounts(a1.participants), amounts(a2.participants));
}

/// Checking auctions none of which is due changes nothing and sends nothing.
proof fn lemma_check_all_none_due(c: ContractModel, ctx: CallContextModel, ids: Seq<u32>)
    requires
        forall|j: int|
            0 <= j < ids.len() ==> c.has_auction(#[trigger] ids[j]) && !is_due(c, ctx, ids[j])
                && ContractModel::end_time(c.auction(ids[j])) is Some,
    ensures
        c.check_all(ctx, ids) == Ok::<(ContractModel, Seq<ActionModel>), ContractError>((c, Seq::empty())),
    decreases ids.len(),
{
    if ids.len() > 0 {
        let rest = ids.drop_first();
        assert forall|j: int| 0 <= j < rest.len() implies c.has_auction(#[trigger] rest[j]) && !is_due(c, ctx, rest[j])
            && ContractModel::end_time(c.auction(rest[j])) is Some by {
            assert(rest[j] == ids[j + 1]);
        }
        lemma_check_all_none_due(c, ctx, rest);
        assert(Seq::<ActionModel>::empty() + Seq::<ActionModel>::empty() =~= Seq::<ActionModel>::empty());
    }
}

/// Checking the auctions a second time at the same moment changes nothing and
/// sends nothing: every auction that was due has been settled and is no longer
/// running, and the rest are still not due.
pub proof fn law_check_auctions_twice_does_nothing_more(c: ContractModel, ctx: CallContextModel)
    requires
        c.wf(),
        c.check_auctions(ctx) is Ok,
    ensures
        ({
            let c2 = (c.check_auctions(ctx)->Ok_0).0;
            c2.check_auctions(ctx) == Ok::<(ContractModel, Seq<ActionModel>), ContractError>((c2, Seq::empty()))
        }),
{
    let ids = c.auction_going_on;
    assert forall|j: int| 0 <= j < ids.len() implies c.has_auction(#[trigger] ids[j]) && c.auction(ids[j]).is_enabled by {
        assert(ids.contains(ids[j]));
    }
    lemma_check_all(c, ctx, ids);
    lemma_check_all_end_times(c, ctx, ids);
    let c2 = (c.check_auctions(ctx)->Ok_0).0;
    let ids2 = c2.auction_going_on;
    assert forall|j: int| 0 <= j < ids2.len() implies c2.has_auction(#[trigger] ids2[j]) && !is_due(c2, ctx, ids2[j])
        && ContractModel::end_time(c2.auction(ids2[j])) is Some by {
        let y = ids2[j];
        assert(ids2.contains(y));
        assert(c2.has_auction(y) && c2.auction(y).is_enabled);
        if !ids.contains(y) {
            assert(c2.auction(y) == c.auction(y));
            assert(c.auction_going_on.contains(y));
        }
        let k = choose|k: int| 0 <= k < ids.len() && ids[k] == y;
        if is_due(c, ctx, y) {
            assert(c2.auction(ids[k]) == settled(c.auction(ids[k])));
        }
        assert(c2.auction(ids[k]) == c.auction(ids[k]));
    }
    lemma_check_all_none_due(c2, ctx, ids2);
}

/// Checking auctions that all get through has found each one's end time.
proof fn lemma_check_all_end_times(c: ContractModel, ctx: CallContextModel, ids: Seq<u32>)
    requires
        c.wf(),
        ids.no_duplicates(),
        forall|j: int| 0 <= j < ids.len() ==> c.has_auction(#[trigger] ids[j]) && c.auction(ids[j]).is_enabled,
        c.check_all(ctx, ids) is Ok,
    ensures
        forall|j: int| 0 <= j < ids.len() ==> (#[trigger] ContractModel::end_time(c.auction(ids[j]))) is Some,
    decreases ids.len(),
{
    if ids.len() > 0 {
        let x = ids[0];
        let c1 = (c.check_auction(ctx, x)->Ok_0).0;
        let rest = ids.drop_first();
        if is_due(c, ctx, x) {
            lemma_settle_effect(c, ctx, x);
            lemma_settle_keeps_wf(c, ctx, x);
        }
        assert forall|y: u32| c.has_auction(y) && y != x implies #[trigger] c1.auction(y) == c.auction(y) by {
            if is_due(c, ctx, x) {
                assert(c1.auctions[y - 1] == c.auctions[y - 1]);
            }
        }
        assert(rest.no_duplicates());
        assert forall|j: int| 0 <= j < rest.len() implies c1.has_auction(#[trigger] rest[j]) && c1.auction(rest[j]).is_enabled
            && c1.auction(rest[j]) == c.auction(rest[j]) by {
            assert(rest[j] == ids[j + 1]);
            assert(ids[j + 1] != ids[0]);
        }
        lemma_check_all_end_times(c1, ctx, rest);
        assert forall|j: int| 0 <= j < ids.len() implies (#[trigger] ContractModel::end_time(c.auction(ids[j]))) is Some by {
            if j > 0 {
                assert(rest[j - 1] == ids[j]);
            }
        }
    }
}

/// A check settles a running auction exactly when its time is up: when its start
/// time plus its length in seconds, counted in nanoseconds, is at or before the
/// block's time. A check that goes through found that end time within a `u64` for
/// every running auction.
pub proof fn law_check_auctions_settles_when_time_is_up(c: ContractModel, ctx: CallContextModel)
    requires
        c.wf(),
        c.check_auctions(ctx) is Ok,
    ensures
        forall|id: u32|
            #[trigger] c.auction_going_on.contains(id) ==> {
                let a = c.auction(id);
                let a2 = (c.check_auctions(ctx)->Ok_0).0.auction(id);
                let end = a.auction_start_time + a.auction_during_second * 1_000_000_000;
                &&& end <= u64::MAX
                &&& (a2.is_end <==> end <= ctx.block_timestamp)
                &&& (end <= ctx.block_timestamp ==> !a2.is_enabled)
                &&& (ctx.block_timestamp < end ==> a2 == a)
            },
{
    let ids = c.auction_going_on;
    assert forall|j: int| 0 <= j < ids.len() implies c.has_auction(#[trigger] ids[j]) && c.auction(ids[j]).is_enabled by {
        assert(ids.contains(ids[j]));
    }
    lemma_check_all(c, ctx, ids);
    lemma_check_all_end_times(c, ctx, ids);
    let c2 = (c.check_auctions(ctx)->Ok_0).0;
    assert forall|id: u32| #[trigger] c.auction_going_on.contains(id) implies {
        let a = c.auction(id);
        let a2 = c2.auction(id);
        let end = a.auction_start_time + a.auction_during_second * 1_000_000_000;
        &&& end <= u64::MAX
        &&& (a2.is_end <==> end <= ctx.block_timestamp)
        &&& (end <= ctx.block_timestamp ==> !a2.is_enabled)
        &&& (ctx.block_timestamp < end ==> a2 == a)
    } by {
        let j = choose|j: int| 0 <= j < ids.len() && ids[j] == id;
        let a = c.auction(id);
        assert(ContractModel::end_time(c.auction(ids[j])) is Some);
        assert(c.has_auction(id) && a.is_enabled);
        assert(c.auctions[id - 1] == a);
        assert(!a.is_end);
    }
}

/// Creating an auction takes exactly the creation fee, five NEAR: a call with
/// any other deposit is refused for it, and one that succeeds had that deposit.
pub proof fn law_create_needs_the_exact_fee(
    c: ContractModel,
    ctx: CallContextModel,
    owner_tokens: Seq<Seq<char>>,
    token_id: Seq<char>,
    during: u64,
)
    ensures
        c.create_auction(ctx, owner_tokens, token_id, during) is Ok ==> ctx.attached_deposit
            == 5_000_000_000_000_000_000_000_000,
        ctx.attached_deposit != 5_000_000_000_000_000_000_000_000 ==> c.create_auction(
            ctx,
            owner_tokens,
            token_id,
            during,
        ) == Err::<(ContractModel, AuctionModel, Seq<ActionModel>), ContractError>(
            ContractError::WrongAuctionFee,
        ),
{
}

/// A caller with the exact fee, who owns a token that no listed auction holds,
/// and is a valid account, creates an auction, while ids are left.
pub proof fn law_create_succeeds_when_allowed(
    c: ContractModel,
    ctx: CallContextModel,
    owner_tokens: Seq<Seq<char>>,
    token_id: Seq<char>,
    during: u64,
)
    requires
        ctx.attached_deposit == 5_000_000_000_000_000_000_000_000,
        owner_tokens.contains(token_id),
        !c.token_id_auctioned.contains(token_id),
        c.auction_id < u32::MAX,
        is_valid_account_id(ctx.predecessor_account_id),
    ensures
        c.create_auction(ctx, owner_tokens, token_id, during) is Ok,
{
}

/// The view methods hand out an auction as it is stored, every field but the
/// bids kept, and no bids.
pub proof fn law_views_hide_only_the_bids(a: AuctionModel)
    ensures
        ({
            let v = a.without_participants();
            &&& v.owner_id == a.owner_id
            &&& v.auction_id == a.auction_id
            &&& v.auction_start_time == a.auction_start_time
            &&& v.auction_during_second == a.auction_during_second
            &&& v.id_token_auction == a.id_token_auction
            &&& v.is_enabled == a.is_enabled
            &&& v.is_end == a.is_end
            &&& v.winner == a.winner
            &&& v.close_price == a.close_price
            &&& v.participants.len() == 0
        }),
{
}

/// Only an auction's owner starts it: a start that succeeds was called by the
/// owner, with no deposit, on an auction that had neither started nor ended; it
/// starts the auction at the block's time and lists it as running, changing no
/// other auction. Anyone else, calling with no deposit, is refused as not the
/// owner.
pub proof fn law_only_the_owner_starts(c: ContractModel, ctx: CallContextModel, id: u32)
    ensures
        c.start_auction(ctx, id) is Ok ==> {
            let c2 = c.start_auction(ctx, id)->Ok_0;
            let a = c.auction(id);
            &&& c.has_auction(id)
            &&& ctx.predecessor_account_id == a.owner_id
            &&& ctx.attached_deposit == 0
            &&& !a.is_enabled && !a.is_end
            &&& c2.auction(id).is_enabled
            &&& c2.auction(id).auction_start_time == ctx.block_timestamp
            &&& c2.auction(id).owner_id == a.owner_id
            &&& c2.auction(id).participants == a.participants
            &&& c2.auction_going_on == c.auction_going_on.push(id)
            &&& c2.auctions.len() == c.auctions.len()
            &&& forall|x: u32| c.has_auction(x) && x != id ==> #[trigger] c2.auction(x) == c.auction(x)
        },
        c.has_auction(id) && ctx.attached_deposit == 0 && ctx.predecessor_account_id != c.auction(id).owner_id
            ==> c.start_auction(ctx, id) == Err::<ContractModel, ContractError>(ContractError::NotAuctionOwner),
{
    if c.start_auction(ctx, id) is Ok {
        let c2 = c.start_auction(ctx, id)->Ok_0;
        assert(c2.auctions[id - 1] == c2.auction(id));
        assert forall|x: u32| c.has_auction(x) && x != id implies #[trigger] c2.auction(x) == c.auction(x) by {
            assert(c2.auctions[x - 1] == c.auctions[x - 1]);
        }
    }
}

/// Any caller who is a valid account and has not bid yet may bid any positive
/// amount on a running auction: the bid is taken, after those already taken, and
/// nothing else changes.
pub proof fn law_any_fresh_positive_bid_is_taken(c: ContractModel, ctx: CallContextModel, id: u32)
    requires
        c.has_auction(id),
        c.auction(id).is_enabled,
        !c.auction(id).is_end,
        ctx.attached_deposit > 0,
        forall|k: int|
            0 <= k < c.auction(id).participants.len() ==> (#[trigger] c.auction(id).participants[k]).0
                != ctx.predecessor_account_id,
        is_valid_account_id(ctx.predecessor_account_id),
    ensures
        c.commit_auction(ctx, id) is Ok,
        ({
            let c2 = c.commit_auction(ctx, id)->Ok_0;
            let a = c.auction(id);
            &&& c2.auction(id).participants == a.participants.push(
                (ctx.predecessor_account_id, ctx.attached_deposit),
            )
            &&& c2.auction(id) == (AuctionModel { participants: c2.auction(id).participants, ..a })
            &&& c2.auctions.len() == c.auctions.len()
            &&& forall|x: u32| c.has_auction(x) && x != id ==> #[trigger] c2.auction(x) == c.auction(x)
            &&& c2.auction_going_on == c.auction_going_on
            &&& c2.token_id_auctioned == c.token_id_auctioned
            &&& c2.auction_id_by_owner == c.auction_id_by_owner
        }),
{
    let a = c.auction(id);
    assert(!has_bid(a.participants, ctx.predecessor_account_id));
    let c2 = c.commit_auction(ctx, id)->Ok_0;
    assert(c2.auctions[id - 1] == c2.auction(id));
    assert forall|x: u32| c.has_auction(x) && x != id implies #[trigger] c2.auction(x) == c.auction(x) by {
        assert(c2.auctions[x - 1] == c.auctions[x - 1]);
    }
}

} // verus!
