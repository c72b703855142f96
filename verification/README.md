# near_reverse_auction

A NEAR contract that mints NFTs and sells them in reverse auctions: each bidder
commits an amount once, and when the auction's time is up the lowest amount that
exactly one bidder committed wins the token. The seller gets that amount; the
other bidders get their amounts back less a small transfer fee.

- `src/` is the verified library. `model.rs` states the contract's state and what
  each call does to it; `contract.rs` implements the calls and proves they do
  exactly that and keep the state's invariant; `bids.rs` finds the single lowest
  bid; `laws.rs` proves what holds across calls; `validity.rs` tests the
  invariant at run time for state read from storage. Each call takes what the chain
  says about it (`CallContext`) and hands back the actions the chain is to
  perform (`Action`): NFT minting, approval and transfer, payments, log lines.
- `app/` is the contract itself: it reads the environment, keeps the state in
  storage (and tests its invariant with `is_wf` on every read), holds the NFT ledger (`near_contract_standards`) and performs the
  actions.
- `tests/` runs the library on concrete auctions.
