//! What a call hands the contract about itself, and what the contract hands back
//! for the chain to do.

use vstd::prelude::*;
use crate::model::{ActionModel, CallContextModel};

verus! {

/// Who calls, on behalf of which contract, with what deposit, and when: what the
/// chain's environment tells a contract method.
pub struct CallContext {
    pub current_account_id: String,
    pub predecessor_account_id: String,
    pub attached_deposit: u128,
    pub block_timestamp: u64,
}

impl View for CallContext {
    type V = CallContextModel;

    open spec fn view(&self) -> CallContextModel {
        CallContextModel {
            current_account_id: self.current_account_id@,
            predecessor_account_id: self.predecessor_account_id@,
            attached_deposit: self.attached_deposit,
            block_timestamp: self.block_timestamp,
        }
    }
}

/// Something the chain is asked to do once a call succeeds, in the order given:
/// mint or move a token on the NFT ledger, approve an account for a token, send
/// NEAR, or write a log line.
pub enum Action {
    MintNft { token_id: String, receiver_id: String },
    ApproveNft { token_id: String, account_id: String },
    TransferNft { receiver_id: String, token_id: String },
    TransferFunds { receiver_id: String, amount: u128 },
    Log { message: String },
}

impl View for Action {
    type V = ActionModel;

    open spec fn view(&self) -> ActionModel {
        match self {
            Action::MintNft { token_id, receiver_id } => ActionModel::MintNft {
                token_id: token_id@,
                receiver_id: receiver_id@,
            },
            Action::ApproveNft { token_id, account_id } => ActionModel::ApproveNft {
                token_id: token_id@,
                account_id: account_id@,
            },
            Action::TransferNft { receiver_id, token_id } => ActionModel::TransferNft {
                receiver_id: receiver_id@,
                token_id: token_id@,
            },
            Action::TransferFunds { receiver_id, amount } => ActionModel::TransferFunds {
                receiver_id: receiver_id@,
                amount: *amount,
            },
            Action::Log { message } => ActionModel::Log { message: message@ },
        }
    }
}

/// The model of a list of actions.
pub open spec fn actions_view(s: Seq<Action>) -> Seq<ActionModel> {
    s.map_values(|a: Action| a@)
}

/// The model of a list of strings.
pub open spec fn strings_view(s: Seq<String>) -> Seq<Seq<char>> {
    s.map_values(|t: String| t@)
}

/// `s` is one of `v`.
pub(crate) fn contains_string(v: &Vec<String>, s: &String) -> (b: bool)
    ensures
        b == strings_view(v@).contains(s@),
{
    let mut i: usize = 0;
    while i < v.len()
        invariant
            0 <= i <= v.len(),
            forall|j: int| 0 <= j < i ==> (#[trigger] v@[j])@ != s@,
        decreases v.len() - i,
    {
        if v[i] == *s {
            assert(strings_view(v@)[i as int] == s@);
            return true;
        }
        i = i + 1;
    }
    proof {
        if strings_view(v@).contains(s@) {
            let j = choose|j: int| 0 <= j < strings_view(v@).len() && strings_view(v@)[j] == s@;
            assert(v@[j]@ != s@);
        }
    }
    false
}

} // verus!
