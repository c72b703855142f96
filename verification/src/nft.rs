//! A token record: who owns it, who may move it, and what it holds.

use vstd::prelude::*;
use crate::account::ValidAccountId;

verus! {

/// What a token holds. The secret itself stays private; its hash may be shown.
pub struct TokenData {
    pub title: Option<String>,
    pub description: Option<String>,
    secret: Option<String>,
    pub secret_hash: Option<Vec<u8>>,
}

impl View for TokenData {
    /// Title, description, secret and secret hash.
    type V = (Option<Seq<char>>, Option<Seq<char>>, Option<Seq<char>>, Option<Seq<u8>>);

    closed spec fn view(&self) -> Self::V {
        (self.title.deep_view(), self.description.deep_view(), self.secret.deep_view(), self.secret_hash.deep_view())
    }
}

impl TokenData {
    /// Token data with the given title, description, secret and secret hash.
    pub fn new(
        title: Option<String>,
        description: Option<String>,
        secret: Option<String>,
        secret_hash: Option<Vec<u8>>,
    ) -> (d: TokenData)
        ensures
            d@ == (title.deep_view(), description.deep_view(), secret.deep_view(), secret_hash.deep_view()),
    {
        TokenData { title, description, secret, secret_hash }
    }
}

/// A token: its owner, the account allowed to move it, its id and its data.
pub struct Token {
    pub owner_id: String,
    pub authorized_id: String,
    pub token_id: u32,
    pub tokendata: TokenData,
}

impl Token {
    /// Makes `new_owner_id` the token's owner; nothing else changes.
    pub fn transfer(&mut self, new_owner_id: ValidAccountId)
        ensures
            final(self).owner_id@ == new_owner_id@,
            final(self).authorized_id == old(self).authorized_id,
            final(self).token_id == old(self).token_id,
            final(self).tokendata == old(self).tokendata,
    {
        self.owner_id = new_owner_id.to_string();
    }
}

} // verus!
