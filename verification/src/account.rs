//! Account identifiers as NEAR accepts them.

use vstd::prelude::*;

verus! {

/// `-`, `_` and `.` separate the parts of an account id.
pub open spec fn is_separator(c: char) -> bool {
    c == '-' || c == '_' || c == '.'
}

/// Lower-case ASCII letters and ASCII digits.
pub open spec fn is_lower_alnum(c: char) -> bool {
    (('a' as u32) <= (c as u32) && (c as u32) <= ('z' as u32))
        || (('0' as u32) <= (c as u32) && (c as u32) <= ('9' as u32))
}

/// An account id is valid when it has 2 to 64 characters, each a lower-case letter,
/// a digit or a separator, with no separator at either end and no two separators
/// side by side.
pub open spec fn is_valid_account_id(s: Seq<char>) -> bool {
    &&& 2 <= s.len() <= 64
    &&& forall|i: int| 0 <= i < s.len() ==> is_lower_alnum(#[trigger] s[i]) || is_separator(s[i])
    &&& !is_separator(s[0])
    &&& !is_separator(s[s.len() - 1])
    &&& forall|i: int|
        0 <= i < s.len() - 1 ==> !(is_separator(#[trigger] s[i]) && is_separator(s[i + 1]))
}

/// Tells whether `account_id` is a valid NEAR account id, by asking
/// `near_sdk::json_types::ValidAccountId::try_from`, which accepts a string exactly
/// when `near_sdk::env::is_valid_account_id` accepts its bytes. That function checks
/// the length (2 to 64 bytes) and scans the bytes: lower-case letters and digits
/// pass, `-`, `_` and `.` pass when the byte before was not one of them and the
/// string does not start with one, anything else fails, and the last byte must not
/// be a separator. A character outside ASCII encodes to bytes that all fail, so the
/// check over characters below says the same.
#[verifier::external_body]
pub(crate) fn account_id_is_valid(account_id: &String) -> (valid: bool)
    ensures
        valid == is_valid_account_id(account_id@),
{
    near_sdk::json_types::ValidAccountId::try_from(account_id.clone()).is_ok()
}

} // verus!

verus! {

/// An account id that NEAR accepts. Only `try_from` makes one, so every value of
/// this type is valid.
pub struct ValidAccountId {
    account_id: String,
}

impl View for ValidAccountId {
    type V = Seq<char>;

    closed spec fn view(&self) -> Seq<char> {
        self.account_id@
    }
}

impl ValidAccountId {
    #[verifier::type_invariant]
    spec fn inv(self) -> bool {
        is_valid_account_id(self.account_id@)
    }

    /// Accepts `account_id` exactly when it is a valid account id.
    pub fn try_from(account_id: String) -> (r: Result<ValidAccountId, crate::model::ContractError>)
        ensures
            r is Ok <==> is_valid_account_id(account_id@),
            r matches Ok(v) ==> v@ == account_id@,
            r matches Err(e) ==> e == crate::model::ContractError::InvalidAccountId,
    {
        if account_id_is_valid(&account_id) {
            Ok(ValidAccountId { account_id })
        } else {
            Err(crate::model::ContractError::InvalidAccountId)
        }
    }

    /// The account id as a `String`.
    pub fn to_string(&self) -> (s: String)
        ensures
            s@ == self@,
            is_valid_account_id(s@),
    {
        proof {
            use_type_invariant(self);
        }
        self.account_id.clone()
    }

    /// The account id as a `&String`.
    pub fn as_string(&self) -> (s: &String)
        ensures
            s@ == self@,
            is_valid_account_id(s@),
    {
        proof {
            use_type_invariant(self);
        }
        &self.account_id
    }
}

} // verus!
