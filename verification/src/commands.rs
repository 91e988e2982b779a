//! Rules of the commands the local windows invoke: the messages for refused
//! account operations and who may change or remove the app-lock password.

use vstd::prelude::*;

use crate::accounts::AccountError;

verus! {

/// The message shown for a refused account operation.
pub fn account_error(error: AccountError) -> (r: String)
    ensures
        error == AccountError::NotFound ==> r@ == "account not found"@,
        error == AccountError::LastAccount ==> r@ == "the last account cannot be removed"@,
        error == AccountError::IdExhausted ==> r@ == "no account ids remain available"@,
{
    match error {
        AccountError::NotFound => String::from_str("account not found"),
        AccountError::LastAccount => String::from_str("the last account cannot be removed"),
        AccountError::IdExhausted => String::from_str("no account ids remain available"),
    }
}

/// Whether a new app-lock password may be stored. It must not be empty.
/// Setting a password for the first time needs no proof; replacing an
/// existing one requires that the current password was given and verified.
pub fn password_change_allowed(plain: &str, has_existing: bool, current_verified: bool) -> (r:
    bool)
    ensures
        r == (plain@.len() > 0 && (!has_existing || current_verified)),
{
    if plain.is_empty() {
        return false;
    }
    !has_existing || current_verified
}

/// Whether the app-lock password may be removed: trivially when none is set,
/// otherwise with the current password or a successful administrator
/// authentication.
pub fn password_removal_allowed(has_existing: bool, by_password: bool, by_admin: bool) -> (r:
    bool)
    ensures
        r == (!has_existing || by_password || by_admin),
{
    !has_existing || by_password || by_admin
}

} // verus!
