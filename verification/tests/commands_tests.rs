use zerowhats::accounts::AccountError;
use zerowhats::commands::{account_error, password_change_allowed, password_removal_allowed};

#[test]
fn account_error_messages() {
    assert_eq!(account_error(AccountError::NotFound), "account not found");
    assert_eq!(
        account_error(AccountError::LastAccount),
        "the last account cannot be removed"
    );
    assert_eq!(
        account_error(AccountError::IdExhausted),
        "no account ids remain available"
    );
}

#[test]
fn password_changes_need_the_current_password() {
    assert!(!password_change_allowed("", false, true));
    assert!(password_change_allowed("new", false, false));
    assert!(!password_change_allowed("new", true, false));
    assert!(password_change_allowed("new", true, true));
}

#[test]
fn password_removal_needs_proof() {
    assert!(password_removal_allowed(false, false, false));
    assert!(!password_removal_allowed(true, false, false));
    assert!(password_removal_allowed(true, true, false));
    assert!(password_removal_allowed(true, false, true));
}
