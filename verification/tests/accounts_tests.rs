use zerowhats::accounts::{Account, AccountError, AccountId, Accounts, PRIMARY_ACCOUNT_ID};

#[test]
fn default_is_legacy_account_one() {
    let accounts = Accounts::default();
    assert_eq!(accounts.items.len(), 1);
    assert_eq!(accounts.items[0].id, PRIMARY_ACCOUNT_ID);
    assert_eq!(accounts.items[0].name, "Account 1");
    assert_eq!(accounts.active_id, PRIMARY_ACCOUNT_ID);
    assert_eq!(accounts.next_id, 2);
    assert!(accounts.items[0].uses_legacy_storage());
}

#[test]
fn added_accounts_use_new_ids_and_trim_names() {
    let mut accounts = Accounts::default();
    let work = accounts.add("  Work  ").unwrap();
    let personal = accounts.add("Personal").unwrap();

    assert_eq!(work.id, 2);
    assert_eq!(work.name, "Work");
    assert_eq!(personal.id, 3);
    assert_eq!(accounts.active_id, 3);
    assert_eq!(accounts.next_id, 4);
    assert!(!work.uses_legacy_storage());
}

#[test]
fn blank_names_fall_back_to_account_id() {
    let mut accounts = Accounts::default();
    let account = accounts.add("   ").unwrap();
    assert_eq!(account.name, "Account 2");

    accounts.rename(2, " ").unwrap();
    assert_eq!(accounts.get(2).unwrap().name, "Account 2");
}

#[test]
fn deleting_does_not_reuse_ids() {
    let mut accounts = Accounts::default();
    accounts.add("Work").unwrap();
    accounts.add("Personal").unwrap();
    accounts.remove(2).unwrap();

    let replacement = accounts.add("Other").unwrap();
    assert_eq!(replacement.id, 4);
}

#[test]
fn removing_active_selects_remaining_account() {
    let mut accounts = Accounts::default();
    accounts.add("Work").unwrap();
    assert_eq!(accounts.active_id, 2);

    accounts.remove(2).unwrap();
    assert_eq!(accounts.active_id, 1);
}

#[test]
fn cannot_remove_last_account() {
    let mut accounts = Accounts::default();
    assert_eq!(
        accounts.remove(PRIMARY_ACCOUNT_ID),
        Err(AccountError::LastAccount)
    );
}

#[test]
fn unknown_account_operations_fail() {
    let mut accounts = Accounts::default();
    assert_eq!(accounts.set_active(99), Err(AccountError::NotFound));
    assert_eq!(accounts.rename(99, "Nope"), Err(AccountError::NotFound));
    assert_eq!(accounts.remove(99), Err(AccountError::NotFound));
}

#[test]
fn normalize_repairs_empty_collection_to_legacy_account() {
    let mut accounts = Accounts {
        items: Vec::new(),
        active_id: 99,
        next_id: 0,
    };
    accounts.normalize();
    assert_eq!(accounts, Accounts::default());
}

#[test]
fn normalize_drops_invalid_and_duplicate_ids() {
    let mut accounts = Accounts {
        items: vec![
            Account {
                id: 0,
                name: "Invalid".into(),
            },
            Account {
                id: 2,
                name: "Work".into(),
            },
            Account {
                id: 2,
                name: "Duplicate".into(),
            },
            Account {
                id: 5,
                name: "  Personal  ".into(),
            },
        ],
        active_id: 99,
        next_id: 2,
    };

    accounts.normalize();

    assert_eq!(accounts.items.len(), 2);
    assert_eq!(accounts.items[0], Account::new(2, "Work"));
    assert_eq!(accounts.items[1], Account::new(5, "Personal"));
    assert_eq!(accounts.active_id, 2);
    assert_eq!(accounts.next_id, 6);
}

#[test]
fn normalize_never_rewinds_next_id() {
    let mut accounts = Accounts {
        items: vec![Account::new(1, "Primary"), Account::new(2, "Work")],
        active_id: 1,
        next_id: 50,
    };
    accounts.normalize();
    assert_eq!(accounts.next_id, 50);
}

#[test]
fn normalize_handles_maximum_id_without_wrapping() {
    let mut accounts = Accounts {
        items: vec![Account::new(AccountId::MAX, "Last")],
        active_id: AccountId::MAX,
        next_id: 2,
    };
    accounts.normalize();
    assert_eq!(accounts.next_id, AccountId::MAX);
}

#[test]
fn add_refuses_when_ids_are_exhausted() {
    let mut accounts = Accounts {
        items: vec![Account::new(1, "Primary"), Account::new(AccountId::MAX, "Last")],
        active_id: 1,
        next_id: AccountId::MAX,
    };
    assert_eq!(accounts.add("More"), Err(AccountError::IdExhausted));
    assert_eq!(accounts.items.len(), 2);
    assert_eq!(accounts.next_id, AccountId::MAX);
}

#[test]
fn rename_trims_and_keeps_id() {
    let mut accounts = Accounts::default();
    accounts.add("Work").unwrap();
    accounts.rename(2, "  Office ").unwrap();
    assert_eq!(accounts.get(2).unwrap().name, "Office");
    assert_eq!(accounts.items.len(), 2);
    assert_eq!(accounts.next_id, 3);
}

#[test]
fn set_active_switches_only_the_active_id() {
    let mut accounts = Accounts::default();
    accounts.add("Work").unwrap();
    accounts.set_active(1).unwrap();
    assert_eq!(accounts.active_id, 1);
    assert_eq!(accounts.active().name, "Account 1");
    assert_eq!(accounts.items.len(), 2);
}

#[test]
fn removing_inactive_account_keeps_active() {
    let mut accounts = Accounts::default();
    accounts.add("Work").unwrap();
    accounts.add("Personal").unwrap();
    let removed = accounts.remove(2).unwrap();
    assert_eq!(removed.name, "Work");
    assert_eq!(accounts.active_id, 3);
    assert!(accounts.get(2).is_none());
    assert_eq!(accounts.next_id, 4);
}

#[test]
fn normalize_is_idempotent_on_example() {
    let mut accounts = Accounts {
        items: vec![
            Account {
                id: 3,
                name: " A ".into(),
            },
            Account {
                id: 3,
                name: "B".into(),
            },
        ],
        active_id: 7,
        next_id: 1,
    };
    accounts.normalize();
    let once = accounts.clone();
    accounts.normalize();
    assert_eq!(accounts, once);
    assert_eq!(once.items, vec![Account::new(3, "A")]);
    assert_eq!(once.active_id, 3);
    assert_eq!(once.next_id, 4);
}

#[test]
fn normalize_of_empty_collection_restarts_at_two() {
    let mut accounts = Accounts {
        items: Vec::new(),
        active_id: 9,
        next_id: 50,
    };
    accounts.normalize();
    assert_eq!(accounts, Accounts::default());
}
