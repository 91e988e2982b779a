use std::collections::HashMap;
use zerowhats::unread::{total, UnreadCounts};

#[test]
fn total_sums_accounts() {
    let counts = HashMap::from([(1, 2), (2, 5), (3, 1)]);
    assert_eq!(total(&counts), 8);
}

#[test]
fn total_empty_is_zero() {
    assert_eq!(total(&HashMap::new()), 0);
}

#[test]
fn total_saturates_instead_of_wrapping() {
    let counts = HashMap::from([(1, u32::MAX), (2, 1)]);
    assert_eq!(total(&counts), u32::MAX);
}

#[test]
fn unread_counts_replace_and_remove() {
    let mut counts = UnreadCounts::new();
    assert_eq!(counts.set(1, 3), 3);
    assert_eq!(counts.set(2, 4), 7);
    assert_eq!(counts.set(1, 1), 5);
    assert_eq!(counts.remove(2), 1);
    assert_eq!(counts.remove(9), 1);
    assert_eq!(counts.remove(1), 0);
}
