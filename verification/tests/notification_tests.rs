use zerowhats::accounts::Accounts;
use zerowhats::config::NotificationPrivacy;
use zerowhats::notification::{avatar_file_name, avatar_from_data_url, prepare_notification};

#[test]
fn full_privacy_keeps_content_and_avatar() {
    let accounts = Accounts::default();
    let n = prepare_notification(
        &accounts,
        NotificationPrivacy::Full,
        1,
        Some("Ana".into()),
        Some("hi".into()),
        Some("data:image/png;base64,AQID".into()),
    )
    .unwrap();
    assert_eq!(n.account_id, 1);
    assert_eq!(n.title, "Ana");
    assert_eq!(n.body, "hi");
    assert_eq!(n.avatar.as_deref(), Some("data:image/png;base64,AQID"));
}

#[test]
fn generic_privacy_hides_message_and_avatar() {
    let accounts = Accounts::default();
    let n = prepare_notification(
        &accounts,
        NotificationPrivacy::Generic,
        1,
        None,
        Some("secret".into()),
        Some("data:image/png;base64,AQID".into()),
    )
    .unwrap();
    assert_eq!(n.title, "WhatsApp");
    assert_eq!(n.body, "New message");
    assert!(n.avatar.is_none());
}

#[test]
fn hidden_privacy_or_unknown_account_shows_nothing() {
    let accounts = Accounts::default();
    assert!(prepare_notification(
        &accounts,
        NotificationPrivacy::Hidden,
        1,
        Some("Ana".into()),
        None,
        None
    )
    .is_none());
    assert!(prepare_notification(
        &accounts,
        NotificationPrivacy::Full,
        5,
        Some("Ana".into()),
        None,
        None
    )
    .is_none());
}

#[test]
fn missing_body_is_empty() {
    let accounts = Accounts::default();
    let n = prepare_notification(&accounts, NotificationPrivacy::Full, 1, None, None, None)
        .unwrap();
    assert_eq!(n.title, "WhatsApp");
    assert_eq!(n.body, "");
}

#[test]
fn avatar_data_urls_are_decoded() {
    assert_eq!(
        avatar_from_data_url("data:image/png;base64,AQID"),
        Some(("png", vec![1, 2, 3]))
    );
    assert_eq!(
        avatar_from_data_url("data:image/jpeg;base64,AQID"),
        Some(("jpg", vec![1, 2, 3]))
    );
    assert_eq!(
        avatar_from_data_url("data:image/webp;base64,"),
        Some(("webp", vec![]))
    );
    assert_eq!(
        avatar_from_data_url("data:image/gif;base64,aGk="),
        Some(("png", b"hi".to_vec()))
    );
}

#[test]
fn malformed_avatar_urls_are_refused() {
    assert_eq!(avatar_from_data_url("image/png;base64,AQID"), None);
    assert_eq!(avatar_from_data_url("data:image/png,AQID"), None);
    assert_eq!(avatar_from_data_url("data:image/png;base64,!!"), None);
}

#[test]
fn avatar_files_are_per_account() {
    assert_eq!(
        avatar_file_name(3, "png"),
        "zerowhats-notify-avatar-3.png"
    );
}
