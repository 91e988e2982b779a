use zerowhats::accounts::{Account, Accounts, PRIMARY_ACCOUNT_ID};
use zerowhats::config::{Config, ConfigPatch, ConfigView, NotificationPrivacy, Theme};

// --- Completing a loaded config (legacy migration) ---
//
// Each case starts from what deserializing the JSON gives (unset fields take
// their defaults) and then completes it with the legacy `mute_notifications`
// flag that the JSON carried.

#[test]
fn migrates_legacy_mute_to_hidden() {
    // { "mute_notifications": true }
    let mut cfg = Config::default();
    cfg.finish_load(Some(true));
    assert_eq!(cfg.notification_privacy, NotificationPrivacy::Hidden);
}

#[test]
fn legacy_unmuted_keeps_full_default() {
    // { "mute_notifications": false }
    let mut cfg = Config::default();
    cfg.finish_load(Some(false));
    assert_eq!(cfg.notification_privacy, NotificationPrivacy::Full);
}

#[test]
fn legacy_mute_absent_keeps_full_default() {
    // {}
    let mut cfg = Config::default();
    cfg.finish_load(None);
    assert_eq!(cfg.notification_privacy, NotificationPrivacy::Full);
}

#[test]
fn explicit_privacy_wins_over_absent_legacy() {
    // { "notification_privacy": "generic" }
    let mut cfg = Config::default();
    cfg.notification_privacy = NotificationPrivacy::Generic;
    cfg.finish_load(None);
    assert_eq!(cfg.notification_privacy, NotificationPrivacy::Generic);
}

#[test]
fn legacy_mute_true_overrides_explicit_privacy() {
    // { "notification_privacy": "full", "mute_notifications": true }
    let mut cfg = Config::default();
    cfg.notification_privacy = NotificationPrivacy::Full;
    cfg.finish_load(Some(true));
    assert_eq!(cfg.notification_privacy, NotificationPrivacy::Hidden);
}

#[test]
fn legacy_config_without_accounts_becomes_account_one() {
    // { "theme": "dark", "auto_start": true }
    let mut cfg = Config::default();
    cfg.theme = Theme::Dark;
    cfg.auto_start = true;
    cfg.finish_load(None);
    assert_eq!(cfg.accounts.items.len(), 1);
    assert_eq!(cfg.accounts.active_id, PRIMARY_ACCOUNT_ID);
    assert_eq!(cfg.accounts.next_id, 2);
    assert_eq!(cfg.accounts.active().name, "Account 1");
    assert!(cfg.accounts.active().uses_legacy_storage());
}

#[test]
fn finish_load_repairs_accounts_and_keeps_other_fields() {
    let mut cfg = Config::default();
    cfg.proxy_url = "http://p".into();
    cfg.accounts = Accounts {
        items: vec![
            Account {
                id: 4,
                name: " Work ".into(),
            },
            Account {
                id: 4,
                name: "Dup".into(),
            },
        ],
        active_id: 9,
        next_id: 0,
    };
    cfg.finish_load(Some(false));
    assert_eq!(cfg.accounts.items, vec![Account::new(4, "Work")]);
    assert_eq!(cfg.accounts.active_id, 4);
    assert_eq!(cfg.accounts.next_id, 5);
    assert_eq!(cfg.proxy_url, "http://p");
    assert_eq!(cfg.notification_privacy, NotificationPrivacy::Full);
}

// --- NotificationPrivacy ---

#[test]
fn privacy_is_hidden() {
    assert!(NotificationPrivacy::Hidden.is_hidden());
    assert!(!NotificationPrivacy::Full.is_hidden());
    assert!(!NotificationPrivacy::Generic.is_hidden());
}

#[test]
fn privacy_shows_preview() {
    assert!(NotificationPrivacy::Full.shows_preview());
    assert!(!NotificationPrivacy::Generic.shows_preview());
    assert!(!NotificationPrivacy::Hidden.shows_preview());
}

#[test]
fn privacy_apply_full_passes_through() {
    let got = NotificationPrivacy::Full.apply(Some("Ana".into()), Some("hi there".into()));
    assert_eq!(got, Some((Some("Ana".into()), Some("hi there".into()))));
}

#[test]
fn privacy_apply_full_with_none_body() {
    let got = NotificationPrivacy::Full.apply(Some("Ana".into()), None);
    assert_eq!(got, Some((Some("Ana".into()), None)));
}

#[test]
fn privacy_apply_full_with_none_title() {
    let got = NotificationPrivacy::Full.apply(None, Some("msg".into()));
    assert_eq!(got, Some((None, Some("msg".into()))));
}

#[test]
fn privacy_apply_generic_keeps_sender_hides_body() {
    let got = NotificationPrivacy::Generic.apply(Some("Ana".into()), Some("hi there".into()));
    assert_eq!(got, Some((Some("Ana".into()), Some("New message".into()))));
}

#[test]
fn privacy_apply_generic_with_none_title() {
    let got = NotificationPrivacy::Generic.apply(None, Some("secret".into()));
    assert_eq!(got, Some((None, Some("New message".into()))));
}

#[test]
fn privacy_apply_hidden_suppresses() {
    let got = NotificationPrivacy::Hidden.apply(Some("Ana".into()), Some("hi there".into()));
    assert_eq!(got, None);
}

#[test]
fn privacy_apply_hidden_suppresses_even_nones() {
    let got = NotificationPrivacy::Hidden.apply(None, None);
    assert_eq!(got, None);
}

#[test]
fn mute_toggle_flips_between_hidden_and_full() {
    assert_eq!(
        NotificationPrivacy::Hidden.after_mute_toggle(),
        NotificationPrivacy::Full
    );
    assert_eq!(
        NotificationPrivacy::Full.after_mute_toggle(),
        NotificationPrivacy::Hidden
    );
    assert_eq!(
        NotificationPrivacy::Generic.after_mute_toggle(),
        NotificationPrivacy::Hidden
    );
}

// --- Theme ---

#[test]
fn theme_wa_values() {
    assert_eq!(Theme::System.wa_value(), "system");
    assert_eq!(Theme::Light.wa_value(), "light");
    assert_eq!(Theme::Dark.wa_value(), "dark");
}

#[test]
fn theme_default_is_system() {
    assert_eq!(Theme::default(), Theme::System);
}

// --- Config defaults ---

#[test]
fn default_config_values() {
    let cfg = Config::default();
    assert_eq!(cfg.theme, Theme::System);
    assert!(cfg.locale.is_none());
    assert_eq!(cfg.accounts, Accounts::default());
    assert!(!cfg.proxy_enabled);
    assert!(cfg.proxy_url.is_empty());
    assert!(cfg.auto_download);
    assert!(cfg.download_path.is_none());
    assert_eq!(cfg.notification_privacy, NotificationPrivacy::Full);
    assert!(!cfg.hide_content_on_unfocus);
    assert!(cfg.cache_enabled);
    assert!(cfg.password_hash.is_none());
    assert!(!cfg.auto_start);
    assert!(cfg.hardware_acceleration);
    assert!(!cfg.lock_on_close);
    assert!(cfg.auto_lock_minutes.is_none());
    assert!(cfg.spellcheck_enabled);
    assert!(cfg.spellcheck_languages.is_empty());
}

// --- ConfigView ---

#[test]
fn config_view_no_password() {
    let cfg = Config::default();
    let view: ConfigView = cfg.into();
    assert!(!view.has_password);
}

#[test]
fn config_view_reports_password_presence() {
    let mut cfg = Config::default();
    cfg.password_hash = Some("$argon2id$secret".into());
    cfg.accounts.add("Work").unwrap();
    let view: ConfigView = cfg.into();
    assert!(view.has_password);
}

#[test]
fn config_view_preserves_all_fields() {
    let mut cfg = Config::default();
    cfg.theme = Theme::Dark;
    cfg.locale = Some("pt-br".into());
    cfg.proxy_enabled = true;
    cfg.proxy_url = "http://p".into();
    cfg.hide_content_on_unfocus = true;
    cfg.auto_lock_minutes = Some(15);
    cfg.spellcheck_languages = vec!["en_US".into()];

    let view: ConfigView = cfg.into();
    assert_eq!(view.theme, Theme::Dark);
    assert_eq!(view.locale.as_deref(), Some("pt-br"));
    assert!(view.proxy_enabled);
    assert_eq!(view.proxy_url, "http://p");
    assert!(view.hide_content_on_unfocus);
    assert_eq!(view.auto_lock_minutes, Some(15));
    assert_eq!(view.spellcheck_languages, vec!["en_US"]);
}

// --- ConfigPatch ---

#[test]
fn patch_preserves_internal_fields() {
    let mut cfg = Config::default();
    cfg.password_hash = Some("secret_hash".into());
    cfg.accounts.add("Work").unwrap();
    let accounts_before = cfg.accounts.clone();

    let patch = ConfigPatch {
        theme: Theme::Dark,
        locale: None,
        proxy_enabled: false,
        proxy_url: String::new(),
        auto_download: true,
        download_path: None,
        notification_privacy: NotificationPrivacy::Generic,
        hide_content_on_unfocus: false,
        cache_enabled: true,
        auto_start: false,
        hardware_acceleration: true,
        lock_on_close: true,
        auto_lock_minutes: Some(5),
        spellcheck_enabled: true,
        spellcheck_languages: vec![],
    };

    patch.apply_to(&mut cfg);
    assert_eq!(cfg.theme, Theme::Dark);
    assert_eq!(cfg.notification_privacy, NotificationPrivacy::Generic);
    assert!(cfg.lock_on_close);
    assert_eq!(cfg.auto_lock_minutes, Some(5));
    assert_eq!(cfg.password_hash.as_deref(), Some("secret_hash"));
    assert_eq!(cfg.accounts, accounts_before);
}

#[test]
fn patch_applies_all_fields() {
    let mut cfg = Config::default();

    let patch = ConfigPatch {
        theme: Theme::Light,
        locale: Some("en".into()),
        proxy_enabled: true,
        proxy_url: "http://proxy".into(),
        auto_download: false,
        download_path: Some("/downloads".into()),
        notification_privacy: NotificationPrivacy::Hidden,
        hide_content_on_unfocus: true,
        cache_enabled: false,
        auto_start: true,
        hardware_acceleration: false,
        lock_on_close: true,
        auto_lock_minutes: Some(30),
        spellcheck_enabled: false,
        spellcheck_languages: vec!["pt_BR".into()],
    };

    patch.apply_to(&mut cfg);
    assert_eq!(cfg.theme, Theme::Light);
    assert_eq!(cfg.locale.as_deref(), Some("en"));
    assert!(cfg.proxy_enabled);
    assert_eq!(cfg.proxy_url, "http://proxy");
    assert!(!cfg.auto_download);
    assert_eq!(cfg.download_path.as_deref(), Some("/downloads"));
    assert_eq!(cfg.notification_privacy, NotificationPrivacy::Hidden);
    assert!(cfg.hide_content_on_unfocus);
    assert!(!cfg.cache_enabled);
    assert!(cfg.auto_start);
    assert!(!cfg.hardware_acceleration);
    assert!(cfg.lock_on_close);
    assert_eq!(cfg.auto_lock_minutes, Some(30));
    assert!(!cfg.spellcheck_enabled);
    assert_eq!(cfg.spellcheck_languages, vec!["pt_BR"]);
    assert_eq!(cfg.accounts, Accounts::default());
}
