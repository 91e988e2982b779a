use zerowhats::accounts::{Account, Accounts, PRIMARY_ACCOUNT_ID};
use zerowhats::config::Config;
use zerowhats::window::{
    account_data_store_identifier, account_id_from_label, account_label, account_page_scripts,
    account_window_plan, configured_download_dir, download_name, effective_download_name,
    external_scheme_allowed, external_url_allowed, is_whatsapp_target, navigation_for, is_whatsapp_url, navigation_action,
    numbered_file_name, plan_reveal, user_agent, CHROME_USER_AGENT, LIGHT_USER_AGENT,
    SAFARI_USER_AGENT, unfocus_blur, NavigationAction, PageScript, RevealPlan,
    MAIN_LABEL,
};

#[test]
fn primary_account_uses_main_label() {
    assert_eq!(account_label(PRIMARY_ACCOUNT_ID), MAIN_LABEL);
    assert_eq!(account_id_from_label(MAIN_LABEL), Some(PRIMARY_ACCOUNT_ID));
}

#[test]
fn additional_accounts_use_prefixed_labels() {
    assert_eq!(account_label(2), "account-2");
    assert_eq!(account_id_from_label("account-2"), Some(2));
    assert_eq!(account_id_from_label("account-42"), Some(42));
}

#[test]
fn invalid_account_labels_are_rejected() {
    for label in [
        "account-0",
        "account-1",
        "account-",
        "account-x",
        "settings",
    ] {
        assert_eq!(account_id_from_label(label), None);
    }
}

#[test]
fn data_store_ids_are_stable_and_distinct() {
    assert_eq!(
        account_data_store_identifier(2),
        account_data_store_identifier(2)
    );
    assert_ne!(
        account_data_store_identifier(2),
        account_data_store_identifier(3)
    );
}

#[test]
fn data_store_id_layout() {
    let id = account_data_store_identifier(0x0102_0304);
    assert_eq!(&id[..12], b"ZeroWhatsAcc");
    assert_eq!(&id[12..], &[1, 2, 3, 4]);
}

#[test]
fn label_round_trip_for_large_ids() {
    assert_eq!(account_label(u32::MAX), "account-4294967295");
    assert_eq!(account_id_from_label(&account_label(u32::MAX)), Some(u32::MAX));
    assert_eq!(account_id_from_label("account-4294967296"), None);
}

#[test]
fn whatsapp_main_url() {
    assert!(is_whatsapp_url("https://web.whatsapp.com"));
}

#[test]
fn whatsapp_subdomain() {
    assert!(is_whatsapp_url("https://static.whatsapp.com/something"));
}

#[test]
fn whatsapp_net_media() {
    assert!(is_whatsapp_url("https://mmg.whatsapp.net/media/123"));
}

#[test]
fn whatsapp_net_subdomain() {
    assert!(is_whatsapp_url("https://pps.whatsapp.net/v/t61/photo.jpg"));
}

#[test]
fn blob_url_allowed() {
    assert!(is_whatsapp_url("blob:https://web.whatsapp.com/12345"));
}

#[test]
fn data_url_allowed() {
    assert!(is_whatsapp_url("data:text/html,<h1>hi</h1>"));
}

#[test]
fn about_blank_allowed() {
    assert!(is_whatsapp_url("about:blank"));
}

#[test]
fn external_url_rejected() {
    assert!(!is_whatsapp_url("https://google.com"));
}

#[test]
fn similar_domain_rejected() {
    assert!(!is_whatsapp_url("https://notwhatsapp.com"));
}

#[test]
fn whatsapp_in_path_rejected() {
    assert!(!is_whatsapp_url("https://evil.com/whatsapp.com"));
}

#[test]
fn unparsable_url_rejected() {
    assert!(!is_whatsapp_url("not a url"));
    assert!(!is_whatsapp_url(""));
}

#[test]
fn whatsapp_target_decision() {
    assert!(is_whatsapp_target("about", None));
    assert!(is_whatsapp_target("https", Some("web.whatsapp.com")));
    assert!(!is_whatsapp_target("https", Some("whatsapp.com")));
    assert!(!is_whatsapp_target("file", None));
}

#[test]
fn navigation_actions() {
    assert_eq!(
        navigation_action("https://web.whatsapp.com/"),
        NavigationAction::Allow
    );
    assert_eq!(
        navigation_action("https://example.com/page"),
        NavigationAction::OpenExternal
    );
    assert_eq!(
        navigation_action("file:///etc/passwd"),
        NavigationAction::Block
    );
    assert_eq!(navigation_action("::"), NavigationAction::Block);
}

#[test]
fn external_urls_limited_to_web_and_mail() {
    assert!(external_url_allowed("https://example.com"));
    assert!(external_url_allowed("http://example.com"));
    assert!(external_url_allowed("mailto:someone@example.com"));
    assert!(!external_url_allowed("file:///home/user"));
    assert!(!external_url_allowed("javascript:alert(1)"));
    assert!(!external_url_allowed("nonsense"));
}

#[test]
fn download_dir_ignores_blank_setting() {
    assert_eq!(configured_download_dir(&None), None);
    assert_eq!(configured_download_dir(&Some("   ".into())), None);
    assert_eq!(
        configured_download_dir(&Some("/tmp/dl".into())),
        Some("/tmp/dl".to_string())
    );
}

#[test]
fn download_names_fall_back_in_order() {
    assert_eq!(download_name(Some("a.pdf"), Some("b.pdf")), "a.pdf");
    assert_eq!(download_name(Some(""), Some("b.pdf")), "b.pdf");
    assert_eq!(download_name(None, Some("")), "download");
    assert_eq!(download_name(None, None), "download");
    assert_eq!(effective_download_name("  "), "download");
    assert_eq!(effective_download_name(" x "), " x ");
}

#[test]
fn numbered_names_keep_extension() {
    assert_eq!(numbered_file_name("file.txt", 1), "file (1).txt");
    assert_eq!(numbered_file_name("file.txt", 3), "file (3).txt");
    assert_eq!(numbered_file_name("README", 1), "README (1)");
    assert_eq!(numbered_file_name("archive.tar.gz", 2), "archive.tar (2).gz");
    assert_eq!(numbered_file_name(".bashrc", 1), ".bashrc (1)");
}

#[test]
fn page_scripts_depend_on_minimal_mode() {
    let full = account_page_scripts(false);
    assert_eq!(full.len(), 17);
    assert_eq!(full[0], PageScript::Bootstrap);
    assert!(full.contains(&PageScript::Notifications));
    assert!(!full.contains(&PageScript::DisableMedia));
    let minimal = account_page_scripts(true);
    assert_eq!(minimal.len(), 15);
    assert!(minimal.contains(&PageScript::DisableMedia));
    assert!(!minimal.contains(&PageScript::UnreadBadge));
    assert_eq!(minimal[minimal.len() - 1], PageScript::UpdateBanner);
}

#[test]
fn window_plan_for_accounts() {
    let mut cfg = Config::default();
    cfg.accounts.add("Work").unwrap();
    cfg.password_hash = Some("h".into());
    cfg.auto_lock_minutes = Some(5);
    let work = cfg.accounts.get(2).unwrap().clone();
    let plan = account_window_plan(&cfg, &work, false, true);
    assert_eq!(plan.label, "account-2");
    assert!(plan.visible);
    assert!(plan.is_active);
    assert!(plan.isolated_storage);
    assert!(plan.start_locked);
    assert_eq!(plan.auto_lock_minutes, 5);
    let primary = Account::new(1, "Account 1");
    let plan = account_window_plan(&cfg, &primary, true, true);
    assert_eq!(plan.label, "main");
    assert!(!plan.visible);
    assert!(!plan.isolated_storage);
}

#[test]
fn blur_only_when_unfocused_and_enabled() {
    let mut cfg = Config::default();
    assert!(!unfocus_blur(&cfg, false));
    cfg.hide_content_on_unfocus = true;
    assert!(unfocus_blur(&cfg, false));
    assert!(!unfocus_blur(&cfg, true));
}

#[test]
fn reveal_switches_active_account() {
    let mut accounts = Accounts::default();
    accounts.add("Work").unwrap();
    assert_eq!(
        plan_reveal(false, &mut accounts, 1),
        RevealPlan::Reveal { previous: 2 }
    );
    assert_eq!(accounts.active_id, 1);
    assert_eq!(
        plan_reveal(false, &mut accounts, 9),
        RevealPlan::UnknownAccount
    );
    assert_eq!(plan_reveal(true, &mut accounts, 2), RevealPlan::ShowLockScreen);
    assert_eq!(accounts.active_id, 1);
}

#[test]
fn navigation_decision_by_scheme_and_host() {
    assert_eq!(
        navigation_for("https", Some("mmg.whatsapp.net")),
        NavigationAction::Allow
    );
    assert_eq!(navigation_for("blob", None), NavigationAction::Allow);
    assert_eq!(
        navigation_for("http", Some("example.org")),
        NavigationAction::OpenExternal
    );
    assert_eq!(navigation_for("ftp", Some("example.org")), NavigationAction::Block);
    assert!(external_scheme_allowed("mailto"));
    assert!(!external_scheme_allowed("file"));
}

#[test]
fn user_agent_priority() {
    assert_eq!(user_agent(true, true), LIGHT_USER_AGENT);
    assert_eq!(user_agent(false, true), CHROME_USER_AGENT);
    assert_eq!(user_agent(false, false), SAFARI_USER_AGENT);
    assert!(SAFARI_USER_AGENT.contains("Version/17.6 Safari"));
}
