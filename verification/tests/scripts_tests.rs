use zerowhats::scripts::{
    account_metadata_script, account_name_script, blur_script, bootstrap, fill_template,
    has_password_script, theme_script,
};

/// A bootstrap template with every placeholder, laid out as the page script
/// that seeds `window.__ZW`.
const TEMPLATE: &str = "window.__ZW = { theme: \"__ZW_THEME__\", autoLockMinutes: \"__ZW_AUTO_LOCK_MINUTES__\", hasPassword: \"__ZW_HAS_PASSWORD__\", spellcheck: \"__ZW_SPELLCHECK__\", accountId: \"__ZW_ACCOUNT_ID__\", accountName: \"__ZW_ACCOUNT_NAME__\" };";

fn sample_bootstrap() -> String {
    bootstrap(TEMPLATE, "dark", 15, true, true, 2, "Work")
}

#[test]
fn bootstrap_substitutes_theme() {
    let script = sample_bootstrap();
    assert!(script.contains("\"dark\""));
    assert!(!script.contains("__ZW_THEME__"));
}

#[test]
fn bootstrap_substitutes_auto_lock_minutes() {
    let script = sample_bootstrap();
    assert!(script.contains("15"));
    assert!(!script.contains("__ZW_AUTO_LOCK_MINUTES__"));
}

#[test]
fn bootstrap_substitutes_has_password() {
    let script = sample_bootstrap();
    assert!(script.contains("true"));
    assert!(!script.contains("__ZW_HAS_PASSWORD__"));
}

#[test]
fn bootstrap_substitutes_spellcheck() {
    let script = bootstrap(TEMPLATE, "system", 0, false, false, 1, "Personal");
    assert!(!script.contains("__ZW_SPELLCHECK__"));
}

#[test]
fn bootstrap_substitutes_account_identity() {
    let script = bootstrap(TEMPLATE, "system", 0, false, true, 7, "Work \"QA\"");
    assert!(script.contains("accountId: 7"));
    assert!(script.contains("accountName: \"Work \\\"QA\\\"\""));
    assert!(!script.contains("__ZW_ACCOUNT_"));
}

#[test]
fn bootstrap_no_placeholders_remain() {
    let script = sample_bootstrap();
    assert!(!script.contains("__ZW_"));
}

#[test]
fn bootstrap_exact_output() {
    assert_eq!(
        sample_bootstrap(),
        "window.__ZW = { theme: \"dark\", autoLockMinutes: 15, hasPassword: true, spellcheck: true, accountId: 2, accountName: \"Work\" };"
    );
}

#[test]
fn bootstrap_leaves_unquoted_placeholders_alone() {
    let script = bootstrap("x = __ZW_THEME__;", "dark", 0, false, false, 1, "A");
    assert_eq!(script, "x = __ZW_THEME__;");
}

#[test]
fn account_name_script_escapes_json() {
    assert_eq!(
        account_name_script("Ana \"B\""),
        "if (window.__ZW) window.__ZW.accountName = \"Ana \\\"B\\\"\";"
    );
}

#[test]
fn account_metadata_script_sets_name_and_active_flag() {
    assert_eq!(
        account_metadata_script("Work", false),
        "if (window.__ZW) { window.__ZW.accountName = \"Work\"; window.__ZW.isActiveAccount = false; }"
    );
}

#[test]
fn small_page_scripts() {
    assert_eq!(
        has_password_script(true),
        "if (window.__ZW) window.__ZW.hasPassword = true;"
    );
    assert_eq!(
        blur_script(false),
        "if (window.__ZW && window.__ZW.setBlur) window.__ZW.setBlur(false);"
    );
    assert_eq!(
        theme_script("dark"),
        "(function(){ try { localStorage.setItem('theme', '\"dark\"'); location.reload(); } catch (e) {} })();"
    );
}

#[test]
fn fill_template_uses_given_literals() {
    assert_eq!(
        fill_template(TEMPLATE, "'x'", 1, false, true, 9, "'n'"),
        "window.__ZW = { theme: 'x', autoLockMinutes: 1, hasPassword: false, spellcheck: true, accountId: 9, accountName: 'n' };"
    );
}

#[test]
fn json_escapes_quotes_backslashes_and_controls() {
    assert_eq!(
        account_name_script("a\nb\u{1}\\\"\u{7f}é"),
        "if (window.__ZW) window.__ZW.accountName = \"a\\nb\\u0001\\\\\\\"\u{7f}é\";"
    );
    assert_eq!(
        account_name_script("\u{8}\t\u{c}\r\u{1f}"),
        "if (window.__ZW) window.__ZW.accountName = \"\\b\\t\\f\\r\\u001f\";"
    );
}
