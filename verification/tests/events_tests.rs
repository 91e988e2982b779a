use zerowhats::config::Config;
use zerowhats::events::{
    blob_download_bytes, download_file_name, environment_changes, page_action, rendering_changes, PageAction,
    MESA_EGL,
};

fn pairs(v: &[zerowhats::events::EnvChange]) -> Vec<(String, Option<String>)> {
    v.iter()
        .map(|c| (c.name.to_string(), c.value.clone()))
        .collect()
}

#[test]
fn page_actions_by_name() {
    assert_eq!(page_action("lock"), Some(PageAction::Lock));
    assert_eq!(page_action("settings"), Some(PageAction::Settings));
    assert_eq!(page_action("shortcuts"), Some(PageAction::Shortcuts));
    assert_eq!(page_action("about"), Some(PageAction::About));
    assert_eq!(page_action("update"), Some(PageAction::Update));
    assert_eq!(page_action("reboot"), None);
}

#[test]
fn blob_downloads_are_decoded() {
    assert_eq!(blob_download_bytes("aGk="), Some(b"hi".to_vec()));
    assert_eq!(blob_download_bytes("not base64!"), None);
    assert_eq!(blob_download_bytes(""), Some(vec![]));
}

#[test]
fn config_environment_sets_proxy_and_compositing() {
    let mut cfg = Config::default();
    assert!(environment_changes(&cfg).is_empty());
    cfg.proxy_enabled = true;
    assert!(environment_changes(&cfg).is_empty());
    cfg.proxy_url = "http://proxy:8080".into();
    cfg.hardware_acceleration = false;
    assert_eq!(
        pairs(&environment_changes(&cfg)),
        vec![
            ("http_proxy".to_string(), Some("http://proxy:8080".to_string())),
            ("https_proxy".to_string(), Some("http://proxy:8080".to_string())),
            ("WEBKIT_DISABLE_COMPOSITING_MODE".to_string(), Some("1".to_string())),
        ]
    );
}

#[test]
fn rendering_environment_choices() {
    assert_eq!(
        pairs(&rendering_changes(true, true, false, None)),
        vec![("WEBKIT_DISABLE_DMABUF_RENDERER".to_string(), Some("1".to_string()))]
    );
    let mesa = pairs(&rendering_changes(false, true, false, Some("/dev/dri/renderD128")));
    assert_eq!(mesa.len(), 8);
    assert_eq!(
        mesa[0],
        (
            "__EGL_VENDOR_LIBRARY_FILENAMES".to_string(),
            Some(MESA_EGL.to_string())
        )
    );
    assert_eq!(mesa[3], ("GBM_BACKEND".to_string(), None));
    assert_eq!(
        mesa[7],
        (
            "VAAPI_DEVICE".to_string(),
            Some("/dev/dri/renderD128".to_string())
        )
    );
    assert_eq!(
        pairs(&rendering_changes(false, false, false, None)),
        vec![("WEBKIT_DISABLE_DMABUF_RENDERER".to_string(), Some("1".to_string()))]
    );
    assert!(rendering_changes(false, false, true, None).is_empty());
}

#[test]
fn download_names_keep_only_the_file_name() {
    assert_eq!(download_file_name("report.pdf"), "report.pdf");
    assert_eq!(download_file_name("a/b/c.txt"), "c.txt");
    assert_eq!(download_file_name("../../etc/passwd"), "passwd");
    assert_eq!(download_file_name("dir/"), "dir");
    assert_eq!(download_file_name("x/./"), "x");
    assert_eq!(download_file_name("a/../b"), "b");
    assert_eq!(download_file_name("..."), "...");
    for blank in ["", "/", ".", "..", "a/..", "//"] {
        assert_eq!(download_file_name(blank), "download");
    }
}
