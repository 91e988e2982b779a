use zerowhats::tray::{
    badge_label, glyph_index, menu_icon, render_badge, tray_action, tray_click, tray_menu,
    unread_tooltip, MenuGlyph, TrayAction, TrayClick, TrayEntry,
};

#[test]
fn menu_shows_lock_only_with_password() {
    assert_eq!(
        tray_menu(false, false),
        vec![
            TrayEntry::Show,
            TrayEntry::Preferences,
            TrayEntry::Mute { muted: false },
            TrayEntry::Separator,
            TrayEntry::Quit,
        ]
    );
    assert!(tray_menu(true, true).contains(&TrayEntry::Lock));
}

#[test]
fn entries_have_ids_labels_and_glyphs() {
    assert_eq!(TrayEntry::Mute { muted: true }.label(), Some("Unmute"));
    assert_eq!(TrayEntry::Mute { muted: false }.label(), Some("Mute"));
    assert_eq!(
        TrayEntry::Mute { muted: true }.glyph(),
        Some(MenuGlyph::BellOff)
    );
    assert_eq!(TrayEntry::Mute { muted: true }.id(), Some("mute"));
    assert_eq!(TrayEntry::Separator.id(), None);
    for entry in tray_menu(false, true) {
        if let Some(id) = entry.id() {
            assert!(tray_action(id).is_some());
        }
    }
}

#[test]
fn menu_events_map_to_actions() {
    assert_eq!(tray_action("show"), Some(TrayAction::ShowMain));
    assert_eq!(tray_action("preferences"), Some(TrayAction::OpenSettings));
    assert_eq!(tray_action("mute"), Some(TrayAction::ToggleMute));
    assert_eq!(tray_action("lock"), Some(TrayAction::Lock));
    assert_eq!(tray_action("quit"), Some(TrayAction::Quit));
    assert_eq!(tray_action("other"), None);
}

#[test]
fn click_toggles_visible_window() {
    assert_eq!(tray_click(true, true, false), TrayClick::HideActive);
    assert_eq!(tray_click(true, false, false), TrayClick::ShowMain);
    assert_eq!(tray_click(true, true, true), TrayClick::ShowMain);
    assert_eq!(tray_click(false, true, false), TrayClick::ShowMain);
}

#[test]
fn tooltip_mentions_unread_count() {
    assert_eq!(unread_tooltip(0), "ZeroWhats");
    assert_eq!(unread_tooltip(12), "ZeroWhats — 12 unread");
}

#[test]
fn badge_label_caps_at_nine_plus() {
    assert_eq!(badge_label(7), vec!['7']);
    assert_eq!(badge_label(99), vec!['9', '9']);
    assert_eq!(badge_label(100), vec!['9', '+']);
    assert_eq!(glyph_index('+'), Some(10));
    assert_eq!(glyph_index('3'), Some(3));
    assert_eq!(glyph_index('x'), None);
}

#[test]
fn badge_is_painted_in_bottom_right_corner() {
    let (w, h) = (16u32, 16u32);
    let base = vec![10u8; (w * h * 4) as usize];
    let out = render_badge(w, h, &base, 1, 1);
    assert_eq!(out.len(), base.len());
    // Top-left pixel untouched.
    assert_eq!(&out[0..4], &[10, 10, 10, 10]);
    // The badge for one glyph is 5x7 pixels in the corner; its centre column
    // of the top text row is the lit top of the digit "1".
    let px = |x: u32, y: u32| -> &[u8] {
        let i = ((y * w + x) * 4) as usize;
        &out[i..i + 4]
    };
    assert_eq!(px(13, 10), &[255, 255, 255, 255]);
    assert_eq!(px(12, 10), &[0, 0, 0, 255]);
    assert_eq!(px(10, 8), &[10, 10, 10, 10]);
}

#[test]
fn menu_icon_paints_hash_pixels_grey() {
    let mut rows = [""; 16];
    rows[0] = "#.";
    let icon = menu_icon(&rows);
    assert_eq!(icon.len(), 1024);
    assert_eq!(&icon[0..4], &[0x8a, 0x8a, 0x8a, 0xff]);
    assert_eq!(&icon[4..8], &[0, 0, 0, 0]);
}
