//! The system tray: its menu entries and their actions, the click behaviour,
//! the menu-item glyphs, and the unread-count badge painted onto the icon.

use vstd::prelude::*;

use crate::text::{decimal, push_decimal, push_str_chars, str_chars, string_from_chars};

verus! {

/// One entry of the tray menu, in the order they are shown.
#[derive(Debug, Clone, Copy, PartialEq, Eq, Structural)]
pub enum TrayEntry {
    Show,
    Preferences,
    /// The mute toggle; `muted` tells whether notifications are muted now.
    Mute { muted: bool },
    Separator,
    Lock,
    Quit,
}

/// The tray menu: Show, Preferences and the mute toggle, a separator, then
/// Lock (only once a password is set) and Quit.
pub open spec fn tray_entries(muted: bool, has_password: bool) -> Seq<TrayEntry> {
    seq![TrayEntry::Show, TrayEntry::Preferences, TrayEntry::Mute { muted }, TrayEntry::Separator]
        + (if has_password {
        seq![TrayEntry::Lock]
    } else {
        Seq::<TrayEntry>::empty()
    }) + seq![TrayEntry::Quit]
}

pub fn tray_menu(muted: bool, has_password: bool) -> (r: Vec<TrayEntry>)
    ensures
        r@ == tray_entries(muted, has_password),
{
    let mut v: Vec<TrayEntry> = Vec::new();
    v.push(TrayEntry::Show);
    v.push(TrayEntry::Preferences);
    v.push(TrayEntry::Mute { muted });
    v.push(TrayEntry::Separator);
    if has_password {
        v.push(TrayEntry::Lock);
    }
    v.push(TrayEntry::Quit);
    proof {
        assert(v@ =~= tray_entries(muted, has_password));
    }
    v
}

/// The tray menu always offers Quit, as its last entry and only there; Lock
/// is offered exactly when a password is set, right before Quit; the first
/// four entries are Show, Preferences, the mute toggle showing the current
/// state, and a separator.
pub proof fn lemma_tray_menu_shape(muted: bool, has_password: bool)
    ensures
        tray_entries(muted, has_password).len() == (if has_password {
            6int
        } else {
            5int
        }),
        tray_entries(muted, has_password)[0] == TrayEntry::Show,
        tray_entries(muted, has_password)[1] == TrayEntry::Preferences,
        tray_entries(muted, has_password)[2] == (TrayEntry::Mute { muted }),
        tray_entries(muted, has_password)[3] == TrayEntry::Separator,
        tray_entries(muted, has_password).last() == TrayEntry::Quit,
        forall|i: int|
            0 <= i < tray_entries(muted, has_password).len() - 1 ==> #[trigger] tray_entries(
                muted,
                has_password,
            )[i] != TrayEntry::Quit,
        tray_entries(muted, has_password).contains(TrayEntry::Lock) <==> has_password,
        has_password ==> tray_entries(muted, has_password)[4] == TrayEntry::Lock,
{
    let e = tray_entries(muted, has_password);
    if has_password {
        assert(e =~= seq![
            TrayEntry::Show,
            TrayEntry::Preferences,
            TrayEntry::Mute { muted },
            TrayEntry::Separator,
            TrayEntry::Lock,
            TrayEntry::Quit,
        ]);
        assert(e[4] == TrayEntry::Lock);
    } else {
        assert(e =~= seq![
            TrayEntry::Show,
            TrayEntry::Preferences,
            TrayEntry::Mute { muted },
            TrayEntry::Separator,
            TrayEntry::Quit,
        ]);
        if e.contains(TrayEntry::Lock) {
            let i = choose|i: int| 0 <= i < e.len() && e[i] == TrayEntry::Lock;
            assert(false);
        }
    }
}

/// Which glyph a menu entry shows.
#[derive(Debug, Clone, Copy, PartialEq, Eq, Structural)]
pub enum MenuGlyph {
    Show,
    Preferences,
    Bell,
    BellOff,
    Lock,
    Quit,
}

impl TrayEntry {
    /// The menu-event id of the entry (`None` for the separator).
    pub fn id(self) -> (r: Option<&'static str>)
        ensures
            self == TrayEntry::Show ==> r == Some("show"),
            self == TrayEntry::Preferences ==> r == Some("preferences"),
            self is Mute ==> r == Some("mute"),
            self == TrayEntry::Separator ==> r is None,
            self == TrayEntry::Lock ==> r == Some("lock"),
            self == TrayEntry::Quit ==> r == Some("quit"),
    {
        match self {
            TrayEntry::Show => Some("show"),
            TrayEntry::Preferences => Some("preferences"),
            TrayEntry::Mute { .. } => Some("mute"),
            TrayEntry::Separator => None,
            TrayEntry::Lock => Some("lock"),
            TrayEntry::Quit => Some("quit"),
        }
    }

    /// The label of the entry; the mute toggle reads "Unmute" while muted.
    pub fn label(self) -> (r: Option<&'static str>)
        ensures
            self == TrayEntry::Show ==> r == Some("Show"),
            self == TrayEntry::Preferences ==> r == Some("Preferences"),
            self == (TrayEntry::Mute { muted: true }) ==> r == Some("Unmute"),
            self == (TrayEntry::Mute { muted: false }) ==> r == Some("Mute"),
            self == TrayEntry::Separator ==> r is None,
            self == TrayEntry::Lock ==> r == Some("Lock"),
            self == TrayEntry::Quit ==> r == Some("Quit"),
    {
        match self {
            TrayEntry::Show => Some("Show"),
            TrayEntry::Preferences => Some("Preferences"),
            TrayEntry::Mute { muted } => if muted {
                Some("Unmute")
            } else {
                Some("Mute")
            },
            TrayEntry::Separator => None,
            TrayEntry::Lock => Some("Lock"),
            TrayEntry::Quit => Some("Quit"),
        }
    }

    /// The glyph of the entry; the mute toggle shows a crossed-out bell while
    /// muted.
    pub fn glyph(self) -> (r: Option<MenuGlyph>)
        ensures
            self == TrayEntry::Show ==> r == Some(MenuGlyph::Show),
            self == TrayEntry::Preferences ==> r == Some(MenuGlyph::Preferences),
            self == (TrayEntry::Mute { muted: true }) ==> r == Some(MenuGlyph::BellOff),
            self == (TrayEntry::Mute { muted: false }) ==> r == Some(MenuGlyph::Bell),
            self == TrayEntry::Separator ==> r is None,
            self == TrayEntry::Lock ==> r == Some(MenuGlyph::Lock),
            self == TrayEntry::Quit ==> r == Some(MenuGlyph::Quit),
    {
        match self {
            TrayEntry::Show => Some(MenuGlyph::Show),
            TrayEntry::Preferences => Some(MenuGlyph::Preferences),
            TrayEntry::Mute { muted } => if muted {
                Some(MenuGlyph::BellOff)
            } else {
                Some(MenuGlyph::Bell)
            },
            TrayEntry::Separator => None,
            TrayEntry::Lock => Some(MenuGlyph::Lock),
            TrayEntry::Quit => Some(MenuGlyph::Quit),
        }
    }
}

/// What a tray menu event asks for.
#[derive(Debug, Clone, Copy, PartialEq, Eq, Structural)]
pub enum TrayAction {
    ShowMain,
    OpenSettings,
    ToggleMute,
    Lock,
    Quit,
}

/// The action of a tray menu event id; unknown ids do nothing.
pub fn tray_action(id: &str) -> (r: Option<TrayAction>)
    ensures
        r == (if id@ == "show"@ {
            Some(TrayAction::ShowMain)
        } else if id@ == "preferences"@ {
            Some(TrayAction::OpenSettings)
        } else if id@ == "mute"@ {
            Some(TrayAction::ToggleMute)
        } else if id@ == "lock"@ {
            Some(TrayAction::Lock)
        } else if id@ == "quit"@ {
            Some(TrayAction::Quit)
        } else {
            None
        }),
{
    let cs = str_chars(id);
    let c = cs.as_slice();
    if crate::text::chars_eq_str(c, "show") {
        Some(TrayAction::ShowMain)
    } else if crate::text::chars_eq_str(c, "preferences") {
        Some(TrayAction::OpenSettings)
    } else if crate::text::chars_eq_str(c, "mute") {
        Some(TrayAction::ToggleMute)
    } else if crate::text::chars_eq_str(c, "lock") {
        Some(TrayAction::Lock)
    } else if crate::text::chars_eq_str(c, "quit") {
        Some(TrayAction::Quit)
    } else {
        None
    }
}

/// What a left click on the tray icon does.
#[derive(Debug, Clone, Copy, PartialEq, Eq, Structural)]
pub enum TrayClick {
    /// Hide the active account's window.
    HideActive,
    /// Reveal the active account (or the lock screen).
    ShowMain,
}

/// The tray toggles the active account: a visible window of an unlocked app
/// is hidden; anything else (hidden, locked, or no window yet) is revealed.
pub fn tray_click(window_exists: bool, visible: bool, locked: bool) -> (r: TrayClick)
    ensures
        r == (if window_exists && visible && !locked {
            TrayClick::HideActive
        } else {
            TrayClick::ShowMain
        }),
{
    if window_exists && visible && !locked {
        TrayClick::HideActive
    } else {
        TrayClick::ShowMain
    }
}

/// The tray tooltip: `ZeroWhats — N unread` with unread messages, else
/// `ZeroWhats`.
pub open spec fn unread_tooltip_text(count: u32) -> Seq<char> {
    if count > 0 {
        "ZeroWhats — "@ + decimal(count as nat) + " unread"@
    } else {
        "ZeroWhats"@
    }
}

/// The tooltip mentions unread messages exactly when there is at least one:
/// no count reads `ZeroWhats`, any other count `ZeroWhats — <count> unread`.
pub proof fn lemma_unread_tooltip(count: u32)
    ensures
        count == 0 ==> unread_tooltip_text(count) == "ZeroWhats"@,
        count > 0 ==> unread_tooltip_text(count) == "ZeroWhats — "@ + decimal(count as nat)
            + " unread"@,
        count > 0 ==> unread_tooltip_text(count) != "ZeroWhats"@,
{
    reveal_strlit("ZeroWhats");
    reveal_strlit("ZeroWhats — ");
    reveal_strlit(" unread");
    if count > 0 {
        let t = unread_tooltip_text(count);
        assert(t.len() > "ZeroWhats"@.len());
    }
}

/// The badge box for a one-glyph label is five font pixels wide and seven
/// high (the 3x5 glyph with one font pixel of padding all round), and for a
/// two-glyph label nine wide (two glyphs and a one-pixel gap); it sits in the
/// bottom-right corner and its corners are rounded with a radius of one and a
/// half font pixels, rounded down.
pub proof fn lemma_badge_geometry(w: int, h: int, s: int)
    ensures
        badge_box(w, h, s, 1) == (w - 5 * s, h - 7 * s, 5 * s, 7 * s, s + s / 2),
        badge_box(w, h, s, 2) == (w - 9 * s, h - 7 * s, 9 * s, 7 * s, s + s / 2),
{
    assert(1 * 3 * s + (1 - 1) * s == 3 * s) by (nonlinear_arith);
    assert(2 * 3 * s + (2 - 1) * s == 7 * s) by (nonlinear_arith);
}

pub fn unread_tooltip(count: u32) -> (r: String)
    ensures
        r@ == unread_tooltip_text(count),
{
    if count > 0 {
        let mut cs: Vec<char> = Vec::new();
        push_str_chars(&mut cs, "ZeroWhats — ");
        push_decimal(&mut cs, count);
        push_str_chars(&mut cs, " unread");
        string_from_chars(cs.as_slice())
    } else {
        String::from_str("ZeroWhats")
    }
}

/// Index of the glyph of `c` in the badge font: digits, then `+`.
pub open spec fn glyph_of(c: char) -> Option<usize> {
    if '0' <= c && c <= '9' {
        Some((c as int - '0' as int) as usize)
    } else if c == '+' {
        Some(10)
    } else {
        None
    }
}

pub fn glyph_index(c: char) -> (r: Option<usize>)
    ensures
        r == glyph_of(c),
{
    if '0' <= c && c <= '9' {
        Some((c as u32 - '0' as u32) as usize)
    } else if c == '+' {
        Some(10)
    } else {
        None
    }
}

/// Row `row` of glyph `g` of the 3x5 badge font: the low three bits, most
/// significant bit leftmost. Glyphs 0 to 9 are the digits, 10 is `+`.
pub open spec fn font_row(g: int, row: int) -> u8 {
    let rows: Seq<u8> = if g == 0 {
        seq![7, 5, 5, 5, 7]
    } else if g == 1 {
        seq![2, 6, 2, 2, 7]
    } else if g == 2 {
        seq![7, 1, 7, 4, 7]
    } else if g == 3 {
        seq![7, 1, 7, 1, 7]
    } else if g == 4 {
        seq![5, 5, 7, 1, 1]
    } else if g == 5 {
        seq![7, 4, 7, 1, 7]
    } else if g == 6 {
        seq![7, 4, 7, 5, 7]
    } else if g == 7 {
        seq![7, 1, 2, 4, 4]
    } else if g == 8 {
        seq![7, 5, 7, 5, 7]
    } else if g == 9 {
        seq![7, 5, 7, 1, 7]
    } else {
        seq![0, 2, 7, 2, 0]
    };
    rows[row]
}

/// The badge font, glyph by glyph: the digits 0 to 9 and `+`, each as five
/// rows of three pixels, the leftmost pixel in the highest of the three bits.
/// Every digit has its own shape, so a count is never drawn as another one.
pub proof fn lemma_badge_font()
    ensures
        ({
            let font: Seq<Seq<u8>> = seq![
                seq![0b111u8, 0b101, 0b101, 0b101, 0b111],
                seq![0b010u8, 0b110, 0b010, 0b010, 0b111],
                seq![0b111u8, 0b001, 0b111, 0b100, 0b111],
                seq![0b111u8, 0b001, 0b111, 0b001, 0b111],
                seq![0b101u8, 0b101, 0b111, 0b001, 0b001],
                seq![0b111u8, 0b100, 0b111, 0b001, 0b111],
                seq![0b111u8, 0b100, 0b111, 0b101, 0b111],
                seq![0b111u8, 0b001, 0b010, 0b100, 0b100],
                seq![0b111u8, 0b101, 0b111, 0b101, 0b111],
                seq![0b111u8, 0b101, 0b111, 0b001, 0b111],
                seq![0b000u8, 0b010, 0b111, 0b010, 0b000],
            ];
            forall|g: int, r: int| 0 <= g < 11 && 0 <= r < 5 ==> #[trigger] font_row(g, r) == font[g][r]
        }),
        forall|g1: int, g2: int|
            0 <= g1 < 11 && 0 <= g2 < 11 && #[trigger] glyph_rows(g1) == #[trigger] glyph_rows(g2)
                ==> g1 == g2,
{
    assert forall|g1: int, g2: int|
        0 <= g1 < 11 && 0 <= g2 < 11 && #[trigger] glyph_rows(g1) == #[trigger] glyph_rows(
            g2,
        ) implies g1 == g2 by {
        assert(glyph_rows(g1)[0] == glyph_rows(g2)[0]);
        assert(glyph_rows(g1)[1] == glyph_rows(g2)[1]);
        assert(glyph_rows(g1)[2] == glyph_rows(g2)[2]);
        assert(glyph_rows(g1)[3] == glyph_rows(g2)[3]);
        assert(glyph_rows(g1)[4] == glyph_rows(g2)[4]);
    }
}

/// The five rows of glyph `g`, top to bottom.
pub open spec fn glyph_rows(g: int) -> Seq<u8> {
    Seq::new(5, |r: int| font_row(g, r))
}

fn font_row_exec(g: usize, row: usize) -> (r: u8)
    requires
        g <= 10,
        row < 5,
    ensures
        r == font_row(g as int, row as int),
{
    let rows: [u8; 5] = if g == 0 {
        [7, 5, 5, 5, 7]
    } else if g == 1 {
        [2, 6, 2, 2, 7]
    } else if g == 2 {
        [7, 1, 7, 4, 7]
    } else if g == 3 {
        [7, 1, 7, 1, 7]
    } else if g == 4 {
        [5, 5, 7, 1, 1]
    } else if g == 5 {
        [7, 4, 7, 1, 7]
    } else if g == 6 {
        [7, 4, 7, 5, 7]
    } else if g == 7 {
        [7, 1, 2, 4, 4]
    } else if g == 8 {
        [7, 5, 7, 5, 7]
    } else if g == 9 {
        [7, 5, 7, 1, 7]
    } else {
        [0, 2, 7, 2, 0]
    };
    rows[row]
}

/// The badge text: the count, or `9+` above 99 since more does not fit
/// legibly on a small icon.
pub open spec fn badge_text(count: u32) -> Seq<char> {
    if count > 99 {
        seq!['9', '+']
    } else {
        decimal(count as nat)
    }
}

pub fn badge_label(count: u32) -> (r: Vec<char>)
    ensures
        r@ == badge_text(count),
        1 <= r@.len() <= 2,
        forall|i: int| 0 <= i < r@.len() ==> #[trigger] glyph_of(r@[i]) is Some,
{
    let mut v: Vec<char> = Vec::new();
    if count > 99 {
        v.push('9');
        v.push('+');
    } else {
        push_decimal(&mut v, count);
        proof {
            crate::text::lemma_decimal_digits(count as nat);
            if count >= 10 {
                crate::text::lemma_decimal_digits((count / 10) as nat);
                assert(decimal((count / 10) as nat).len() == 1);
            }
        }
    }
    proof {
        assert(v@ =~= badge_text(count));
    }
    v
}

/// Geometry of the badge drawn on a `w` x `h` icon with font pixel size `s`
/// for a `g`-glyph label: `(badge_x, badge_y, badge_w, badge_h, radius)`.
pub open spec fn badge_box(w: int, h: int, s: int, g: int) -> (int, int, int, int, int) {
    let text_w = g * 3 * s + (g - 1) * s;
    let text_h = 5 * s;
    let bw = text_w + 2 * s;
    let bh = text_h + 2 * s;
    (w - bw, h - bh, bw, bh, s + s / 2)
}

/// Distance of a badge coordinate into a rounded corner (0 on the straight
/// part).
pub open spec fn corner_offset(v: int, size: int, r: int) -> int {
    if v < r {
        r - v
    } else if v >= size - r {
        v - (size - r - 1)
    } else {
        0
    }
}

/// Whether pixel `(x, y)` lies on the rounded badge background.
pub open spec fn on_badge(w: int, h: int, s: int, g: int, x: int, y: int) -> bool {
    let (bx, by, bw, bh, r) = badge_box(w, h, s, g);
    let xx = x - bx;
    let yy = y - by;
    &&& 0 <= xx < bw
    &&& 0 <= yy < bh
    &&& corner_offset(xx, bw, r) * corner_offset(xx, bw, r) + corner_offset(yy, bh, r)
        * corner_offset(yy, bh, r) <= r * r
}

/// Whether pixel `(x, y)` lies on a lit dot of the badge text. The text
/// starts `s` pixels inside the badge; each glyph is 3 font pixels wide and
/// followed by a 1-font-pixel gap.
pub open spec fn on_text(w: int, h: int, s: int, label: Seq<char>, x: int, y: int) -> bool {
    let g = label.len() as int;
    let (bx, by, bw, bh, r) = badge_box(w, h, s, g);
    let gx = x - (bx + s);
    let gy = y - (by + s);
    let k = gx / (4 * s);
    let within = gx % (4 * s);
    &&& 0 <= gx
    &&& 0 <= gy < 5 * s
    &&& k < g
    &&& within < 3 * s
    &&& glyph_of(label[k]) matches Some(gi) && font_row(gi as int, gy / s) & (1u8 << ((2 - within
        / s) as u8)) != 0
}

/// The colour painted at pixel `(x, y)`: white text over a black rounded
/// badge, or nothing (the icon shows through).
pub open spec fn badge_paint(w: int, h: int, s: int, label: Seq<char>, x: int, y: int) -> Option<
    u8,
> {
    if on_text(w, h, s, label, x, y) {
        Some(255)
    } else if on_badge(w, h, s, label.len() as int, x, y) {
        Some(0)
    } else {
        None
    }
}

/// Byte `i` of the badged image: pixel `i / 4` at `(p % w, p / w)`, channel
/// `i % 4`; painted pixels are opaque.
pub open spec fn badged_byte(w: int, h: int, s: int, label: Seq<char>, base: Seq<u8>, i: int) -> u8 {
    let p = i / 4;
    match badge_paint(w, h, s, label, p % w, p / w) {
        Some(v) => if i % 4 == 3 {
            255
        } else {
            v
        },
        None => base[i],
    }
}

fn badge_paint_exec(w: i64, h: i64, s: i64, label: &Vec<char>, x: i64, y: i64) -> (r: Option<u8>)
    requires
        0 <= w <= 0x7fff_ffff,
        0 <= h <= 0x2000_0000,
        1 <= s <= h + 1,
        0 <= x < w,
        0 <= y < h,
        1 <= label@.len() <= 2,
        forall|i: int| 0 <= i < label@.len() ==> #[trigger] glyph_of(label@[i]) is Some,
    ensures
        r == badge_paint(w as int, h as int, s as int, label@, x as int, y as int),
{
    let g = label.len() as i64;
    proof {
        assert(0 <= g * 3 * s <= 0x3_0000_0000 && 0 <= (g - 1) * s <= 0x1_0000_0000)
            by (nonlinear_arith)
            requires
                1 <= g <= 2,
                1 <= s <= 0x8000_0000,
        ;
    }
    let text_w = g * 3 * s + (g - 1) * s;
    let text_h = 5 * s;
    let bw = text_w + 2 * s;
    let bh = text_h + 2 * s;
    let bx = w - bw;
    let by = h - bh;
    let r = s + s / 2;
    let gx = x - (bx + s);
    let gy = y - (by + s);
    if 0 <= gx && 0 <= gy && gy < 5 * s {
        let k = gx / (4 * s);
        let within = gx % (4 * s);
        if k < g && within < 3 * s {
            let gi = match glyph_index(label[k as usize]) {
                Some(gi) => gi,
                None => {
                    return None;
                },
            };
            proof {
                assert(0 <= within / s < 3) by (nonlinear_arith)
                    requires
                        0 <= within < 3 * s,
                        s >= 1,
                ;
                assert(0 <= gy / s < 5) by (nonlinear_arith)
                    requires
                        0 <= gy < 5 * s,
                        s >= 1,
                ;
            }
            let row = font_row_exec(gi, (gy / s) as usize);
            let col = within / s;
            if row & (1u8 << ((2 - col) as u8)) != 0 {
                return Some(255);
            }
        }
    }
    let xx = x - bx;
    let yy = y - by;
    if 0 <= xx && xx < bw && 0 <= yy && yy < bh {
        let cx = if xx < r {
            r - xx
        } else if xx >= bw - r {
            xx - (bw - r - 1)
        } else {
            0
        };
        let cy = if yy < r {
            r - yy
        } else if yy >= bh - r {
            yy - (bh - r - 1)
        } else {
            0
        };
        proof {
            assert(cx * cx <= r * r) by (nonlinear_arith)
                requires
                    0 <= cx <= r,
            ;
            assert(cy * cy <= r * r) by (nonlinear_arith)
                requires
                    0 <= cy <= r,
            ;
            assert(r * r <= 0x0A00_0000_0000_0000) by (nonlinear_arith)
                requires
                    0 <= r <= 0x3000_0002,
            ;
        }
        if cx * cx + cy * cy <= r * r {
            return Some(0);
        }
    }
    None
}

/// Draws the unread badge (white digits on a black rounded box) onto the
/// bottom-right corner of a `width` x `height` RGBA icon, with font pixels
/// of `scale` image pixels, and returns the new pixel bytes.
#[verifier::spinoff_prover]
pub fn render_badge(width: u32, height: u32, base: &[u8], count: u32, scale: u32) -> (r: Vec<u8>)
    requires
        base@.len() == width as int * height as int * 4,
        width as int * height as int * 4 <= i32::MAX,
        width <= i32::MAX,
        height <= i32::MAX,
        1 <= scale <= height as int + 1,
    ensures
        r@.len() == base@.len(),
        forall|i: int|
            0 <= i < r@.len() ==> #[trigger] r@[i] == badged_byte(
                width as int,
                height as int,
                scale as int,
                badge_text(count),
                base@,
                i,
            ),
{
    let label = badge_label(count);
    let w = width as i64;
    let h = height as i64;
    let s = scale as i64;
    let n = base.len();
    let mut out: Vec<u8> = Vec::new();
    let mut i: usize = 0;
    while i < n
        invariant
            n == base@.len(),
            n == width as int * height as int * 4,
            w == width,
            h == height,
            s == scale,
            width <= i32::MAX,
            height <= i32::MAX,
            width as int * height as int * 4 <= i32::MAX,
            1 <= scale <= height as int + 1,
            i <= n,
            i % 4 == 0,
            out@.len() == i,
            label@ == badge_text(count),
            1 <= label@.len() <= 2,
            forall|j: int| 0 <= j < label@.len() ==> #[trigger] glyph_of(label@[j]) is Some,
            forall|j: int|
                0 <= j < i ==> #[trigger] out@[j] == badged_byte(
                    w as int,
                    h as int,
                    s as int,
                    label@,
                    base@,
                    j,
                ),
        decreases n - i,
    {
        let p = (i / 4) as i64;
        proof {
            assert(i + 4 <= n);
            assert(p < w * h) by (nonlinear_arith)
                requires
                    p == i / 4,
                    i + 4 <= n,
                    n == w * h * 4,
            ;
            assert(w > 0) by (nonlinear_arith)
                requires
                    0 <= p < w * h,
                    w >= 0,
                    h >= 0,
            ;
            assert(h <= 0x2000_0000) by (nonlinear_arith)
                requires
                    w > 0,
                    h >= 0,
                    w * h * 4 <= 0x7fff_ffff,
            ;
            assert(0 <= p % w < w && 0 <= p / w < h) by (nonlinear_arith)
                requires
                    0 <= p < w * h,
                    w > 0,
            ;
        }
        let x = p % w;
        let y = p / w;
        let paint = badge_paint_exec(w, h, s, &label, x, y);
        proof {
            assert(forall|c: int| 0 <= c < 4 ==> #[trigger] ((i + c) / 4) == p);
            assert(forall|c: int| 0 <= c < 4 ==> #[trigger] ((i + c) % 4) == c);
        }
        match paint {
            Some(v) => {
                out.push(v);
                out.push(v);
                out.push(v);
                out.push(255);
            },
            None => {
                out.push(base[i]);
                out.push(base[i + 1]);
                out.push(base[i + 2]);
                out.push(base[i + 3]);
            },
        }
        i = i + 4;
    }
    out
}

/// What drawing the badge can change: only pixels inside the badge box at the
/// bottom-right corner are touched, every touched byte is opaque black or
/// white (alpha 255), and all counts above 99 are drawn alike, as `9+`.
pub proof fn lemma_badge_bounds(
    w: int,
    h: int,
    s: int,
    count: u32,
    other: u32,
    base: Seq<u8>,
    i: int,
)
    requires
        w >= 1,
        s >= 1,
        0 <= i,
    ensures
        ({
            let label = badge_text(count);
            let p = i / 4;
            let (bx, by, bw, bh, rad) = badge_box(w, h, s, label.len() as int);
            let byte = badged_byte(w, h, s, label, base, i);
            &&& !(bx <= p % w < bx + bw && by <= p / w < by + bh) ==> byte == base[i]
            &&& badge_paint(w, h, s, label, p % w, p / w) is Some ==> (byte == 0 || byte == 255)
                && (i % 4 == 3 ==> byte == 255)
            &&& count > 99 && other > 99 ==> byte == badged_byte(
                w,
                h,
                s,
                badge_text(other),
                base,
                i,
            )
        }),
{
    let label = badge_text(count);
    let g = label.len() as int;
    if count <= 99 && count >= 10 {
        assert(decimal((count / 10) as nat).len() == 1);
    }
    assert(1 <= g <= 2);
    let p = i / 4;
    let x = p % w;
    let y = p / w;
    let (bx, by, bw, bh, rad) = badge_box(w, h, s, g);
    if on_text(w, h, s, label, x, y) {
        let gx = x - (bx + s);
        let gy = y - (by + s);
        let k = gx / (4 * s);
        let within = gx % (4 * s);
        assert(gx < g * 3 * s + (g - 1) * s) by (nonlinear_arith)
            requires
                gx >= 0,
                s >= 1,
                k == gx / (4 * s),
                within == gx % (4 * s),
                k < g,
                within < 3 * s,
        ;
        assert(5 * s + 2 * s == bh);
    }
}

/// The pixels of a 16x16 menu glyph: where row `y` has a `#` at character
/// `x`, a mid-grey opaque pixel; everywhere else transparent.
pub open spec fn glyph_byte(rows: Seq<Seq<char>>, i: int) -> u8 {
    let p = i / 4;
    let x = p % 16;
    let y = p / 16;
    let c = i % 4;
    if x < rows[y].len() && rows[y][x] == '#' {
        if c == 3 {
            255
        } else {
            0x8a
        }
    } else {
        0
    }
}

/// Turns a 16x16 glyph (one `char` per pixel, `#` = opaque) into RGBA bytes,
/// painted a mid-grey that reads on light and dark menus.
pub fn menu_icon(glyph: &[&str]) -> (r: Vec<u8>)
    requires
        glyph@.len() == 16,
    ensures
        r@.len() == 1024,
        forall|i: int|
            0 <= i < 1024 ==> #[trigger] r@[i] == glyph_byte(
                glyph@.map_values(|s: &str| s@),
                i,
            ),
{
    let ghost rows = glyph@.map_values(|s: &str| s@);
    let mut out: Vec<u8> = Vec::new();
    let mut y: usize = 0;
    while y < 16
        invariant
            y <= 16,
            glyph@.len() == 16,
            rows == glyph@.map_values(|s: &str| s@),
            out@.len() == y * 64,
            forall|j: int| 0 <= j < out@.len() ==> #[trigger] out@[j] == glyph_byte(rows, j),
        decreases 16 - y,
    {
        let row = str_chars(glyph[y]);
        proof {
            assert(row@ == rows[y as int]);
        }
        let mut x: usize = 0;
        while x < 16
            invariant
                y < 16,
                x <= 16,
                row@ == rows[y as int],
                out@.len() == y * 64 + x * 4,
                forall|j: int| 0 <= j < out@.len() ==> #[trigger] out@[j] == glyph_byte(rows, j),
            decreases 16 - x,
        {
            let lit = x < row.len() && row[x] == '#';
            let base: usize = y * 64 + x * 4;
            proof {
                assert(forall|c: int|
                    0 <= c < 4 ==> #[trigger] ((base + c) / 4) == y * 16 + x && (base + c) % 4
                        == c);
                assert((y * 16 + x) % 16 == x && (y * 16 + x) / 16 == y);
            }
            if lit {
                out.push(0x8a);
                out.push(0x8a);
                out.push(0x8a);
                out.push(0xff);
            } else {
                out.push(0);
                out.push(0);
                out.push(0);
                out.push(0);
            }
            x = x + 1;
        }
        y = y + 1;
    }
    out
}

} // verus!
