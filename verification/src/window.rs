//! Rules behind the account windows: their labels and storage identities, the
//! navigation allow-list, download file naming, the page scripts each window
//! gets, and the bookkeeping of switching the visible account.

use vstd::prelude::*;

use crate::accounts::{has_id, Account, AccountId, Accounts, PRIMARY_ACCOUNT_ID};
use crate::config::Config;
use crate::lock::{effective_auto_lock_minutes, effective_minutes};
use crate::text::{
    chars_end_with, chars_eq_str, chars_start_with, decimal, digit_char, ends_with, last_dot,
    parse_u32, parse_u32_chars, push_decimal, slice_chars, starts_with, str_chars,
    string_from_chars, trim, trim_str,
};

verus! {

/// Historical label of Account 1. Keeping it unchanged is part of the
/// migration contract: the pre-multi-account window and its WebKit profile
/// stay intact.
pub const MAIN_LABEL: &'static str = "main";

/// `account-`, the label prefix of every account but the legacy one.
pub open spec fn label_prefix() -> Seq<char> {
    seq!['a', 'c', 'c', 'o', 'u', 'n', 't', '-']
}

/// The window label of account `id`.
pub open spec fn label_of(id: u32) -> Seq<char> {
    if id == PRIMARY_ACCOUNT_ID {
        seq!['m', 'a', 'i', 'n']
    } else {
        label_prefix() + decimal(id as nat)
    }
}

/// Stable window label for an account. Account 1 keeps `main`; newer accounts
/// use `account-N`.
pub fn account_label(id: AccountId) -> (r: String)
    ensures
        r@ == label_of(id),
{
    let mut cs: Vec<char> = Vec::new();
    if id == PRIMARY_ACCOUNT_ID {
        cs.push('m');
        cs.push('a');
        cs.push('i');
        cs.push('n');
    } else {
        push_label_prefix(&mut cs);
        push_decimal(&mut cs, id);
    }
    proof {
        assert(cs@ =~= label_of(id));
    }
    string_from_chars(cs.as_slice())
}

fn push_label_prefix(cs: &mut Vec<char>)
    ensures
        final(cs)@ == old(cs)@ + label_prefix(),
{
    cs.push('a');
    cs.push('c');
    cs.push('c');
    cs.push('o');
    cs.push('u');
    cs.push('n');
    cs.push('t');
    cs.push('-');
    proof {
        assert(final(cs)@ =~= old(cs)@ + label_prefix());
    }
}

/// The account a window label belongs to: `main` is account 1, `account-N`
/// is account N for a `u32` N other than 0 and 1; anything else is no account.
pub open spec fn label_account(label: Seq<char>) -> Option<u32> {
    if label == seq!['m', 'a', 'i', 'n'] {
        Some(PRIMARY_ACCOUNT_ID)
    } else if starts_with(label, label_prefix()) {
        match parse_u32(label.skip(8)) {
            Some(id) => if id != PRIMARY_ACCOUNT_ID && id != 0 {
                Some(id)
            } else {
                None
            },
            None => None,
        }
    } else {
        None
    }
}

/// Reverse mapping of [`account_label`], used to tell WhatsApp windows from
/// local windows.
pub fn account_id_from_label(label: &str) -> (r: Option<AccountId>)
    ensures
        r == label_account(label@),
{
    let cs = str_chars(label);
    let mut main: Vec<char> = Vec::new();
    main.push('m');
    main.push('a');
    main.push('i');
    main.push('n');
    if crate::text::chars_eq(cs.as_slice(), main.as_slice()) {
        proof {
            assert(main@ =~= seq!['m', 'a', 'i', 'n']);
        }
        return Some(PRIMARY_ACCOUNT_ID);
    }
    proof {
        assert(main@ =~= seq!['m', 'a', 'i', 'n']);
    }
    let mut prefix: Vec<char> = Vec::new();
    push_label_prefix(&mut prefix);
    proof {
        assert(prefix@ =~= label_prefix());
    }
    if !chars_start_with(cs.as_slice(), prefix.as_slice()) {
        return None;
    }
    let rest = slice_chars(cs.as_slice(), 8, cs.len());
    proof {
        assert(rest@ =~= label@.skip(8));
    }
    match parse_u32_chars(rest.as_slice()) {
        Some(id) => if id != PRIMARY_ACCOUNT_ID && id != 0 {
            Some(id)
        } else {
            None
        },
        None => None,
    }
}

/// Labels and accounts correspond one to one: the label of a non-zero id
/// reads back as that id.
pub proof fn lemma_label_round_trip(id: u32)
    requires
        id != 0,
    ensures
        label_account(label_of(id)) == Some(id),
{
    let l = label_of(id);
    if id != PRIMARY_ACCOUNT_ID {
        crate::text::lemma_decimal_digits(id as nat);
        assert(l[0] == 'a');
        assert(l != seq!['m', 'a', 'i', 'n']);
        assert(l.subrange(0, 8) =~= label_prefix());
        assert(l.skip(8) =~= decimal(id as nat));
        lemma_parse_decimal(id);
    }
}

/// Parsing the decimal rendering of a `u32` gives the number back.
pub proof fn lemma_parse_decimal(n: u32)
    ensures
        parse_u32(decimal(n as nat)) == Some(n),
{
    crate::text::lemma_decimal_digits(n as nat);
    lemma_digits_value_decimal(n as nat);
}

proof fn lemma_digits_value_decimal(n: nat)
    ensures
        crate::text::digits_value(decimal(n)) == n,
    decreases n,
{
    let d = n % 10;
    assert(crate::text::digits_value(decimal(n)) == crate::text::digits_value(
        decimal(n).drop_last(),
    ) * 10 + crate::text::digit_value(decimal(n).last()));
    assert(digit_char(d) as int == d + 48);
    assert(crate::text::digit_value(digit_char(d)) == d);
    if n >= 10 {
        lemma_digits_value_decimal(n / 10);
        assert(decimal(n).drop_last() == decimal(n / 10));
        assert(decimal(n).last() == digit_char(d));
    } else {
        assert(decimal(n).drop_last() =~= Seq::<char>::empty());
        assert(crate::text::digits_value(Seq::<char>::empty()) == 0);
        assert(decimal(n).last() == digit_char(n));
    }
}

/// Stable 16-byte data-store identifier of an account: the twelve bytes of
/// `ZeroWhatsAcc` followed by the id in big-endian order.
pub open spec fn data_store_identifier(id: u32) -> Seq<u8> {
    seq![
        0x5Au8, 0x65u8, 0x72u8, 0x6Fu8, 0x57u8, 0x68u8, 0x61u8, 0x74u8, 0x73u8, 0x41u8, 0x63u8, 0x63u8,
        (id >> 24) as u8, (id >> 16) as u8, (id >> 8) as u8, id as u8,
    ]
}

/// Stable 16-byte `WKWebsiteDataStore` identifier for an account.
pub fn account_data_store_identifier(id: AccountId) -> (r: [u8; 16])
    ensures
        r@ == data_store_identifier(id),
{
    let r: [u8; 16] = [
        0x5A,
        0x65,
        0x72,
        0x6F,
        0x57,
        0x68,
        0x61,
        0x74,
        0x73,
        0x41,
        0x63,
        0x63,
        (id >> 24) as u8,
        (id >> 16) as u8,
        (id >> 8) as u8,
        id as u8,
    ];
    proof {
        assert(r@ =~= data_store_identifier(id));
    }
    r
}

/// Different accounts never share a data store: the identifier is injective.
pub proof fn lemma_data_store_identifier_injective(a: u32, b: u32)
    requires
        data_store_identifier(a) == data_store_identifier(b),
    ensures
        a == b,
{
    assert(data_store_identifier(a)[12] == data_store_identifier(b)[12]);
    assert(data_store_identifier(a)[13] == data_store_identifier(b)[13]);
    assert(data_store_identifier(a)[14] == data_store_identifier(b)[14]);
    assert(data_store_identifier(a)[15] == data_store_identifier(b)[15]);
    assert(((a >> 24) as u8 == (b >> 24) as u8 && (a >> 16) as u8 == (b >> 16) as u8 && (a
        >> 8) as u8 == (b >> 8) as u8 && a as u8 == b as u8) ==> a == b) by (bit_vector);
}

/// The scheme and host that `url::Url::parse` finds in `input`, or `None`
/// when the crate cannot parse an absolute URL from it.
pub uninterp spec fn url_scheme_and_host(input: Seq<char>) -> Option<(Seq<char>, Option<Seq<char>>)>;

/// Parses `input` with `url::Url::parse` and returns the parsed URL's
/// `scheme()` and `host_str()`. Trusted to agree with
/// [`url_scheme_and_host`], which names that result; nothing more is claimed
/// about how the crate parses.
#[verifier::external_body]
fn url_parts(input: &str) -> (r: Option<(String, Option<String>)>)
    ensures
        match r {
            None => url_scheme_and_host(input@) is None,
            Some((scheme, host)) => url_scheme_and_host(input@) == Some(
                (
                    scheme@,
                    match host {
                        Some(h) => Some(h@),
                        None => None,
                    },
                ),
            ),
        },
{
    match url::Url::parse(input) {
        Ok(url) => Some((url.scheme().to_string(), url.host_str().map(|h| h.to_string()))),
        Err(_) => None,
    }
}

/// Hosts that may load inside an account window.
pub open spec fn whatsapp_host(host: Seq<char>) -> bool {
    host == "web.whatsapp.com"@ || ends_with(host, ".whatsapp.com"@) || ends_with(
        host,
        ".whatsapp.net"@,
    )
}

/// Whether a URL with this scheme and host belongs to WhatsApp: `about:`,
/// `blob:` and `data:` URLs, and WhatsApp hosts.
pub open spec fn whatsapp_target(scheme: Seq<char>, host: Option<Seq<char>>) -> bool {
    scheme == "about"@ || scheme == "blob"@ || scheme == "data"@ || (match host {
        Some(h) => whatsapp_host(h),
        None => false,
    })
}

/// Whether `url` parses and belongs to WhatsApp.
pub open spec fn whatsapp_url(url: Seq<char>) -> bool {
    match url_scheme_and_host(url) {
        Some((scheme, host)) => whatsapp_target(scheme, host),
        None => false,
    }
}

/// The scheme and host decision of [`is_whatsapp_url`].
pub fn is_whatsapp_target(scheme: &str, host: Option<&str>) -> (r: bool)
    ensures
        r == whatsapp_target(
            scheme@,
            match host {
                Some(h) => Some(h@),
                None => None,
            },
        ),
{
    let s = str_chars(scheme);
    if chars_eq_str(s.as_slice(), "about") || chars_eq_str(s.as_slice(), "blob")
        || chars_eq_str(s.as_slice(), "data") {
        return true;
    }
    match host {
        Some(h) => {
            let hc = str_chars(h);
            let a = str_chars(".whatsapp.com");
            let b = str_chars(".whatsapp.net");
            chars_eq_str(hc.as_slice(), "web.whatsapp.com") || chars_end_with(
                hc.as_slice(),
                a.as_slice(),
            ) || chars_end_with(hc.as_slice(), b.as_slice())
        },
        None => false,
    }
}

/// Navigation allow-list (security): only WhatsApp may load inside an account
/// window.
pub fn is_whatsapp_url(url: &str) -> (r: bool)
    ensures
        r == whatsapp_url(url@),
{
    match url_parts(url) {
        Some((scheme, host)) => match host {
            Some(h) => is_whatsapp_target(scheme.as_str(), Some(h.as_str())),
            None => is_whatsapp_target(scheme.as_str(), None),
        },
        None => false,
    }
}

/// What an account window does with a navigation request.
#[derive(Debug, Clone, Copy, PartialEq, Eq, Structural)]
pub enum NavigationAction {
    /// Load it in the window.
    Allow,
    /// Refuse it in the window and open it in the user's browser.
    OpenExternal,
    /// Refuse it.
    Block,
}

/// Whether the scheme is `http` or `https`.
pub open spec fn web_scheme(scheme: Seq<char>) -> bool {
    scheme == "http"@ || scheme == "https"@
}

/// What a window does with a URL of this scheme and host: WhatsApp loads in
/// place, any other http(s) destination goes to the user's browser, and
/// everything else is refused.
pub open spec fn navigation(scheme: Seq<char>, host: Option<Seq<char>>) -> NavigationAction {
    if whatsapp_target(scheme, host) {
        NavigationAction::Allow
    } else if web_scheme(scheme) {
        NavigationAction::OpenExternal
    } else {
        NavigationAction::Block
    }
}

/// The scheme and host decision of [`navigation_action`].
pub fn navigation_for(scheme: &str, host: Option<&str>) -> (r: NavigationAction)
    ensures
        r == navigation(
            scheme@,
            match host {
                Some(h) => Some(h@),
                None => None,
            },
        ),
{
    if is_whatsapp_target(scheme, host) {
        return NavigationAction::Allow;
    }
    let s = str_chars(scheme);
    if chars_eq_str(s.as_slice(), "http") || chars_eq_str(s.as_slice(), "https") {
        NavigationAction::OpenExternal
    } else {
        NavigationAction::Block
    }
}

/// The action for a navigation request; a URL that does not parse is refused.
pub fn navigation_action(url: &str) -> (r: NavigationAction)
    ensures
        r == match url_scheme_and_host(url@) {
            Some((scheme, host)) => navigation(scheme, host),
            None => NavigationAction::Block,
        },
{
    match url_parts(url) {
        Some((scheme, host)) => match host {
            Some(h) => navigation_for(scheme.as_str(), Some(h.as_str())),
            None => navigation_for(scheme.as_str(), None),
        },
        None => NavigationAction::Block,
    }
}

/// Whether a scheme may be handed to the user's default handler: `http`,
/// `https` or `mailto`.
pub open spec fn external_scheme(scheme: Seq<char>) -> bool {
    web_scheme(scheme) || scheme == "mailto"@
}

/// The scheme decision of [`external_url_allowed`].
pub fn external_scheme_allowed(scheme: &str) -> (r: bool)
    ensures
        r == external_scheme(scheme@),
{
    let s = str_chars(scheme);
    chars_eq_str(s.as_slice(), "http") || chars_eq_str(s.as_slice(), "https") || chars_eq_str(
        s.as_slice(),
        "mailto",
    )
}

/// Whether a URL may be handed to the user's default handler: it must parse
/// and use the `http`, `https` or `mailto` scheme, so local files and other
/// protocol handlers cannot be reached.
pub fn external_url_allowed(url: &str) -> (r: bool)
    ensures
        r == (url_scheme_and_host(url@) matches Some((scheme, _)) && external_scheme(scheme)),
{
    match url_parts(url) {
        Some((scheme, _)) => external_scheme_allowed(scheme.as_str()),
        None => false,
    }
}

/// The configured download folder, unless it is missing or blank.
pub fn configured_download_dir(download_path: &Option<String>) -> (r: Option<String>)
    ensures
        match download_path {
            Some(p) => if trim(p@).len() > 0 {
                r == Some(*p)
            } else {
                r is None
            },
            None => r is None,
        },
{
    match download_path {
        Some(p) => {
            let t = trim_str(p.as_str());
            if t.as_str().is_empty() {
                None
            } else {
                Some(p.clone())
            }
        },
        None => None,
    }
}

/// `download`, the name used when nothing better is known.
pub open spec fn fallback_download_name() -> Seq<char> {
    seq!['d', 'o', 'w', 'n', 'l', 'o', 'a', 'd']
}

fn fallback_name() -> (r: String)
    ensures
        r@ == fallback_download_name(),
{
    let cs: Vec<char> = vec!['d', 'o', 'w', 'n', 'l', 'o', 'a', 'd'];
    proof {
        assert(cs@ =~= fallback_download_name());
    }
    string_from_chars(cs.as_slice())
}

/// The file name for a WebView download: the suggested file name when it is
/// not empty, else the last segment of the URL's path when that is not empty,
/// else `download`.
pub fn download_name(suggested: Option<&str>, url_last_segment: Option<&str>) -> (r: String)
    ensures
        r@ == (if suggested matches Some(s) && s@.len() > 0 {
            suggested->0@
        } else if url_last_segment matches Some(u) && u@.len() > 0 {
            url_last_segment->0@
        } else {
            fallback_download_name()
        }),
{
    if let Some(s) = suggested {
        if !s.is_empty() {
            return String::from_str(s);
        }
    }
    if let Some(u) = url_last_segment {
        if !u.is_empty() {
            return String::from_str(u);
        }
    }
    fallback_name()
}

/// The name a download is saved under: `name`, or `download` when `name` is
/// blank.
pub fn effective_download_name(name: &str) -> (r: String)
    ensures
        r@ == (if trim(name@).len() == 0 {
            fallback_download_name()
        } else {
            name@
        }),
{
    let t = trim_str(name);
    if t.as_str().is_empty() {
        fallback_name()
    } else {
        String::from_str(name)
    }
}

/// A file name split into stem and extension, as `Path::file_stem` and
/// `Path::extension` split it: at the last `.`, unless that is the first
/// character (a dot file) or the name is `..`.
pub open spec fn stem_and_extension(name: Seq<char>) -> (Seq<char>, Option<Seq<char>>) {
    let d = last_dot(name);
    if d <= 0 || name == seq!['.', '.'] {
        (name, None)
    } else {
        (name.take(d), Some(name.skip(d + 1)))
    }
}

/// `<stem> (<i>)<.ext>`: the `i`-th alternative name for a file name already
/// taken.
pub open spec fn numbered_name(name: Seq<char>, i: u32) -> Seq<char> {
    let (stem, ext) = stem_and_extension(name);
    stem + seq![' ', '('] + decimal(i as nat) + seq![')'] + match ext {
        Some(e) => seq!['.'] + e,
        None => Seq::<char>::empty(),
    }
}

/// The `i`-th alternative for a file name that is already taken, e.g.
/// `file (1).txt` for `file.txt`.
pub fn numbered_file_name(name: &str, i: u32) -> (r: String)
    ensures
        r@ == numbered_name(name@, i),
{
    let cs = str_chars(name);
    let mut d: usize = cs.len();
    let mut found = false;
    proof {
        assert(cs@.take(cs@.len() as int) =~= cs@);
    }
    while d > 0 && !found
        invariant
            d <= cs@.len(),
            cs@ == name@,
            found ==> d < cs@.len() && cs@[d as int] == '.' && last_dot(cs@) == d,
            !found ==> last_dot(cs@) == last_dot(cs@.take(d as int)),
        decreases d + (if found {
            0int
        } else {
            1
        }),
    {
        proof {
            assert(cs@.take(d as int).drop_last() =~= cs@.take(d - 1));
        }
        if cs[d - 1] == '.' {
            d = d - 1;
            found = true;
        } else {
            d = d - 1;
        }
    }
    proof {
        if !found {
            assert(cs@.take(0) =~= Seq::<char>::empty());
        }
    }
    let mut dotdot: Vec<char> = Vec::new();
    dotdot.push('.');
    dotdot.push('.');
    let is_dotdot = crate::text::chars_eq(cs.as_slice(), dotdot.as_slice());
    proof {
        assert(dotdot@ =~= seq!['.', '.']);
    }
    let mut out: Vec<char> = Vec::new();
    if !found || d == 0 || is_dotdot {
        let all = slice_chars(cs.as_slice(), 0, cs.len());
        out = all;
        proof {
            assert(out@ =~= name@);
        }
    } else {
        out = slice_chars(cs.as_slice(), 0, d);
    }
    out.push(' ');
    out.push('(');
    push_decimal(&mut out, i);
    out.push(')');
    if found && d > 0 && !is_dotdot {
        out.push('.');
        let ext = slice_chars(cs.as_slice(), d + 1, cs.len());
        let mut k: usize = 0;
        let ghost before = out@;
        while k < ext.len()
            invariant
                k <= ext@.len(),
                out@ == before + ext@.take(k as int),
            decreases ext@.len() - k,
        {
            out.push(ext[k]);
            k = k + 1;
            proof {
                assert(out@ =~= before + ext@.take(k as int));
            }
        }
        proof {
            assert(ext@.take(k as int) =~= ext@);
            assert(out@ =~= numbered_name(name@, i));
        }
    } else {
        proof {
            assert(out@ =~= numbered_name(name@, i));
        }
    }
    string_from_chars(out.as_slice())
}

/// The mobile Chrome user agent of the lighter page.
pub const LIGHT_USER_AGENT: &'static str = "Mozilla/5.0 (Linux; Android 12; Pixel 5) AppleWebKit/537.36 (KHTML, like Gecko) Chrome/116.0.0.0 Mobile Safari/537.36";

/// The desktop Chrome user agent.
pub const CHROME_USER_AGENT: &'static str = "Mozilla/5.0 (Windows NT 10.0; Win64; x64) AppleWebKit/537.36 (KHTML, like Gecko) Chrome/138.0.0.0 Safari/537.36";

/// The desktop Safari user agent used by default.
pub const SAFARI_USER_AGENT: &'static str = "Mozilla/5.0 (Macintosh; Intel Mac OS X 10_15_7) AppleWebKit/605.1.15 (KHTML, like Gecko) Version/17.6 Safari/605.1.15";

/// The user agent of the account windows: the light one when asked for,
/// else desktop Chrome when asked for, else desktop Safari.
pub fn user_agent(light: bool, chrome: bool) -> (r: &'static str)
    ensures
        r == (if light {
            LIGHT_USER_AGENT
        } else if chrome {
            CHROME_USER_AGENT
        } else {
            SAFARI_USER_AGENT
        }),
{
    if light {
        LIGHT_USER_AGENT
    } else if chrome {
        CHROME_USER_AGENT
    } else {
        SAFARI_USER_AGENT
    }
}

/// The scripts an account page gets, in the order they are registered.
#[derive(Debug, Clone, Copy, PartialEq, Eq, Structural)]
pub enum PageScript {
    Bootstrap,
    RoundedCorners,
    BackgroundSync,
    Notifications,
    UnreadBadge,
    DisableMedia,
    Mpris,
    Download,
    AutoLock,
    PrivacyBlur,
    Links,
    Find,
    Fullscreen,
    Titlebar,
    ResizeHandles,
    ClipboardImage,
    Spellcheck,
    UpdateBanner,
}

/// The page scripts, in registration order: the bootstrap and rounded corners
/// first; then background sync, notifications and the unread badge, or in
/// minimal mode the media blocker instead; then the scripts every account page
/// gets.
pub open spec fn page_scripts(minimal: bool) -> Seq<PageScript> {
    seq![PageScript::Bootstrap, PageScript::RoundedCorners] + (if minimal {
        seq![PageScript::DisableMedia]
    } else {
        seq![PageScript::BackgroundSync, PageScript::Notifications, PageScript::UnreadBadge]
    }) + seq![
        PageScript::Mpris,
        PageScript::Download,
        PageScript::AutoLock,
        PageScript::PrivacyBlur,
        PageScript::Links,
        PageScript::Find,
        PageScript::Fullscreen,
        PageScript::Titlebar,
        PageScript::ResizeHandles,
        PageScript::ClipboardImage,
        PageScript::Spellcheck,
        PageScript::UpdateBanner,
    ]
}

/// The registration order of the page scripts: the bootstrap first and the
/// rounded corners second; background sync, notifications and the unread
/// badge only outside minimal mode, where the media blocker takes their
/// place; then media keys, downloads, auto-lock, privacy blur, links, find,
/// fullscreen, title bar, resize handles, clipboard images, spell-check and
/// the update banner, in that order.
pub proof fn lemma_page_script_order(minimal: bool)
    ensures
        !minimal ==> page_scripts(minimal) == seq![
            PageScript::Bootstrap,
            PageScript::RoundedCorners,
            PageScript::BackgroundSync,
            PageScript::Notifications,
            PageScript::UnreadBadge,
            PageScript::Mpris,
            PageScript::Download,
            PageScript::AutoLock,
            PageScript::PrivacyBlur,
            PageScript::Links,
            PageScript::Find,
            PageScript::Fullscreen,
            PageScript::Titlebar,
            PageScript::ResizeHandles,
            PageScript::ClipboardImage,
            PageScript::Spellcheck,
            PageScript::UpdateBanner,
        ],
        minimal ==> page_scripts(minimal) == seq![
            PageScript::Bootstrap,
            PageScript::RoundedCorners,
            PageScript::DisableMedia,
            PageScript::Mpris,
            PageScript::Download,
            PageScript::AutoLock,
            PageScript::PrivacyBlur,
            PageScript::Links,
            PageScript::Find,
            PageScript::Fullscreen,
            PageScript::Titlebar,
            PageScript::ResizeHandles,
            PageScript::ClipboardImage,
            PageScript::Spellcheck,
            PageScript::UpdateBanner,
        ],
{
    assert(page_scripts(minimal) =~= if minimal {
        seq![
            PageScript::Bootstrap,
            PageScript::RoundedCorners,
            PageScript::DisableMedia,
            PageScript::Mpris,
            PageScript::Download,
            PageScript::AutoLock,
            PageScript::PrivacyBlur,
            PageScript::Links,
            PageScript::Find,
            PageScript::Fullscreen,
            PageScript::Titlebar,
            PageScript::ResizeHandles,
            PageScript::ClipboardImage,
            PageScript::Spellcheck,
            PageScript::UpdateBanner,
        ]
    } else {
        seq![
            PageScript::Bootstrap,
            PageScript::RoundedCorners,
            PageScript::BackgroundSync,
            PageScript::Notifications,
            PageScript::UnreadBadge,
            PageScript::Mpris,
            PageScript::Download,
            PageScript::AutoLock,
            PageScript::PrivacyBlur,
            PageScript::Links,
            PageScript::Find,
            PageScript::Fullscreen,
            PageScript::Titlebar,
            PageScript::ResizeHandles,
            PageScript::ClipboardImage,
            PageScript::Spellcheck,
            PageScript::UpdateBanner,
        ]
    });
}

pub fn account_page_scripts(minimal: bool) -> (r: Vec<PageScript>)
    ensures
        r@ == page_scripts(minimal),
{
    let mut v: Vec<PageScript> = Vec::new();
    v.push(PageScript::Bootstrap);
    v.push(PageScript::RoundedCorners);
    if !minimal {
        v.push(PageScript::BackgroundSync);
        v.push(PageScript::Notifications);
        v.push(PageScript::UnreadBadge);
    }
    if minimal {
        v.push(PageScript::DisableMedia);
    }
    v.push(PageScript::Mpris);
    v.push(PageScript::Download);
    v.push(PageScript::AutoLock);
    v.push(PageScript::PrivacyBlur);
    v.push(PageScript::Links);
    v.push(PageScript::Find);
    v.push(PageScript::Fullscreen);
    v.push(PageScript::Titlebar);
    v.push(PageScript::ResizeHandles);
    v.push(PageScript::ClipboardImage);
    v.push(PageScript::Spellcheck);
    v.push(PageScript::UpdateBanner);
    proof {
        assert(v@ =~= page_scripts(minimal));
    }
    v
}

/// How one account window is built.
pub struct AccountWindowPlan {
    pub label: String,
    /// Only the active account, and only when showing is forced, starts visible.
    pub visible: bool,
    /// Every account but the legacy one gets its own browser data store.
    pub isolated_storage: bool,
    /// The page starts locked when a password is set.
    pub start_locked: bool,
    pub auto_lock_minutes: u32,
    pub is_active: bool,
    pub scripts: Vec<PageScript>,
}

/// The window plan for `account` under `cfg`.
pub fn account_window_plan(cfg: &Config, account: &Account, minimal: bool, force_show: bool) -> (r:
    AccountWindowPlan)
    ensures
        r.label@ == label_of(account.id),
        r.is_active == (cfg.accounts.active_id == account.id),
        r.visible == (force_show && cfg.accounts.active_id == account.id),
        r.isolated_storage == (account.id != PRIMARY_ACCOUNT_ID),
        r.start_locked == (cfg.password_hash is Some),
        r.auto_lock_minutes == effective_minutes(*cfg),
        r.scripts@ == page_scripts(minimal),
{
    let is_active = cfg.accounts.active_id == account.id;
    AccountWindowPlan {
        label: account_label(account.id),
        visible: force_show && is_active,
        isolated_storage: !account.uses_legacy_storage(),
        start_locked: cfg.password_hash.is_some(),
        auto_lock_minutes: effective_auto_lock_minutes(cfg),
        is_active,
        scripts: account_page_scripts(minimal),
    }
}

/// Whether an account page is blurred: it lost focus and the setting is on.
pub fn unfocus_blur(cfg: &Config, focused: bool) -> (r: bool)
    ensures
        r == (!focused && cfg.hide_content_on_unfocus),
{
    !focused && cfg.hide_content_on_unfocus
}

/// What revealing an account comes down to.
#[derive(Debug, Clone, Copy, PartialEq, Eq, Structural)]
pub enum RevealPlan {
    /// The app is locked: the lock screen is shown instead.
    ShowLockScreen,
    /// No such account.
    UnknownAccount,
    /// The account is now active. When `previous` differs from it, the
    /// previous window's geometry is carried over.
    Reveal { previous: AccountId },
}

/// Marks `id` active for revealing it, unless the app is locked or the
/// account does not exist, in which case nothing changes.
pub fn plan_reveal(locked: bool, accounts: &mut Accounts, id: AccountId) -> (r: RevealPlan)
    ensures
        locked ==> r == RevealPlan::ShowLockScreen && *final(accounts) == *old(accounts),
        !locked && !has_id(old(accounts).entries(), id) ==> r == RevealPlan::UnknownAccount
            && *final(accounts) == *old(accounts),
        !locked && has_id(old(accounts).entries(), id) ==> r == (RevealPlan::Reveal {
            previous: old(accounts).active_id,
        }) && final(accounts).items == old(accounts).items && final(accounts).active_id == id
            && final(accounts).next_id == old(accounts).next_id,
{
    if locked {
        return RevealPlan::ShowLockScreen;
    }
    let previous = accounts.active_id;
    match accounts.set_active(id) {
        Ok(()) => RevealPlan::Reveal { previous },
        Err(_) => RevealPlan::UnknownAccount,
    }
}

} // verus!
