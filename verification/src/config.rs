//! Persisted app settings: the [`Config`] record, its frontend-facing views
//! ([`ConfigView`]/[`ConfigPatch`]), and the `Theme` / `NotificationPrivacy`
//! enums. Reading and writing `config.json` happens around this module; what
//! is decided about a loaded config is decided here.

use vstd::prelude::*;

use crate::accounts::{normalized, Accounts};

verus! {

#[derive(Debug, Clone, Copy, Default, PartialEq, Eq, Structural)]
pub enum Theme {
    #[default]
    System,
    Light,
    Dark,
}

impl Theme {
    /// The value WhatsApp Web persists in localStorage["theme"].
    pub fn wa_value(self) -> (r: &'static str)
        ensures
            self == Theme::System ==> r@ == "system"@,
            self == Theme::Light ==> r@ == "light"@,
            self == Theme::Dark ==> r@ == "dark"@,
    {
        match self {
            Theme::System => "system",
            Theme::Light => "light",
            Theme::Dark => "dark",
        }
    }
}

/// How much of a notification's content is shown natively.
#[derive(Debug, Clone, Copy, Default, PartialEq, Eq, Structural)]
pub enum NotificationPrivacy {
    /// Show the real sender and message (the historical behaviour).
    #[default]
    Full,
    /// Show the sender with a neutral "New message" preview.
    Generic,
    /// Suppress the notification entirely (equivalent to the old "mute").
    Hidden,
}

impl NotificationPrivacy {
    pub fn is_hidden(self) -> (r: bool)
        ensures
            r == (self == NotificationPrivacy::Hidden),
    {
        match self {
            NotificationPrivacy::Hidden => true,
            _ => false,
        }
    }

    /// Whether the message preview (and, with it, the sender's avatar) may be
    /// shown. Only `Full` reveals who wrote and what they said.
    pub fn shows_preview(self) -> (r: bool)
        ensures
            r == (self == NotificationPrivacy::Full),
    {
        match self {
            NotificationPrivacy::Full => true,
            _ => false,
        }
    }

    /// Applies the privacy level to a notification's `(title, body)`. `None`
    /// means the notification should be suppressed entirely.
    pub fn apply(self, title: Option<String>, body: Option<String>) -> (r: Option<
        (Option<String>, Option<String>),
    >)
        ensures
            self == NotificationPrivacy::Hidden ==> r is None,
            self == NotificationPrivacy::Generic ==> (r matches Some((t, Some(b))) && t == title
                && b@ == "New message"@),
            self == NotificationPrivacy::Full ==> r == Some((title, body)),
    {
        match self {
            NotificationPrivacy::Hidden => None,
            NotificationPrivacy::Generic => Some((title, Some(String::from_str("New message")))),
            NotificationPrivacy::Full => Some((title, body)),
        }
    }

    /// The level after the tray "Mute" toggle: it flips between fully
    /// suppressing notifications (`Hidden`) and showing them in full (`Full`);
    /// `Generic` counts as not muted.
    pub fn after_mute_toggle(self) -> (r: NotificationPrivacy)
        ensures
            r == toggled(self),
    {
        if self.is_hidden() {
            NotificationPrivacy::Full
        } else {
            NotificationPrivacy::Hidden
        }
    }
}

/// The level after the tray "Mute" toggle: `Hidden` becomes `Full`, anything
/// else becomes `Hidden`.
pub open spec fn toggled(p: NotificationPrivacy) -> NotificationPrivacy {
    if p == NotificationPrivacy::Hidden {
        NotificationPrivacy::Full
    } else {
        NotificationPrivacy::Hidden
    }
}

/// The tray toggle undoes itself on the two levels it moves between:
/// toggling `Full` or `Hidden` twice gives the level back.
pub proof fn lemma_mute_toggle_round_trip(p: NotificationPrivacy)
    requires
        p != NotificationPrivacy::Generic,
    ensures
        toggled(toggled(p)) == p,
{
}

/// The persisted settings.
#[derive(Debug, Clone)]
pub struct Config {
    pub theme: Theme,
    /// "en" / "pt-br", or None to follow the system locale.
    pub locale: Option<String>,
    /// Internal WhatsApp-account metadata. It deliberately stays out of
    /// `ConfigView` / `ConfigPatch`: account-specific operations own it.
    pub accounts: Accounts,
    pub proxy_enabled: bool,
    pub proxy_url: String,
    pub auto_download: bool,
    pub download_path: Option<String>,
    /// How much of a notification's content is shown natively.
    pub notification_privacy: NotificationPrivacy,
    /// Blur the WhatsApp page whenever the window loses focus.
    pub hide_content_on_unfocus: bool,
    pub cache_enabled: bool,
    pub password_hash: Option<String>,
    pub auto_start: bool,
    pub hardware_acceleration: bool,
    /// When a password is set, lock whenever the window is closed.
    pub lock_on_close: bool,
    /// Auto-lock after this many minutes of inactivity. `None`/0 disables it;
    /// only effective when a password is set.
    pub auto_lock_minutes: Option<u32>,
    /// Spell-check the message composer.
    pub spellcheck_enabled: bool,
    /// Dictionary codes to spell-check against, e.g. ["en_US","pt_BR"].
    pub spellcheck_languages: Vec<String>,
}

impl Default for Config {
    fn default() -> (r: Config)
        ensures
            r.theme == Theme::System,
            r.locale is None,
            r.accounts.entries() == Accounts::default_entries(),
            r.accounts.active_id == 1,
            r.accounts.next_id == 2,
            !r.proxy_enabled,
            r.proxy_url@.len() == 0,
            r.auto_download,
            r.download_path is None,
            r.notification_privacy == NotificationPrivacy::Full,
            !r.hide_content_on_unfocus,
            r.cache_enabled,
            r.password_hash is None,
            !r.auto_start,
            r.hardware_acceleration,
            !r.lock_on_close,
            r.auto_lock_minutes is None,
            r.spellcheck_enabled,
            r.spellcheck_languages@.len() == 0,
    {
        Config {
            theme: Theme::System,
            locale: None,
            accounts: Accounts::default(),
            proxy_enabled: false,
            proxy_url: String::new(),
            auto_download: true,
            download_path: None,
            notification_privacy: NotificationPrivacy::Full,
            hide_content_on_unfocus: false,
            cache_enabled: true,
            password_hash: None,
            auto_start: false,
            hardware_acceleration: true,
            lock_on_close: false,
            auto_lock_minutes: None,
            spellcheck_enabled: true,
            spellcheck_languages: Vec::new(),
        }
    }
}

impl Config {
    /// Completes a config read from disk: a legacy `mute_notifications: true`
    /// becomes `Hidden` privacy (overriding any explicit level), and the
    /// account metadata is repaired with [`Accounts::normalize`]. Every other
    /// field is kept.
    pub fn finish_load(&mut self, legacy_mute: Option<bool>)
        ensures
            final(self).notification_privacy == (if legacy_mute == Some(true) {
                NotificationPrivacy::Hidden
            } else {
                old(self).notification_privacy
            }),
            (
                final(self).accounts.entries(),
                final(self).accounts.active_id,
                final(self).accounts.next_id,
            ) == normalized(
                old(self).accounts.entries(),
                old(self).accounts.active_id,
                old(self).accounts.next_id,
            ),
            final(self).accounts.wf(),
            final(self).theme == old(self).theme,
            final(self).locale == old(self).locale,
            final(self).proxy_enabled == old(self).proxy_enabled,
            final(self).proxy_url == old(self).proxy_url,
            final(self).auto_download == old(self).auto_download,
            final(self).download_path == old(self).download_path,
            final(self).hide_content_on_unfocus == old(self).hide_content_on_unfocus,
            final(self).cache_enabled == old(self).cache_enabled,
            final(self).password_hash == old(self).password_hash,
            final(self).auto_start == old(self).auto_start,
            final(self).hardware_acceleration == old(self).hardware_acceleration,
            final(self).lock_on_close == old(self).lock_on_close,
            final(self).auto_lock_minutes == old(self).auto_lock_minutes,
            final(self).spellcheck_enabled == old(self).spellcheck_enabled,
            final(self).spellcheck_languages == old(self).spellcheck_languages,
    {
        if legacy_mute == Some(true) {
            self.notification_privacy = NotificationPrivacy::Hidden;
        }
        self.accounts.normalize();
    }
}

/// The config as exposed to the frontend (Settings/Lock screens). Hides the
/// password hash and internal account metadata, surfacing only whether a
/// password is set.
pub struct ConfigView {
    pub theme: Theme,
    pub locale: Option<String>,
    pub proxy_enabled: bool,
    pub proxy_url: String,
    pub auto_download: bool,
    pub download_path: Option<String>,
    pub notification_privacy: NotificationPrivacy,
    pub hide_content_on_unfocus: bool,
    pub cache_enabled: bool,
    pub auto_start: bool,
    pub hardware_acceleration: bool,
    pub lock_on_close: bool,
    pub auto_lock_minutes: Option<u32>,
    pub spellcheck_enabled: bool,
    pub spellcheck_languages: Vec<String>,
    pub has_password: bool,
}

impl From<Config> for ConfigView {
    fn from(c: Config) -> (r: ConfigView) {
        let has_password = c.password_hash.is_some();
        ConfigView {
            theme: c.theme,
            locale: c.locale,
            proxy_enabled: c.proxy_enabled,
            proxy_url: c.proxy_url,
            auto_download: c.auto_download,
            download_path: c.download_path,
            notification_privacy: c.notification_privacy,
            hide_content_on_unfocus: c.hide_content_on_unfocus,
            cache_enabled: c.cache_enabled,
            auto_start: c.auto_start,
            hardware_acceleration: c.hardware_acceleration,
            lock_on_close: c.lock_on_close,
            auto_lock_minutes: c.auto_lock_minutes,
            spellcheck_enabled: c.spellcheck_enabled,
            spellcheck_languages: c.spellcheck_languages,
            has_password,
        }
    }
}

impl vstd::std_specs::convert::FromSpecImpl<Config> for ConfigView {
    open spec fn obeys_from_spec() -> bool {
        true
    }

    open spec fn from_spec(c: Config) -> ConfigView {
        ConfigView {
            theme: c.theme,
            locale: c.locale,
            proxy_enabled: c.proxy_enabled,
            proxy_url: c.proxy_url,
            auto_download: c.auto_download,
            download_path: c.download_path,
            notification_privacy: c.notification_privacy,
            hide_content_on_unfocus: c.hide_content_on_unfocus,
            cache_enabled: c.cache_enabled,
            auto_start: c.auto_start,
            hardware_acceleration: c.hardware_acceleration,
            lock_on_close: c.lock_on_close,
            auto_lock_minutes: c.auto_lock_minutes,
            spellcheck_enabled: c.spellcheck_enabled,
            spellcheck_languages: c.spellcheck_languages,
            has_password: c.password_hash is Some,
        }
    }
}

/// The settings the frontend can change (everything in [`ConfigView`] except
/// the derived `has_password`). Password and account metadata are changed
/// through their own operations.
pub struct ConfigPatch {
    pub theme: Theme,
    pub locale: Option<String>,
    pub proxy_enabled: bool,
    pub proxy_url: String,
    pub auto_download: bool,
    pub download_path: Option<String>,
    pub notification_privacy: NotificationPrivacy,
    pub hide_content_on_unfocus: bool,
    pub cache_enabled: bool,
    pub auto_start: bool,
    pub hardware_acceleration: bool,
    pub lock_on_close: bool,
    pub auto_lock_minutes: Option<u32>,
    pub spellcheck_enabled: bool,
    pub spellcheck_languages: Vec<String>,
}

impl ConfigPatch {
    /// Applies the patch onto a loaded config, preserving the fields the
    /// frontend doesn't own (the password hash and account metadata).
    pub fn apply_to(self, cfg: &mut Config)
        ensures
            final(cfg).theme == self.theme,
            final(cfg).locale == self.locale,
            final(cfg).proxy_enabled == self.proxy_enabled,
            final(cfg).proxy_url == self.proxy_url,
            final(cfg).auto_download == self.auto_download,
            final(cfg).download_path == self.download_path,
            final(cfg).notification_privacy == self.notification_privacy,
            final(cfg).hide_content_on_unfocus == self.hide_content_on_unfocus,
            final(cfg).cache_enabled == self.cache_enabled,
            final(cfg).auto_start == self.auto_start,
            final(cfg).hardware_acceleration == self.hardware_acceleration,
            final(cfg).lock_on_close == self.lock_on_close,
            final(cfg).auto_lock_minutes == self.auto_lock_minutes,
            final(cfg).spellcheck_enabled == self.spellcheck_enabled,
            final(cfg).spellcheck_languages == self.spellcheck_languages,
            final(cfg).accounts == old(cfg).accounts,
            final(cfg).password_hash == old(cfg).password_hash,
    {
        cfg.theme = self.theme;
        cfg.locale = self.locale;
        cfg.proxy_enabled = self.proxy_enabled;
        cfg.proxy_url = self.proxy_url;
        cfg.auto_download = self.auto_download;
        cfg.download_path = self.download_path;
        cfg.notification_privacy = self.notification_privacy;
        cfg.hide_content_on_unfocus = self.hide_content_on_unfocus;
        cfg.cache_enabled = self.cache_enabled;
        cfg.auto_start = self.auto_start;
        cfg.hardware_acceleration = self.hardware_acceleration;
        cfg.lock_on_close = self.lock_on_close;
        cfg.auto_lock_minutes = self.auto_lock_minutes;
        cfg.spellcheck_enabled = self.spellcheck_enabled;
        cfg.spellcheck_languages = self.spellcheck_languages;
    }
}

} // verus!
