//! Decisions behind the events that the page scripts send and the process
//! environment set before any WebView starts.

use vstd::prelude::*;
use vstd::string::StringSliceAdditionalSpecFns;

use crate::codec::{base64_decode, base64_standard_decoded};
use crate::config::Config;
use crate::text::{
    chars_eq_str, lemma_split_char_no_sep, split_char, split_chars, str_chars, string_from_chars,
};

verus! {

/// A titlebar/menu action sent by a page.
#[derive(Debug, Clone, Copy, PartialEq, Eq, Structural)]
pub enum PageAction {
    Lock,
    Settings,
    Shortcuts,
    About,
    Update,
}

/// The action named by a page event; unknown names do nothing.
pub fn page_action(action: &str) -> (r: Option<PageAction>)
    ensures
        r == (if action@ == "lock"@ {
            Some(PageAction::Lock)
        } else if action@ == "settings"@ {
            Some(PageAction::Settings)
        } else if action@ == "shortcuts"@ {
            Some(PageAction::Shortcuts)
        } else if action@ == "about"@ {
            Some(PageAction::About)
        } else if action@ == "update"@ {
            Some(PageAction::Update)
        } else {
            None
        }),
{
    let cs = crate::text::str_chars(action);
    let c = cs.as_slice();
    if crate::text::chars_eq_str(c, "lock") {
        Some(PageAction::Lock)
    } else if crate::text::chars_eq_str(c, "settings") {
        Some(PageAction::Settings)
    } else if crate::text::chars_eq_str(c, "shortcuts") {
        Some(PageAction::Shortcuts)
    } else if crate::text::chars_eq_str(c, "about") {
        Some(PageAction::About)
    } else if crate::text::chars_eq_str(c, "update") {
        Some(PageAction::Update)
    } else {
        None
    }
}

/// Largest accepted base64 payload of a page download (about 256 MB decoded).
pub const MAX_DOWNLOAD_B64: usize = 341_333_334;

/// The bytes of a page-side blob download: refused above
/// [`MAX_DOWNLOAD_B64`] bytes of base64, otherwise decoded (a decoding error
/// refuses it too).
pub fn blob_download_bytes(data: &str) -> (r: Option<Vec<u8>>)
    ensures
        data.spec_bytes().len() > MAX_DOWNLOAD_B64 ==> r is None,
        data.spec_bytes().len() <= MAX_DOWNLOAD_B64 ==> match r {
            Some(v) => base64_standard_decoded(data.spec_bytes()) == Some(v@),
            None => base64_standard_decoded(data.spec_bytes()) is None,
        },
{
    let bytes = data.as_bytes();
    if bytes.len() > MAX_DOWNLOAD_B64 {
        return None;
    }
    base64_decode(bytes)
}

/// The last piece of `ps` that is neither empty nor `.`: the final component
/// of a `/`-separated path once repeated separators and `.` are dropped.
pub open spec fn last_normal(ps: Seq<Seq<char>>) -> Option<Seq<char>>
    decreases ps.len(),
{
    if ps.len() == 0 {
        None
    } else if ps.last().len() == 0 || ps.last() == seq!['.'] {
        last_normal(ps.drop_last())
    } else {
        Some(ps.last())
    }
}

/// The file name of a path, as `Path::file_name` gives it with `/` as the
/// separator: the final component, or none when the path is empty, is only
/// separators and `.`, or ends in `..`.
pub open spec fn path_file_name(name: Seq<char>) -> Option<Seq<char>> {
    match last_normal(split_char(name, '/')) {
        Some(p) => if p == seq!['.', '.'] {
            None
        } else {
            Some(p)
        },
        None => None,
    }
}

/// The name a page-side download is saved under: the file name of the name
/// the page sent, so no directory part survives, or `download` when it has
/// none.
pub open spec fn download_file(name: Seq<char>) -> Seq<char> {
    match path_file_name(name) {
        Some(p) => p,
        None => "download"@,
    }
}

proof fn lemma_last_normal_member(ps: Seq<Seq<char>>)
    ensures
        last_normal(ps) matches Some(p) ==> exists|i: int| 0 <= i < ps.len() && ps[i] == p,
    decreases ps.len(),
{
    if ps.len() > 0 {
        lemma_last_normal_member(ps.drop_last());
        if let Some(p) = last_normal(ps) {
            if ps.last().len() == 0 || ps.last() == seq!['.'] {
                let i = choose|i: int| 0 <= i < ps.drop_last().len() && ps.drop_last()[i] == p;
                assert(ps[i] == p);
            } else {
                assert(ps[ps.len() - 1] == p);
            }
        }
    }
}

/// The file name a page-side download is saved under (see [`download_file`]).
pub fn download_file_name(name: &str) -> (r: String)
    ensures
        r@ == download_file(name@),
        !r@.contains('/'),
{
    let cs = str_chars(name);
    let parts = split_chars(cs.as_slice(), '/');
    let ghost pv = parts@.map_values(|v: Vec<char>| v@);
    proof {
        reveal_strlit("download");
        lemma_split_char_no_sep(name@, '/');
        assert(pv.take(pv.len() as int) =~= pv);
    }
    let mut k: usize = parts.len();
    loop
        invariant
            k <= parts@.len(),
            pv == parts@.map_values(|v: Vec<char>| v@),
            pv == split_char(name@, '/'),
            last_normal(pv) == last_normal(pv.take(k as int)),
        ensures
            k == 0 || !(pv[k - 1].len() == 0 || pv[k - 1] == seq!['.']),
        decreases k,
    {
        if k == 0 {
            break;
        }
        let skip = parts[k - 1].len() == 0 || chars_eq_str(parts[k - 1].as_slice(), ".");
        proof {
            reveal_strlit(".");
            assert("."@ =~= seq!['.']);
            assert(pv[k - 1] == parts@[k - 1]@);
            assert(skip <==> (pv[k - 1].len() == 0 || pv[k - 1] =~= seq!['.']));
        }
        if !skip {
            break;
        }
        proof {
            assert(pv.take(k as int).drop_last() =~= pv.take(k - 1));
            assert(pv.take(k as int).last() == pv[k - 1]);
        }
        k = k - 1;
    }
    proof {
        lemma_last_normal_member(pv);
        if k == 0 {
            assert(pv.take(0) =~= Seq::<Seq<char>>::empty());
            assert(last_normal(pv) is None);
        } else {
            assert(pv.take(k as int).last() == pv[k - 1]);
            assert(last_normal(pv) == Some(pv[k - 1]));
        }
    }
    if k == 0 {
        return String::from_str("download");
    }
    let dots = chars_eq_str(parts[k - 1].as_slice(), "..");
    proof {
        reveal_strlit("..");
        assert(".."@ =~= seq!['.', '.']);
        assert(pv[k - 1] == parts@[k - 1]@);
        assert(dots <==> pv[k - 1] =~= seq!['.', '.']);
    }
    if dots {
        return String::from_str("download");
    }
    proof {
        assert(path_file_name(name@) == Some(pv[k - 1]));
    }
    string_from_chars(parts[k - 1].as_slice())
}

/// One change to the process environment: set `name` to `value`, or remove
/// it when `value` is `None`.
pub struct EnvChange {
    pub name: &'static str,
    pub value: Option<String>,
}

impl View for EnvChange {
    type V = (Seq<char>, Option<Seq<char>>);

    open spec fn view(&self) -> (Seq<char>, Option<Seq<char>>) {
        (
            self.name@,
            match self.value {
                Some(v) => Some(v@),
                None => None,
            },
        )
    }
}

fn set_var(name: &'static str, value: &str) -> (r: EnvChange)
    ensures
        r@ == (name@, Some(value@)),
{
    EnvChange { name, value: Some(String::from_str(value)) }
}

fn remove_var(name: &'static str) -> (r: EnvChange)
    ensures
        r@ == (name@, None::<Seq<char>>),
{
    EnvChange { name, value: None }
}

/// The environment a config asks for before the WebViews start: the proxy
/// for HTTP and HTTPS when it is enabled and not empty, and WebKit's
/// compositing mode off when hardware acceleration is disabled.
pub open spec fn config_environment(cfg: Config) -> Seq<(Seq<char>, Option<Seq<char>>)> {
    (if cfg.proxy_enabled && cfg.proxy_url@.len() > 0 {
        seq![("http_proxy"@, Some(cfg.proxy_url@)), ("https_proxy"@, Some(cfg.proxy_url@))]
    } else {
        Seq::empty()
    }) + (if !cfg.hardware_acceleration {
        seq![("WEBKIT_DISABLE_COMPOSITING_MODE"@, Some("1"@))]
    } else {
        Seq::empty()
    })
}

pub fn environment_changes(cfg: &Config) -> (r: Vec<EnvChange>)
    ensures
        r@.map_values(|c: EnvChange| c@) == config_environment(*cfg),
{
    let mut v: Vec<EnvChange> = Vec::new();
    if cfg.proxy_enabled && !cfg.proxy_url.as_str().is_empty() {
        v.push(set_var("http_proxy", cfg.proxy_url.as_str()));
        v.push(set_var("https_proxy", cfg.proxy_url.as_str()));
    }
    if !cfg.hardware_acceleration {
        v.push(set_var("WEBKIT_DISABLE_COMPOSITING_MODE", "1"));
    }
    proof {
        assert(v@.map_values(|c: EnvChange| c@) =~= config_environment(*cfg));
    }
    v
}

/// Mesa's EGL vendor file; its presence means the integrated GPU can be used.
pub const MESA_EGL: &'static str = "/usr/share/glvnd/egl_vendor.d/50_mesa.json";

/// The Linux rendering environment. A forced software path disables WebKit's
/// DMABUF renderer; with Mesa available the whole GL/EGL/GBM stack is pinned
/// to it (and VA-API to the Intel render node when one is found) with the
/// DMABUF renderer enabled; otherwise the DMABUF renderer is disabled unless
/// the user already chose.
pub open spec fn rendering_environment(
    force_software: bool,
    mesa_available: bool,
    dmabuf_choice_set: bool,
    intel_node: Option<Seq<char>>,
) -> Seq<(Seq<char>, Option<Seq<char>>)> {
    if force_software {
        seq![("WEBKIT_DISABLE_DMABUF_RENDERER"@, Some("1"@))]
    } else if mesa_available {
        seq![
            ("__EGL_VENDOR_LIBRARY_FILENAMES"@, Some(MESA_EGL@)),
            ("__GLX_VENDOR_LIBRARY_NAME"@, Some("mesa"@)),
            ("LIBVA_DRIVER_NAME"@, Some("iHD"@)),
            ("GBM_BACKEND"@, None),
            ("__NV_PRIME_RENDER_OFFLOAD"@, None),
            ("WEBKIT_DISABLE_DMABUF_RENDERER"@, None),
        ] + match intel_node {
            Some(n) => seq![("LIBVA_DRI3_DEVICE"@, Some(n)), ("VAAPI_DEVICE"@, Some(n))],
            None => Seq::empty(),
        }
    } else if !dmabuf_choice_set {
        seq![("WEBKIT_DISABLE_DMABUF_RENDERER"@, Some("1"@))]
    } else {
        Seq::empty()
    }
}

pub fn rendering_changes(
    force_software: bool,
    mesa_available: bool,
    dmabuf_choice_set: bool,
    intel_node: Option<&str>,
) -> (r: Vec<EnvChange>)
    ensures
        r@.map_values(|c: EnvChange| c@) == rendering_environment(
            force_software,
            mesa_available,
            dmabuf_choice_set,
            match intel_node {
                Some(n) => Some(n@),
                None => None,
            },
        ),
{
    let mut v: Vec<EnvChange> = Vec::new();
    if force_software {
        v.push(set_var("WEBKIT_DISABLE_DMABUF_RENDERER", "1"));
    } else if mesa_available {
        v.push(set_var("__EGL_VENDOR_LIBRARY_FILENAMES", MESA_EGL));
        v.push(set_var("__GLX_VENDOR_LIBRARY_NAME", "mesa"));
        v.push(set_var("LIBVA_DRIVER_NAME", "iHD"));
        v.push(remove_var("GBM_BACKEND"));
        v.push(remove_var("__NV_PRIME_RENDER_OFFLOAD"));
        v.push(remove_var("WEBKIT_DISABLE_DMABUF_RENDERER"));
        if let Some(node) = intel_node {
            v.push(set_var("LIBVA_DRI3_DEVICE", node));
            v.push(set_var("VAAPI_DEVICE", node));
        }
    } else if !dmabuf_choice_set {
        v.push(set_var("WEBKIT_DISABLE_DMABUF_RENDERER", "1"));
    }
    proof {
        assert(v@.map_values(|c: EnvChange| c@) =~= rendering_environment(
            force_software,
            mesa_available,
            dmabuf_choice_set,
            match intel_node {
                Some(n) => Some(n@),
                None => None,
            },
        ));
    }
    v
}

} // verus!
