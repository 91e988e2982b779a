//! What a native notification shows on behalf of an account page: the
//! account check, the privacy level, the default texts, and the sender
//! avatar carried as a `data:` URL.

use vstd::prelude::*;
use vstd::string::StringSliceAdditionalSpecFns;

use crate::accounts::{has_id, AccountId, Accounts};
use crate::codec::{base64_decode, base64_standard_decoded};
use crate::config::NotificationPrivacy;
use crate::text::{decimal, push_decimal, push_str_chars, string_from_chars};

verus! {

/// A notification ready to be shown.
#[derive(Debug, Clone)]
pub struct PreparedNotification {
    pub account_id: AccountId,
    pub title: String,
    pub body: String,
    /// The sender avatar (`data:` URL), kept only when previews are shown.
    pub avatar: Option<String>,
}

/// Decides what a notification from `account_id` shows. Nothing is shown for
/// an unknown account or when notifications are hidden; `Generic` replaces
/// the message with "New message"; a missing title reads "WhatsApp", a
/// missing body is empty; the avatar identifies the sender, so it is kept
/// only when previews are allowed.
pub fn prepare_notification(
    accounts: &Accounts,
    privacy: NotificationPrivacy,
    account_id: AccountId,
    title: Option<String>,
    body: Option<String>,
    icon: Option<String>,
) -> (r: Option<PreparedNotification>)
    ensures
        !has_id(accounts.entries(), account_id) || privacy == NotificationPrivacy::Hidden
            ==> r is None,
        has_id(accounts.entries(), account_id) && privacy != NotificationPrivacy::Hidden ==> {
            &&& r is Some
            &&& r->0.account_id == account_id
            &&& r->0.title@ == (match title {
                Some(t) => t@,
                None => "WhatsApp"@,
            })
            &&& r->0.body@ == (if privacy == NotificationPrivacy::Generic {
                "New message"@
            } else {
                match body {
                    Some(b) => b@,
                    None => Seq::<char>::empty(),
                }
            })
            &&& r->0.avatar == (if privacy == NotificationPrivacy::Full {
                icon
            } else {
                None
            })
        },
{
    if accounts.get(account_id).is_none() {
        return None;
    }
    let (title, body) = match privacy.apply(title, body) {
        Some(pair) => pair,
        None => {
            return None;
        },
    };
    let title = match title {
        Some(t) => t,
        None => String::from_str("WhatsApp"),
    };
    let body = match body {
        Some(b) => b,
        None => String::new(),
    };
    let avatar = if privacy.shows_preview() {
        icon
    } else {
        None
    };
    Some(PreparedNotification { account_id, title, body, avatar })
}

/// The ASCII bytes of `s`.
pub open spec fn ascii_bytes(s: Seq<char>) -> Seq<u8> {
    s.map_values(|c: char| c as u8)
}

/// Whether `pat` occurs in `b` at position `i`.
pub open spec fn occurs_at(b: Seq<u8>, pat: Seq<u8>, i: int) -> bool {
    0 <= i && i + pat.len() <= b.len() && b.subrange(i, i + pat.len()) == pat
}

/// `data:`
pub open spec fn data_prefix() -> Seq<u8> {
    seq![100u8, 97u8, 116u8, 97u8, 58u8]
}

/// `;base64,`
pub open spec fn base64_marker() -> Seq<u8> {
    seq![59u8, 98u8, 97u8, 115u8, 101u8, 54u8, 52u8, 44u8]
}

/// The avatar file extension for an image MIME type: `jpg` for JPEG,
/// `webp` for WebP, `png` otherwise.
pub open spec fn avatar_extension(mime: Seq<u8>) -> Seq<char> {
    if mime == ascii_bytes("image/jpeg"@) || mime == ascii_bytes("image/jpg"@) {
        "jpg"@
    } else if mime == ascii_bytes("image/webp"@) {
        "webp"@
    } else {
        "png"@
    }
}

/// The avatar extension per MIME type: `image/jpeg` and `image/jpg` are
/// saved as `jpg`, `image/webp` as `webp`, and every other type as `png`.
pub proof fn lemma_avatar_extensions(mime: Seq<u8>)
    ensures
        avatar_extension(seq![105u8, 109, 97, 103, 101, 47, 106, 112, 101, 103]) == "jpg"@,
        avatar_extension(seq![105u8, 109, 97, 103, 101, 47, 106, 112, 103]) == "jpg"@,
        avatar_extension(seq![105u8, 109, 97, 103, 101, 47, 119, 101, 98, 112]) == "webp"@,
        mime != seq![105u8, 109, 97, 103, 101, 47, 106, 112, 101, 103] && mime != seq![
            105u8,
            109,
            97,
            103,
            101,
            47,
            106,
            112,
            103,
        ] && mime != seq![105u8, 109, 97, 103, 101, 47, 119, 101, 98, 112] ==> avatar_extension(
            mime,
        ) == "png"@,
{
    reveal_strlit("image/jpeg");
    reveal_strlit("image/jpg");
    reveal_strlit("image/webp");
    assert(ascii_bytes("image/jpeg"@) =~= seq![105u8, 109, 97, 103, 101, 47, 106, 112, 101, 103]);
    assert(ascii_bytes("image/jpg"@) =~= seq![105u8, 109, 97, 103, 101, 47, 106, 112, 103]);
    assert(ascii_bytes("image/webp"@) =~= seq![105u8, 109, 97, 103, 101, 47, 119, 101, 98, 112]);
}

/// A `data:<mime>;base64,<payload>` URL taken apart at the first
/// `;base64,`: the extension for the MIME type and the decoded payload.
/// `None` without the `data:` prefix, without the marker, or when the payload
/// does not decode.
pub open spec fn parsed_avatar(b: Seq<u8>) -> Option<(Seq<char>, Seq<u8>)> {
    if occurs_at(b, data_prefix(), 0) && exists|i: int|
        5 <= i && #[trigger] occurs_at(b, base64_marker(), i) {
        let j = choose|i: int|
            5 <= i && #[trigger] occurs_at(b, base64_marker(), i) && forall|k: int|
                5 <= k < i ==> !occurs_at(b, base64_marker(), k);
        match base64_standard_decoded(b.skip(j + 8)) {
            Some(bytes) => Some((avatar_extension(b.subrange(5, j)), bytes)),
            None => None,
        }
    } else {
        None
    }
}

fn bytes_at(b: &[u8], pat: &[u8], i: usize) -> (r: bool)
    requires
        i <= b@.len(),
    ensures
        r == occurs_at(b@, pat@, i as int),
{
    if pat.len() > b.len() - i {
        return false;
    }
    let mut k: usize = 0;
    while k < pat.len()
        invariant
            i + pat@.len() <= b@.len(),
            b@.len() <= usize::MAX,
            k <= pat@.len(),
            forall|m: int| 0 <= m < k ==> b@[i + m] == pat@[m],
        decreases pat@.len() - k,
    {
        if b[i + k] != pat[k] {
            proof {
                assert(b@.subrange(i as int, i + pat@.len())[k as int] == b@[i + k]);
            }
            return false;
        }
        k = k + 1;
    }
    proof {
        assert(b@.subrange(i as int, i + pat@.len()) =~= pat@);
    }
    true
}

fn bytes_eq(a: &[u8], b: &[u8]) -> (r: bool)
    ensures
        r == (a@ == b@),
{
    if a.len() != b.len() {
        return false;
    }
    let mut k: usize = 0;
    while k < a.len()
        invariant
            a@.len() == b@.len(),
            k <= a@.len(),
            forall|m: int| 0 <= m < k ==> a@[m] == b@[m],
        decreases a@.len() - k,
    {
        if a[k] != b[k] {
            return false;
        }
        k = k + 1;
    }
    proof {
        assert(a@ =~= b@);
    }
    true
}

/// Splits an avatar `data:` URL into its file extension and decoded bytes.
pub fn avatar_from_data_url(data_url: &str) -> (r: Option<(&'static str, Vec<u8>)>)
    ensures
        match r {
            Some((ext, bytes)) => parsed_avatar(data_url.spec_bytes()) == Some((ext@, bytes@)),
            None => parsed_avatar(data_url.spec_bytes()) is None,
        },
{
    let b = data_url.as_bytes();
    let prefix: Vec<u8> = vec![100u8, 97u8, 116u8, 97u8, 58u8];
    let marker: Vec<u8> = vec![59u8, 98u8, 97u8, 115u8, 101u8, 54u8, 52u8, 44u8];
    proof {
        assert(prefix@ =~= data_prefix());
        assert(marker@ =~= base64_marker());
    }
    if !bytes_at(b, prefix.as_slice(), 0) {
        return None;
    }
    let n = b.len();
    let mut j: usize = 5;
    let mut found = false;
    while j < n && !found
        invariant
            5 <= j <= n,
            n == b@.len(),
            marker@ == base64_marker(),
            found ==> occurs_at(b@, base64_marker(), j as int),
            forall|k: int| 5 <= k < j ==> !occurs_at(b@, base64_marker(), k),
        decreases n - j + (if found {
            0int
        } else {
            1
        }),
    {
        if bytes_at(b, marker.as_slice(), j) {
            found = true;
        } else {
            j = j + 1;
        }
    }
    if !found {
        proof {
            assert forall|i: int| 5 <= i implies !occurs_at(b@, base64_marker(), i) by {
                if i >= j {
                    assert(!(i + 8 <= b@.len()) || i < n);
                }
            }
        }
        return None;
    }
    proof {
        let jj = choose|i: int|
            5 <= i && #[trigger] occurs_at(b@, base64_marker(), i) && forall|k: int|
                5 <= k < i ==> !occurs_at(b@, base64_marker(), k);
        if jj < j {
        } else if jj > j {
            assert(!occurs_at(b@, base64_marker(), j as int));
        }
        assert(jj == j);
    }
    let mut payload: Vec<u8> = Vec::new();
    let mut k: usize = j + 8;
    while k < n
        invariant
            j + 8 <= k <= n,
            n == b@.len(),
            payload@ == b@.subrange(j + 8, k as int),
        decreases n - k,
    {
        payload.push(b[k]);
        k = k + 1;
        proof {
            assert(payload@ =~= b@.subrange(j + 8, k as int));
        }
    }
    let mut mime: Vec<u8> = Vec::new();
    let mut m: usize = 5;
    while m < j
        invariant
            5 <= m <= j,
            j + 8 <= n,
            n == b@.len(),
            mime@ == b@.subrange(5, m as int),
        decreases j - m,
    {
        mime.push(b[m]);
        m = m + 1;
        proof {
            assert(mime@ =~= b@.subrange(5, m as int));
        }
    }
    proof {
        assert(payload@ =~= b@.skip(j + 8));
    }
    let bytes = match base64_decode(payload.as_slice()) {
        Some(v) => v,
        None => {
            return None;
        },
    };
    let jpeg: Vec<u8> = vec![105u8, 109u8, 97u8, 103u8, 101u8, 47u8, 106u8, 112u8, 101u8, 103u8];
    let jpg: Vec<u8> = vec![105u8, 109u8, 97u8, 103u8, 101u8, 47u8, 106u8, 112u8, 103u8];
    let webp: Vec<u8> = vec![105u8, 109u8, 97u8, 103u8, 101u8, 47u8, 119u8, 101u8, 98u8, 112u8];
    proof {
        reveal_strlit("image/jpeg");
        reveal_strlit("image/jpg");
        reveal_strlit("image/webp");
        assert(jpeg@ =~= ascii_bytes("image/jpeg"@));
        assert(jpg@ =~= ascii_bytes("image/jpg"@));
        assert(webp@ =~= ascii_bytes("image/webp"@));
    }
    let ext: &'static str = if bytes_eq(mime.as_slice(), jpeg.as_slice()) || bytes_eq(
        mime.as_slice(),
        jpg.as_slice(),
    ) {
        "jpg"
    } else if bytes_eq(mime.as_slice(), webp.as_slice()) {
        "webp"
    } else {
        "png"
    };
    Some((ext, bytes))
}

/// `zerowhats-notify-avatar-<id>.<ext>`: one file per account, so concurrent
/// accounts never overwrite each other's avatar.
pub open spec fn avatar_name(account_id: u32, ext: Seq<char>) -> Seq<char> {
    "zerowhats-notify-avatar-"@ + decimal(account_id as nat) + seq!['.'] + ext
}

pub fn avatar_file_name(account_id: AccountId, ext: &str) -> (r: String)
    ensures
        r@ == avatar_name(account_id, ext@),
{
    let mut cs: Vec<char> = Vec::new();
    push_str_chars(&mut cs, "zerowhats-notify-avatar-");
    push_decimal(&mut cs, account_id);
    cs.push('.');
    push_str_chars(&mut cs, ext);
    proof {
        assert(cs@ =~= avatar_name(account_id, ext@));
    }
    string_from_chars(cs.as_slice())
}

} // verus!
