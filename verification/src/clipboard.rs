//! Clipboard payloads for pasting images and files into the WhatsApp page.
//!
//! The page cannot read image or file clipboard data itself, so the payload is
//! read natively and handed back as base64 data URLs. This module holds what
//! is decided about that payload: which offered image type is preferred,
//! which `text/uri-list` lines name files, how file URIs are percent-decoded,
//! the MIME type of a file name, and how each entry is encoded.

use vstd::prelude::*;
use vstd::string::StringSliceAdditionalSpecFns;
use vstd::utf8::{
    decode_utf8, encode_scalar, encode_utf8, encode_utf8_decode_utf8, encode_utf8_valid_utf8,
    has_width_1_encoding, valid_utf8,
};

use crate::codec::{base64_encode, base64_standard, string_from_utf8_lossy, utf8_lossy};

use crate::text::{
    chars_start_with, last_dot, lemma_split_char_nonempty, push_str_chars, slice_chars, split_char,
    split_chars, starts_with, str_chars, string_from_chars, trim, trim_chars,
};

verus! {

/// The lines of `s` as `str::lines` yields them: split at `\n`, a `\r` just
/// before a `\n` dropped, and no empty last line after a final `\n`.
pub open spec fn lines_of(s: Seq<char>) -> Seq<Seq<char>> {
    let p = split_char(s, '\n');
    let ended = p.drop_last().map_values(|l: Seq<char>| strip_cr(l));
    if p.last().len() == 0 {
        ended
    } else {
        ended.push(p.last())
    }
}

/// `l` without one trailing carriage return.
pub open spec fn strip_cr(l: Seq<char>) -> Seq<char> {
    if l.len() > 0 && l.last() == '\r' {
        l.drop_last()
    } else {
        l
    }
}

/// The lines of `cs`, as `str::lines` yields them.
pub fn lines(cs: &[char]) -> (r: Vec<Vec<char>>)
    ensures
        r@.map_values(|v: Vec<char>| v@) == lines_of(cs@),
{
    let parts = split_chars(cs, '\n');
    let ghost p = split_char(cs@, '\n');
    proof {
        lemma_split_char_nonempty(cs@, '\n');
    }
    let n = parts.len();
    let mut out: Vec<Vec<char>> = Vec::new();
    let mut i: usize = 0;
    while i + 1 < n
        invariant
            n == parts@.len(),
            n >= 1,
            parts@.map_values(|v: Vec<char>| v@) == p,
            i <= n - 1,
            out@.map_values(|v: Vec<char>| v@) == p.drop_last().take(i as int).map_values(
                |l: Seq<char>| strip_cr(l),
            ),
        decreases n - i,
    {
        let part = &parts[i];
        let len = part.len();
        let kept = if len > 0 && part[len - 1] == '\r' {
            slice_chars(part.as_slice(), 0, len - 1)
        } else {
            slice_chars(part.as_slice(), 0, len)
        };
        let ghost before = out@.map_values(|v: Vec<char>| v@);
        proof {
            assert(p[i as int] == part@);
            assert(kept@ =~= strip_cr(part@));
        }
        out.push(kept);
        proof {
            assert(out@.map_values(|v: Vec<char>| v@) =~= before.push(kept@));
            assert(p.drop_last().take(i as int + 1).map_values(|l: Seq<char>| strip_cr(l))
                =~= p.drop_last().take(i as int).map_values(|l: Seq<char>| strip_cr(l)).push(
                strip_cr(p[i as int]),
            ));
        }
        i = i + 1;
    }
    proof {
        assert(p.drop_last().take(i as int) =~= p.drop_last());
        assert(p.last() == parts@[n - 1]@);
    }
    if parts[n - 1].len() > 0 {
        let ghost before = out@.map_values(|v: Vec<char>| v@);
        let last = slice_chars(parts[n - 1].as_slice(), 0, parts[n - 1].len());
        out.push(last);
        proof {
            assert(last@ =~= p.last());
            assert(out@.map_values(|v: Vec<char>| v@) =~= before.push(last@));
        }
    }
    out
}

/// `c` with `A`..`Z` mapped to `a`..`z`.
pub open spec fn ascii_lower(c: char) -> char {
    if 'A' <= c && c <= 'Z' {
        ((c as int) + 32) as char
    } else {
        c
    }
}

/// Lower-casing touches only the 26 ASCII capitals, each moving to its small
/// letter 32 code points on; every other character is kept.
pub proof fn lemma_ascii_lower(c: char)
    ensures
        'A' <= c <= 'Z' ==> ascii_lower(c) as int == c as int + 32 && 'a' <= ascii_lower(c) <= 'z',
        !('A' <= c <= 'Z') ==> ascii_lower(c) == c,
{
}

pub fn ascii_lower_char(c: char) -> (r: char)
    ensures
        r == ascii_lower(c),
{
    if 'A' <= c && c <= 'Z' {
        ((c as u8) + 32) as char
    } else {
        c
    }
}

/// Equality up to ASCII case, as `str::eq_ignore_ascii_case` tests it.
pub open spec fn eq_ignore_case(a: Seq<char>, b: Seq<char>) -> bool {
    a.len() == b.len() && forall|i: int| 0 <= i < a.len() ==> ascii_lower(a[i]) == ascii_lower(
        #[trigger] b[i],
    )
}

pub fn chars_eq_ignore_case(a: &[char], b: &[char]) -> (r: bool)
    ensures
        r == eq_ignore_case(a@, b@),
{
    if a.len() != b.len() {
        return false;
    }
    let mut i: usize = 0;
    while i < a.len()
        invariant
            a@.len() == b@.len(),
            i <= a@.len(),
            forall|j: int| 0 <= j < i ==> ascii_lower(a@[j]) == ascii_lower(#[trigger] b@[j]),
        decreases a@.len() - i,
    {
        if ascii_lower_char(a[i]) != ascii_lower_char(b[i]) {
            return false;
        }
        i = i + 1;
    }
    true
}

/// The image types taken from a Wayland clipboard, most preferred first, with
/// the file extension used for each. PNG comes first because screenshot tools
/// generally provide it losslessly.
pub open spec fn preferred_image_types() -> Seq<(Seq<char>, Seq<char>)> {
    seq![
        ("image/png"@, "png"@),
        ("image/webp"@, "webp"@),
        ("image/jpeg"@, "jpg"@),
        ("image/gif"@, "gif"@),
        ("image/bmp"@, "bmp"@),
    ]
}

/// Whether the type listing `types` offers `mime`: some line of it, trimmed,
/// equals `mime` up to ASCII case.
pub open spec fn offers(types: Seq<char>, mime: Seq<char>) -> bool {
    exists|i: int| 0 <= i < lines_of(types).len() && eq_ignore_case(trim(#[trigger] lines_of(types)[i]), mime)
}

fn preferred_entry(k: usize) -> (r: (&'static str, &'static str))
    requires
        k < 5,
    ensures
        (r.0@, r.1@) == preferred_image_types()[k as int],
{
    match k {
        0 => ("image/png", "png"),
        1 => ("image/webp", "webp"),
        2 => ("image/jpeg", "jpg"),
        3 => ("image/gif", "gif"),
        _ => ("image/bmp", "bmp"),
    }
}

fn offered(type_lines: &Vec<Vec<char>>, mime: &str) -> (r: bool)
    ensures
        r == exists|i: int|
            0 <= i < type_lines@.len() && eq_ignore_case(trim(#[trigger] type_lines@[i]@), mime@),
{
    let m = str_chars(mime);
    let mut i: usize = 0;
    while i < type_lines.len()
        invariant
            i <= type_lines@.len(),
            m@ == mime@,
            forall|j: int| 0 <= j < i ==> !eq_ignore_case(trim(#[trigger] type_lines@[j]@), mime@),
        decreases type_lines@.len() - i,
    {
        let t = trim_chars(type_lines[i].as_slice());
        if chars_eq_ignore_case(t.as_slice(), m.as_slice()) {
            return true;
        }
        i = i + 1;
    }
    false
}

/// Picks a browser-friendly image representation from a Wayland clipboard type
/// listing: the first of [`preferred_image_types`] that the listing offers.
pub fn preferred_wayland_image_type(types: &str) -> (r: Option<(&'static str, &'static str)>)
    ensures
        match r {
            Some((mime, ext)) => exists|k: int|
                0 <= k < 5 && (mime@, ext@) == preferred_image_types()[k] && offers(
                    types@,
                    preferred_image_types()[k].0,
                ) && forall|j: int| 0 <= j < k ==> !offers(types@, preferred_image_types()[j].0),
            None => forall|k: int| 0 <= k < 5 ==> !offers(types@, preferred_image_types()[k].0),
        },
        offers(types@, "image/png"@) ==> (r matches Some((m, e)) && m@ == "image/png"@ && e@
            == "png"@),
        !offers(types@, "image/png"@) && offers(types@, "image/webp"@) ==> (r matches Some((m, e))
            && m@ == "image/webp"@ && e@ == "webp"@),
        !offers(types@, "image/png"@) && !offers(types@, "image/webp"@) && offers(
            types@,
            "image/jpeg"@,
        ) ==> (r matches Some((m, e)) && m@ == "image/jpeg"@ && e@ == "jpg"@),
        !offers(types@, "image/png"@) && !offers(types@, "image/webp"@) && !offers(
            types@,
            "image/jpeg"@,
        ) && offers(types@, "image/gif"@) ==> (r matches Some((m, e)) && m@ == "image/gif"@ && e@
            == "gif"@),
        !offers(types@, "image/png"@) && !offers(types@, "image/webp"@) && !offers(
            types@,
            "image/jpeg"@,
        ) && !offers(types@, "image/gif"@) && offers(types@, "image/bmp"@) ==> (r matches Some(
            (m, e),
        ) && m@ == "image/bmp"@ && e@ == "bmp"@),
        !offers(types@, "image/png"@) && !offers(types@, "image/webp"@) && !offers(
            types@,
            "image/jpeg"@,
        ) && !offers(types@, "image/gif"@) && !offers(types@, "image/bmp"@) ==> r is None,
{
    let cs = str_chars(types);
    let ls = lines(cs.as_slice());
    let ghost lv = ls@.map_values(|v: Vec<char>| v@);
    let mut k: usize = 0;
    while k < 5
        invariant
            k <= 5,
            lv == lines_of(types@),
            lv == ls@.map_values(|v: Vec<char>| v@),
            forall|j: int| 0 <= j < k ==> !offers(types@, preferred_image_types()[j].0),
        decreases 5 - k,
    {
        let entry = preferred_entry(k);
        let found = offered(&ls, entry.0);
        proof {
            if found {
                let i = choose|i: int|
                    0 <= i < ls@.len() && eq_ignore_case(trim(#[trigger] ls@[i]@), entry.0@);
                assert(lv[i] == ls@[i]@);
            } else {
                assert forall|i: int| 0 <= i < lv.len() implies !eq_ignore_case(
                    trim(#[trigger] lv[i]),
                    entry.0@,
                ) by {
                    assert(lv[i] == ls@[i]@);
                }
            }
        }
        if found {
            return Some(entry);
        }
        k = k + 1;
    }
    proof {
        let t = preferred_image_types();
        assert(!offers(types@, t[0].0) && !offers(types@, t[1].0) && !offers(types@, t[2].0)
            && !offers(types@, t[3].0) && !offers(types@, t[4].0));
    }
    None
}

/// The MIME type for a file-name extension (already lower-cased); anything
/// unknown is a generic binary that the page treats as a file.
pub open spec fn mime_for_extension(ext: Seq<char>) -> Seq<char> {
    if ext == "png"@ {
        "image/png"@
    } else if ext == "jpg"@ || ext == "jpeg"@ {
        "image/jpeg"@
    } else if ext == "gif"@ {
        "image/gif"@
    } else if ext == "webp"@ {
        "image/webp"@
    } else if ext == "bmp"@ {
        "image/bmp"@
    } else if ext == "svg"@ {
        "image/svg+xml"@
    } else if ext == "mp4"@ {
        "video/mp4"@
    } else if ext == "webm"@ {
        "video/webm"@
    } else if ext == "mov"@ {
        "video/quicktime"@
    } else if ext == "mp3"@ {
        "audio/mpeg"@
    } else if ext == "ogg"@ {
        "audio/ogg"@
    } else if ext == "wav"@ {
        "audio/wav"@
    } else if ext == "pdf"@ {
        "application/pdf"@
    } else if ext == "txt"@ {
        "text/plain"@
    } else if ext == "zip"@ {
        "application/zip"@
    } else if ext == "doc"@ {
        "application/msword"@
    } else if ext == "docx"@ {
        "application/vnd.openxmlformats-officedocument.wordprocessingml.document"@
    } else if ext == "xls"@ {
        "application/vnd.ms-excel"@
    } else if ext == "xlsx"@ {
        "application/vnd.openxmlformats-officedocument.spreadsheetml.sheet"@
    } else {
        "application/octet-stream"@
    }
}

/// The extension of `name`, lower-cased: what follows its last `.`, or
/// nothing when it has no `.` at all.
pub open spec fn lowered_extension(name: Seq<char>) -> Seq<char> {
    if last_dot(name) < 0 {
        Seq::<char>::empty()
    } else {
        name.skip(last_dot(name) + 1).map_values(|c: char| ascii_lower(c))
    }
}

/// Best-effort MIME type from a file name's extension, ignoring ASCII case.
pub fn mime_from_name(name: &str) -> (r: String)
    ensures
        r@ == mime_for_extension(lowered_extension(name@)),
{
    let cs = str_chars(name);
    let mut d: usize = cs.len();
    proof {
        assert(cs@.take(cs@.len() as int) =~= cs@);
    }
    while d > 0 && cs[d - 1] != '.'
        invariant
            d <= cs@.len(),
            cs@ == name@,
            last_dot(cs@) == last_dot(cs@.take(d as int)),
        decreases d,
    {
        proof {
            assert(cs@.take(d as int).drop_last() =~= cs@.take(d - 1));
        }
        d = d - 1;
    }
    proof {
        if d > 0 {
            assert(cs@.take(d as int).last() == '.');
        } else {
            assert(cs@.take(0) =~= Seq::<char>::empty());
        }
        assert(cs@.take(cs@.len() as int) =~= cs@);
    }
    let mut ext: Vec<char> = Vec::new();
    let mut k: usize = if d == 0 {
        cs.len()
    } else {
        d
    };
    let ghost start = k;
    while k < cs.len()
        invariant
            start <= k <= cs@.len(),
            ext@ == cs@.subrange(start as int, k as int).map_values(|c: char| ascii_lower(c)),
        decreases cs@.len() - k,
    {
        ext.push(ascii_lower_char(cs[k]));
        k = k + 1;
        proof {
            assert(ext@ =~= cs@.subrange(start as int, k as int).map_values(
                |c: char| ascii_lower(c),
            ));
        }
    }
    proof {
        assert(ext@ =~= lowered_extension(name@));
    }
    let e = ext.as_slice();
    let m: &str = if crate::text::chars_eq_str(e, "png") {
        "image/png"
    } else if crate::text::chars_eq_str(e, "jpg") || crate::text::chars_eq_str(e, "jpeg") {
        "image/jpeg"
    } else if crate::text::chars_eq_str(e, "gif") {
        "image/gif"
    } else if crate::text::chars_eq_str(e, "webp") {
        "image/webp"
    } else if crate::text::chars_eq_str(e, "bmp") {
        "image/bmp"
    } else if crate::text::chars_eq_str(e, "svg") {
        "image/svg+xml"
    } else if crate::text::chars_eq_str(e, "mp4") {
        "video/mp4"
    } else if crate::text::chars_eq_str(e, "webm") {
        "video/webm"
    } else if crate::text::chars_eq_str(e, "mov") {
        "video/quicktime"
    } else if crate::text::chars_eq_str(e, "mp3") {
        "audio/mpeg"
    } else if crate::text::chars_eq_str(e, "ogg") {
        "audio/ogg"
    } else if crate::text::chars_eq_str(e, "wav") {
        "audio/wav"
    } else if crate::text::chars_eq_str(e, "pdf") {
        "application/pdf"
    } else if crate::text::chars_eq_str(e, "txt") {
        "text/plain"
    } else if crate::text::chars_eq_str(e, "zip") {
        "application/zip"
    } else if crate::text::chars_eq_str(e, "doc") {
        "application/msword"
    } else if crate::text::chars_eq_str(e, "docx") {
        "application/vnd.openxmlformats-officedocument.wordprocessingml.document"
    } else if crate::text::chars_eq_str(e, "xls") {
        "application/vnd.ms-excel"
    } else if crate::text::chars_eq_str(e, "xlsx") {
        "application/vnd.openxmlformats-officedocument.spreadsheetml.sheet"
    } else {
        "application/octet-stream"
    };
    String::from_str(m)
}

/// The value of an ASCII hex digit.
pub open spec fn hex_value(b: u8) -> Option<u8> {
    if 48 <= b <= 57 {
        Some((b - 48) as u8)
    } else if 97 <= b <= 102 {
        Some((b - 87) as u8)
    } else if 65 <= b <= 70 {
        Some((b - 55) as u8)
    } else {
        None
    }
}

/// The byte that `%` followed by `b1 b2` encodes: both must be hex digits.
pub open spec fn hex_pair(b1: u8, b2: u8) -> Option<u8> {
    if hex_value(b1) is Some && hex_value(b2) is Some {
        Some((hex_value(b1)->0 * 16 + hex_value(b2)->0) as u8)
    } else {
        None
    }
}

/// The bytes of a percent-encoded string after decoding every `%XX` whose
/// two following bytes are both hex digits; every other byte is kept.
pub open spec fn percent_decoded(b: Seq<u8>) -> Seq<u8>
    decreases b.len(),
{
    if b.len() == 0 {
        Seq::<u8>::empty()
    } else if b[0] == 37 && b.len() > 2 && hex_pair(b[1], b[2]) is Some {
        seq![hex_pair(b[1], b[2])->0] + percent_decoded(b.skip(3))
    } else {
        seq![b[0]] + percent_decoded(b.skip(1))
    }
}

/// The upper-case hex digit (as an ASCII byte) of `n` (below 16).
pub open spec fn upper_hex(n: int) -> u8 {
    if n < 10 {
        (48 + n) as u8
    } else {
        (55 + n) as u8
    }
}

/// Every byte of `b` written as `%XX` with upper-case hex digits.
pub open spec fn percent_encoded(b: Seq<u8>) -> Seq<u8>
    decreases b.len(),
{
    if b.len() == 0 {
        Seq::<u8>::empty()
    } else {
        seq![37u8, upper_hex(b[0] as int / 16), upper_hex(b[0] as int % 16)] + percent_encoded(b.skip(1))
    }
}

/// Decoding undoes full `%XX` encoding: the encoded bytes decode to the
/// original bytes, and so to the original text when they are UTF-8.
pub proof fn lemma_percent_round_trip(b: Seq<u8>)
    ensures
        percent_decoded(percent_encoded(b)) == b,
        valid_utf8(b) ==> decode_utf8(percent_decoded(percent_encoded(b))) == decode_utf8(b),
    decreases b.len(),
{
    if b.len() > 0 {
        let e = percent_encoded(b);
        let x = b[0];
        let hi = upper_hex(x as int / 16);
        let lo = upper_hex(x as int % 16);
        assert(hex_value(hi) == Some((x / 16) as u8));
        assert(hex_value(lo) == Some((x % 16) as u8));
        assert(e[0] == 37u8 && e[1] == hi && e[2] == lo);
        assert(hex_pair(hi, lo) == Some(x));
        assert(e.skip(3) =~= percent_encoded(b.skip(1)));
        lemma_percent_round_trip(b.skip(1));
        assert(seq![x] + b.skip(1) =~= b);
    }
}

/// `%` is a one-byte character, and nothing else in UTF-8 contains its byte.
proof fn lemma_scalar_no_percent(c: char)
    requires
        c != '%',
    ensures
        !encode_scalar(c as u32).contains(37u8),
{
    let v = c as u32;
    let e = encode_scalar(v);
    if has_width_1_encoding(v) {
        assert((v & 0x7F) as u8 == v as u8) by (bit_vector)
            requires
                v <= 0x7F,
        ;
        assert(v != 37);
        assert(e =~= seq![v as u8]);
    } else {
        assert(forall|x: u8| #[trigger] (0x80u8 | x) >= 0x80u8) by (bit_vector);
        assert(forall|x: u8| #[trigger] (0xC0u8 | x) >= 0x80u8) by (bit_vector);
        assert(forall|x: u8| #[trigger] (0xE0u8 | x) >= 0x80u8) by (bit_vector);
        assert(forall|x: u8| #[trigger] (0xF0u8 | x) >= 0x80u8) by (bit_vector);
        assert(forall|i: int| 0 <= i < e.len() ==> e[i] >= 0x80u8);
    }
}

proof fn lemma_encode_no_percent(s: Seq<char>)
    requires
        !s.contains('%'),
    ensures
        !encode_utf8(s).contains(37u8),
    decreases s.len(),
{
    if s.len() > 0 {
        assert(s[0] != '%');
        lemma_scalar_no_percent(s[0]);
        assert(!s.drop_first().contains('%')) by {
            if s.drop_first().contains('%') {
                let i = choose|i: int| 0 <= i < s.drop_first().len() && s.drop_first()[i] == '%';
                assert(s[i + 1] == '%');
            }
        }
        lemma_encode_no_percent(s.drop_first());
        let a = encode_scalar(s[0] as u32);
        let b = encode_utf8(s.drop_first());
        if (a + b).contains(37u8) {
            let i = choose|i: int| 0 <= i < (a + b).len() && (a + b)[i] == 37u8;
            if i < a.len() {
                assert(a[i] == 37u8);
            } else {
                assert(b[i - a.len()] == 37u8);
            }
        }
    }
}

proof fn lemma_percent_decoded_plain_bytes(b: Seq<u8>)
    requires
        !b.contains(37u8),
    ensures
        percent_decoded(b) == b,
    decreases b.len(),
{
    if b.len() > 0 {
        assert(b[0] != 37u8);
        assert(!b.skip(1).contains(37u8)) by {
            if b.skip(1).contains(37u8) {
                let i = choose|i: int| 0 <= i < b.skip(1).len() && b.skip(1)[i] == 37u8;
                assert(b[i + 1] == 37u8);
            }
        }
        lemma_percent_decoded_plain_bytes(b.skip(1));
        assert(seq![b[0]] + b.skip(1) =~= b);
    }
}

/// Decoding leaves text without `%` unchanged: its UTF-8 bytes come back as
/// they are and read back as the same text.
pub proof fn lemma_percent_decode_plain(s: Seq<char>)
    requires
        !s.contains('%'),
    ensures
        percent_decoded(encode_utf8(s)) == encode_utf8(s),
        valid_utf8(percent_decoded(encode_utf8(s))),
        decode_utf8(percent_decoded(encode_utf8(s))) == s,
{
    lemma_encode_no_percent(s);
    lemma_percent_decoded_plain_bytes(encode_utf8(s));
    encode_utf8_valid_utf8(s);
    encode_utf8_decode_utf8(s);
}

fn hex_value_exec(b: u8) -> (r: Option<u8>)
    ensures
        r == hex_value(b),
{
    if 48 <= b && b <= 57 {
        Some(b - 48)
    } else if 97 <= b && b <= 102 {
        Some(b - 87)
    } else if 65 <= b && b <= 70 {
        Some(b - 55)
    } else {
        None
    }
}

fn hex_pair_exec(b1: u8, b2: u8) -> (r: Option<u8>)
    ensures
        r == hex_pair(b1, b2),
{
    match (hex_value_exec(b1), hex_value_exec(b2)) {
        (Some(h), Some(l)) => Some(h * 16 + l),
        _ => None,
    }
}

/// Minimal percent-decoding for clipboard file URIs (handles `%XX`), with the
/// decoded bytes read as UTF-8 (invalid sequences replaced).
pub fn percent_decode(s: &str) -> (r: String)
    ensures
        r@ == utf8_lossy(percent_decoded(s.spec_bytes())),
        valid_utf8(percent_decoded(s.spec_bytes())) ==> r@ == decode_utf8(
            percent_decoded(s.spec_bytes()),
        ),
{
    let b = s.as_bytes();
    let n = b.len();
    let mut out: Vec<u8> = Vec::new();
    let mut i: usize = 0;
    proof {
        assert(b@.skip(0) =~= b@);
        assert(out@ + percent_decoded(b@) =~= percent_decoded(b@));
    }
    while i < n
        invariant
            n == b@.len(),
            i <= n,
            percent_decoded(b@) == out@ + percent_decoded(b@.skip(i as int)),
        decreases n - i,
    {
        let ghost rest = b@.skip(i as int);
        if b[i] == 37 && n - i > 2 {
            match hex_pair_exec(b[i + 1], b[i + 2]) {
                Some(v) => {
                    proof {
                        assert(rest[0] == b@[i as int] && rest[1] == b@[i + 1] && rest[2] == b@[i
                            + 2]);
                        assert(rest.skip(3) =~= b@.skip(i + 3));
                        assert(out@.push(v) + percent_decoded(b@.skip(i + 3)) =~= out@ + (seq![v]
                            + percent_decoded(b@.skip(i + 3))));
                    }
                    out.push(v);
                    i = i + 3;
                    continue ;
                },
                None => {
                    proof {
                        assert(rest[0] == b@[i as int] && rest[1] == b@[i + 1] && rest[2] == b@[i
                            + 2]);
                    }
                },
            }
        }
        proof {
            assert(rest[0] == b@[i as int]);
            assert(rest.skip(1) =~= b@.skip(i + 1));
            assert(out@.push(b@[i as int]) + percent_decoded(b@.skip(i + 1)) =~= out@ + (seq![
                b@[i as int],
            ] + percent_decoded(b@.skip(i + 1))));
        }
        out.push(b[i]);
        i = i + 1;
    }
    proof {
        assert(b@.skip(n as int) =~= Seq::<u8>::empty());
        assert(out@ + Seq::<u8>::empty() =~= out@);
        assert(b@.skip(0) =~= b@);
    }
    string_from_utf8_lossy(out.as_slice())
}

/// `file://`, the prefix of a file URI.
pub open spec fn file_uri_prefix() -> Seq<char> {
    seq!['f', 'i', 'l', 'e', ':', '/', '/']
}

/// The (still percent-encoded) paths named by the lines of a `text/uri-list`:
/// lines are trimmed, empty and `#` comment lines are skipped, and only
/// `file://` URIs count.
pub open spec fn uri_paths(ls: Seq<Seq<char>>) -> Seq<Seq<char>>
    decreases ls.len(),
{
    if ls.len() == 0 {
        Seq::<Seq<char>>::empty()
    } else {
        let rest = uri_paths(ls.drop_last());
        let l = trim(ls.last());
        if l.len() > 0 && l[0] != '#' && starts_with(l, file_uri_prefix()) {
            rest.push(l.skip(7))
        } else {
            rest
        }
    }
}

/// The percent-encoded file paths of a `text/uri-list` clipboard offer.
pub fn uri_list_file_paths(raw: &str) -> (r: Vec<String>)
    ensures
        r@.map_values(|p: String| p@) == uri_paths(lines_of(raw@)),
{
    let cs = str_chars(raw);
    let ls = lines(cs.as_slice());
    let ghost lv = ls@.map_values(|v: Vec<char>| v@);
    let prefix: Vec<char> = vec!['f', 'i', 'l', 'e', ':', '/', '/'];
    proof {
        assert(prefix@ =~= file_uri_prefix());
    }
    let mut out: Vec<String> = Vec::new();
    let mut i: usize = 0;
    while i < ls.len()
        invariant
            i <= ls@.len(),
            lv == ls@.map_values(|v: Vec<char>| v@),
            lv == lines_of(raw@),
            prefix@ == file_uri_prefix(),
            out@.map_values(|p: String| p@) == uri_paths(lv.take(i as int)),
        decreases ls@.len() - i,
    {
        let ghost before = out@.map_values(|p: String| p@);
        proof {
            assert(lv.take(i as int + 1).drop_last() =~= lv.take(i as int));
            assert(lv.take(i as int + 1).last() == ls@[i as int]@);
        }
        let l = trim_chars(ls[i].as_slice());
        if l.len() > 0 && l[0] != '#' && chars_start_with(l.as_slice(), prefix.as_slice()) {
            let path = slice_chars(l.as_slice(), 7, l.len());
            proof {
                assert(path@ =~= l@.skip(7));
            }
            let p = string_from_chars(path.as_slice());
            out.push(p);
            proof {
                assert(out@.map_values(|p: String| p@) =~= before.push(path@));
            }
        }
        i = i + 1;
    }
    proof {
        assert(lv.take(i as int) =~= lv);
    }
    out
}

/// One clipboard entry handed to the page.
#[derive(Debug, Clone)]
pub struct ClipFile {
    /// Suggested file name (for files) or a synthetic one (for images).
    pub name: String,
    /// MIME type, best-effort from the extension.
    pub mime: String,
    /// `data:<mime>;base64,<...>` payload.
    pub data_url: String,
}

/// The clipboard entries handed to the page: copied files win (they are the
/// higher-fidelity copy), else a native Wayland image offer, else the raw
/// bitmap, else nothing.
pub fn pick_clip_files(
    files: Vec<ClipFile>,
    wayland: Option<ClipFile>,
    bitmap: Option<ClipFile>,
) -> (r: Vec<ClipFile>)
    ensures
        files@.len() > 0 ==> r@ == files@,
        files@.len() == 0 && wayland is Some ==> r@ == seq![wayland->0],
        files@.len() == 0 && wayland is None ==> r@ == match bitmap {
            Some(b) => seq![b],
            None => Seq::<ClipFile>::empty(),
        },
{
    if files.len() > 0 {
        return files;
    }
    if let Some(w) = wayland {
        let mut v: Vec<ClipFile> = Vec::new();
        v.push(w);
        return v;
    }
    let mut v: Vec<ClipFile> = Vec::new();
    if let Some(b) = bitmap {
        v.push(b);
    }
    v
}

/// Files larger than this (64 MiB) are not pasted, so a stray huge file
/// cannot blow up the payload handed to the page.
pub const MAX_CLIP_BYTES: usize = 67_108_864;

/// `data:<mime>;base64,<payload>`.
pub open spec fn data_url_of(mime: Seq<char>, payload: Seq<char>) -> Seq<char> {
    seq!['d', 'a', 't', 'a', ':'] + mime + seq![';', 'b', 'a', 's', 'e', '6', '4', ','] + payload
}

fn data_url(mime: &str, bytes: &[u8]) -> (r: String)
    requires
        bytes@.len() <= usize::MAX / 2,
    ensures
        r@ == data_url_of(mime@, base64_standard(bytes@)),
{
    let b64 = base64_encode(bytes);
    let mut cs: Vec<char> = vec!['d', 'a', 't', 'a', ':'];
    push_str_chars(&mut cs, mime);
    let tail: Vec<char> = vec![';', 'b', 'a', 's', 'e', '6', '4', ','];
    let mut k: usize = 0;
    let ghost before = cs@;
    while k < tail.len()
        invariant
            k <= tail@.len(),
            cs@ == before + tail@.take(k as int),
        decreases tail@.len() - k,
    {
        cs.push(tail[k]);
        k = k + 1;
        proof {
            assert(cs@ =~= before + tail@.take(k as int));
        }
    }
    push_str_chars(&mut cs, b64.as_str());
    proof {
        assert(tail@.take(k as int) =~= tail@);
        assert(cs@ =~= data_url_of(mime@, base64_standard(bytes@)));
    }
    string_from_chars(cs.as_slice())
}

/// A copied file as a clipboard entry: refused above [`MAX_CLIP_BYTES`],
/// otherwise typed by its name and carried as a base64 data URL.
pub fn file_clip(name: String, bytes: &[u8]) -> (r: Option<ClipFile>)
    ensures
        bytes@.len() > MAX_CLIP_BYTES ==> r is None,
        bytes@.len() <= MAX_CLIP_BYTES ==> (r matches Some(c) && c.name == name && c.mime@
            == mime_for_extension(lowered_extension(name@)) && c.data_url@ == data_url_of(
            c.mime@,
            base64_standard(bytes@),
        )),
{
    if bytes.len() > MAX_CLIP_BYTES {
        return None;
    }
    let mime = mime_from_name(name.as_str());
    let data = data_url(mime.as_str(), bytes);
    Some(ClipFile { name, mime, data_url: data })
}

/// `pasted-image.`, the start of the name of a pasted image.
pub open spec fn pasted_image_stem() -> Seq<char> {
    seq!['p', 'a', 's', 't', 'e', 'd', '-', 'i', 'm', 'a', 'g', 'e', '.']
}

/// An image offered natively by the clipboard, kept exactly as offered:
/// refused above [`MAX_CLIP_BYTES`], otherwise named `pasted-image.<ext>`.
pub fn image_clip(mime: &str, extension: &str, bytes: &[u8]) -> (r: Option<ClipFile>)
    ensures
        bytes@.len() > MAX_CLIP_BYTES ==> r is None,
        bytes@.len() <= MAX_CLIP_BYTES ==> (r matches Some(c) && c.name@ == pasted_image_stem()
            + extension@ && c.mime@ == mime@ && c.data_url@ == data_url_of(
            mime@,
            base64_standard(bytes@),
        )),
{
    if bytes.len() > MAX_CLIP_BYTES {
        return None;
    }
    let mut n: Vec<char> = vec!['p', 'a', 's', 't', 'e', 'd', '-', 'i', 'm', 'a', 'g', 'e', '.'];
    proof {
        assert(n@ =~= pasted_image_stem());
    }
    push_str_chars(&mut n, extension);
    let name = string_from_chars(n.as_slice());
    let data = data_url(mime, bytes);
    Some(ClipFile { name, mime: String::from_str(mime), data_url: data })
}

/// The PNG file that the `png` crate writes for an 8-bit RGBA image of the
/// given size and pixel bytes, or `None` when it reports an error.
pub uninterp spec fn png_rgba8(width: u32, height: u32, rgba: Seq<u8>) -> Option<Seq<u8>>;

/// Encodes with `png::Encoder` (RGBA colour, 8-bit depth, default options):
/// header then image data. Errors become `None`; nothing more is claimed.
/// The pixel bytes must match the size: the crate multiplies the row length
/// by the height before it compares that product with the buffer.
#[verifier::external_body]
fn encode_png(width: u32, height: u32, rgba: &[u8]) -> (r: Option<Vec<u8>>)
    requires
        width as int * height as int * 4 == rgba@.len(),
        rgba@.len() <= isize::MAX,
    ensures
        match r {
            Some(v) => png_rgba8(width, height, rgba@) == Some(v@),
            None => png_rgba8(width, height, rgba@) is None,
        },
{
    let mut out = Vec::new();
    {
        let mut encoder = png::Encoder::new(&mut out, width, height);
        encoder.set_color(png::ColorType::Rgba);
        encoder.set_depth(png::BitDepth::Eight);
        let mut writer = encoder.write_header().ok()?;
        writer.write_image_data(rgba).ok()?;
    }
    Some(out)
}

/// A raw clipboard bitmap ("copy image"), re-encoded as PNG and named
/// `pasted-image.png`. Sizes beyond `u32`, pixel bytes that do not match the
/// size, and encoder errors give `None`.
pub fn bitmap_clip(width: usize, height: usize, rgba: &[u8]) -> (r: Option<ClipFile>)
    ensures
        match r {
            Some(c) => {
                &&& width <= u32::MAX && height <= u32::MAX
                &&& width * height * 4 == rgba@.len()
                &&& png_rgba8(width as u32, height as u32, rgba@) matches Some(png)
                &&& c.name@ == pasted_image_stem() + "png"@
                &&& c.mime@ == "image/png"@
                &&& c.data_url@ == data_url_of("image/png"@, base64_standard(png))
            },
            None => width > u32::MAX || height > u32::MAX || width * height * 4 != rgba@.len()
                || rgba@.len() > isize::MAX || png_rgba8(width as u32, height as u32, rgba@) is None
                || png_rgba8(width as u32, height as u32, rgba@)->0.len() > usize::MAX / 2,
        },
{
    if width > 0xFFFF_FFFFusize || height > 0xFFFF_FFFFusize {
        return None;
    }
    let w: u128 = width as u128;
    let h: u128 = height as u128;
    assert(w * h <= 0xFFFF_FFFF * 0xFFFF_FFFF) by (nonlinear_arith)
        requires
            w <= 0xFFFF_FFFF,
            h <= 0xFFFF_FFFF,
    ;
    let expected: u128 = w * h * 4;
    if expected != rgba.len() as u128 || rgba.len() > isize::MAX as usize {
        return None;
    }
    let png = match encode_png(width as u32, height as u32, rgba) {
        Some(p) => p,
        None => {
            return None;
        },
    };
    if png.len() > usize::MAX / 2 {
        return None;
    }
    let mut n: Vec<char> = vec!['p', 'a', 's', 't', 'e', 'd', '-', 'i', 'm', 'a', 'g', 'e', '.'];
    proof {
        assert(n@ =~= pasted_image_stem());
    }
    push_str_chars(&mut n, "png");
    let name = string_from_chars(n.as_slice());
    let data = data_url("image/png", png.as_slice());
    Some(ClipFile { name, mime: String::from_str("image/png"), data_url: data })
}

} // verus!
