//! Byte encodings the app relies on: standard base64 (the `base64` crate) and
//! lossy UTF-8 decoding (std).

use base64::Engine;
use vstd::prelude::*;
use vstd::utf8::{decode_utf8, valid_utf8};

verus! {

/// Character `n` (below 64) of the standard base64 alphabet: `A`-`Z`,
/// `a`-`z`, `0`-`9`, `+`, `/`.
pub open spec fn base64_char(n: int) -> char {
    if n < 26 {
        ('A' as int + n) as char
    } else if n < 52 {
        ('a' as int + n - 26) as char
    } else if n < 62 {
        ('0' as int + n - 52) as char
    } else if n == 62 {
        '+'
    } else {
        '/'
    }
}

/// The standard base64 encoding of `bytes` (RFC 4648, `+/` alphabet, `=`
/// padding), as `base64::engine::general_purpose::STANDARD.encode` produces
/// it: every three bytes become four characters of six bits each, and a
/// final one or two bytes are padded to four characters with `=`.
pub open spec fn base64_standard(bytes: Seq<u8>) -> Seq<char>
    decreases bytes.len(),
{
    if bytes.len() == 0 {
        Seq::<char>::empty()
    } else if bytes.len() == 1 {
        let x = bytes[0] as int;
        seq![base64_char(x / 4), base64_char((x % 4) * 16), '=', '=']
    } else if bytes.len() == 2 {
        let (x, y) = (bytes[0] as int, bytes[1] as int);
        seq![base64_char(x / 4), base64_char((x % 4) * 16 + y / 16), base64_char((y % 16) * 4), '=']
    } else {
        let (x, y, z) = (bytes[0] as int, bytes[1] as int, bytes[2] as int);
        seq![
            base64_char(x / 4),
            base64_char((x % 4) * 16 + y / 16),
            base64_char((y % 16) * 4 + z / 64),
            base64_char(z % 64),
        ] + base64_standard(bytes.skip(3))
    }
}

/// The bytes that `base64::engine::general_purpose::STANDARD.decode` recovers
/// from `input`, or `None` when it reports a decoding error.
pub uninterp spec fn base64_standard_decoded(input: Seq<u8>) -> Option<Seq<u8>>;

/// The string `String::from_utf8_lossy` makes of `bytes`.
pub uninterp spec fn utf8_lossy(bytes: Seq<u8>) -> Seq<char>;

/// Encodes with `base64::engine::general_purpose::STANDARD.encode`, the
/// padded standard encoding. The crate panics when the encoded length
/// overflows `usize`, which the bound on the input rules out.
#[verifier::external_body]
pub(crate) fn base64_encode(bytes: &[u8]) -> (r: String)
    requires
        bytes@.len() <= usize::MAX / 2,
    ensures
        r@ == base64_standard(bytes@),
{
    base64::engine::general_purpose::STANDARD.encode(bytes)
}

/// Decodes with `base64::engine::general_purpose::STANDARD.decode`; a
/// decoding error becomes `None`. Nothing is claimed of which inputs decode.
#[verifier::external_body]
pub(crate) fn base64_decode(input: &[u8]) -> (r: Option<Vec<u8>>)
    ensures
        match r {
            Some(v) => base64_standard_decoded(input@) == Some(v@),
            None => base64_standard_decoded(input@) is None,
        },
{
    base64::engine::general_purpose::STANDARD.decode(input).ok()
}

/// `String::from_utf8_lossy(bytes).into_owned()`: per std's documentation,
/// valid UTF-8 is decoded as is; invalid sequences (left unstated here) become
/// U+FFFD replacement characters.
#[verifier::external_body]
pub(crate) fn string_from_utf8_lossy(bytes: &[u8]) -> (r: String)
    ensures
        r@ == utf8_lossy(bytes@),
        valid_utf8(bytes@) ==> r@ == decode_utf8(bytes@),
{
    String::from_utf8_lossy(bytes).into_owned()
}

} // verus!
