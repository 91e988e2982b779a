//! Release metadata and the version comparison behind the update check.

use vstd::prelude::*;

use crate::text::{
    all_digits, decimal, lemma_decimal_digits, lemma_split_char_append, lemma_split_char_single,
    parse_u32, parse_u32_chars, split_char, split_chars, str_chars,
};
use crate::window::lemma_parse_decimal;

verus! {

/// What the release feed reports about the latest release.
#[derive(Debug, Clone)]
pub struct ReleaseInfo {
    pub tag_name: String,
    pub name: String,
    pub body: String,
    pub html_url: String,
    pub published_at: String,
}

/// The dot-separated pieces of a version string, after one leading `v`.
pub open spec fn version_parts(s: Seq<char>) -> Seq<Seq<char>> {
    let t = if s.len() > 0 && s[0] == 'v' {
        s.drop_first()
    } else {
        s
    };
    split_char(t, '.')
}

/// `major.minor.patch` with an optional leading `v`; pieces after the third
/// are ignored, and each of the first three must parse as a `u32`.
pub open spec fn semver(s: Seq<char>) -> Option<(u32, u32, u32)> {
    let p = version_parts(s);
    if p.len() >= 3 && parse_u32(p[0]) is Some && parse_u32(p[1]) is Some && parse_u32(
        p[2],
    ) is Some {
        Some((parse_u32(p[0])->0, parse_u32(p[1])->0, parse_u32(p[2])->0))
    } else {
        None
    }
}

/// Lexicographic order on `(major, minor, patch)`: `a` is newer than `b`.
pub open spec fn newer(a: (u32, u32, u32), b: (u32, u32, u32)) -> bool {
    a.0 > b.0 || (a.0 == b.0 && (a.1 > b.1 || (a.1 == b.1 && a.2 > b.2)))
}

pub fn parse_semver(s: &str) -> (r: Option<(u32, u32, u32)>)
    ensures
        r == semver(s@),
{
    let cs = str_chars(s);
    let start: usize = if cs.len() > 0 && cs[0] == 'v' {
        1
    } else {
        0
    };
    let mut t: Vec<char> = Vec::new();
    let mut i: usize = start;
    while i < cs.len()
        invariant
            start <= i <= cs@.len(),
            t@ == cs@.subrange(start as int, i as int),
        decreases cs@.len() - i,
    {
        t.push(cs[i]);
        i = i + 1;
        proof {
            assert(t@ =~= cs@.subrange(start as int, i as int));
        }
    }
    proof {
        if start == 1 {
            assert(t@ =~= s@.drop_first());
        } else {
            assert(t@ =~= s@);
        }
    }
    let parts = split_chars(t.as_slice(), '.');
    proof {
        assert(parts@.len() == version_parts(s@).len());
    }
    if parts.len() < 3 {
        return None;
    }
    proof {
        assert(parts@[0]@ == version_parts(s@)[0]);
        assert(parts@[1]@ == version_parts(s@)[1]);
        assert(parts@[2]@ == version_parts(s@)[2]);
    }
    let major = match parse_u32_chars(parts[0].as_slice()) {
        Some(v) => v,
        None => {
            return None;
        },
    };
    let minor = match parse_u32_chars(parts[1].as_slice()) {
        Some(v) => v,
        None => {
            return None;
        },
    };
    let patch = match parse_u32_chars(parts[2].as_slice()) {
        Some(v) => v,
        None => {
            return None;
        },
    };
    Some((major, minor, patch))
}

/// Whether version `a` is newer than version `b`.
pub fn is_newer(a: (u32, u32, u32), b: (u32, u32, u32)) -> (r: bool)
    ensures
        r == newer(a, b),
{
    a.0 > b.0 || (a.0 == b.0 && (a.1 > b.1 || (a.1 == b.1 && a.2 > b.2)))
}

/// Whether a release tagged `tag` is an update for the running version
/// `current`: both must parse, and the tag must be strictly newer.
pub fn update_available(tag: &str, current: &str) -> (r: bool)
    ensures
        r == (semver(tag@) is Some && semver(current@) is Some && newer(
            semver(tag@)->0,
            semver(current@)->0,
        )),
{
    let remote = match parse_semver(tag) {
        Some(v) => v,
        None => {
            return false;
        },
    };
    let local = match parse_semver(current) {
        Some(v) => v,
        None => {
            return false;
        },
    };
    is_newer(remote, local)
}

/// `a.b.c`, the text of a version.
pub open spec fn version_text(a: u32, b: u32, c: u32) -> Seq<char> {
    decimal(a as nat) + seq!['.'] + decimal(b as nat) + seq!['.'] + decimal(c as nat)
}

proof fn lemma_decimal_no_dot(n: u32)
    ensures
        !decimal(n as nat).contains('.'),
        decimal(n as nat)[0] != 'v',
{
    lemma_decimal_digits(n as nat);
    let d = decimal(n as nat);
    if d.contains('.') {
        let i = choose|i: int| 0 <= i < d.len() && d[i] == '.';
        assert(all_digits(d));
        assert('0' <= d[i] <= '9');
    }
    assert('0' <= d[0] <= '9');
}

/// Parsing a version written as `a.b.c`, with or without a leading `v`,
/// gives `(a, b, c)` back.
pub proof fn lemma_semver_round_trip(a: u32, b: u32, c: u32)
    ensures
        semver(version_text(a, b, c)) == Some((a, b, c)),
        semver(seq!['v'] + version_text(a, b, c)) == Some((a, b, c)),
{
    let (da, db, dc) = (decimal(a as nat), decimal(b as nat), decimal(c as nat));
    lemma_decimal_no_dot(a);
    lemma_decimal_no_dot(b);
    lemma_decimal_no_dot(c);
    lemma_split_char_single(da, '.');
    lemma_split_char_append(da, db, '.');
    lemma_split_char_append(da + seq!['.'] + db, dc, '.');
    lemma_parse_decimal(a);
    lemma_parse_decimal(b);
    lemma_parse_decimal(c);
    let t = version_text(a, b, c);
    let p = split_char(t, '.');
    assert(p =~= seq![da, db, dc]);
    lemma_decimal_digits(a as nat);
    assert(t[0] == da[0]);
    assert(version_parts(t) == p);
    assert((seq!['v'] + t).drop_first() =~= t);
    assert(version_parts(seq!['v'] + t) == p);
}

/// Newer releases are never older: the order has no cycles of length two.
pub proof fn lemma_newer_asymmetric(a: (u32, u32, u32), b: (u32, u32, u32))
    ensures
        newer(a, b) ==> !newer(b, a),
{
}

/// If `a` is newer than `b` and `b` newer than `c`, then `a` is newer than `c`.
pub proof fn lemma_newer_transitive(a: (u32, u32, u32), b: (u32, u32, u32), c: (u32, u32, u32))
    requires
        newer(a, b),
        newer(b, c),
    ensures
        newer(a, c),
{
}

} // verus!
