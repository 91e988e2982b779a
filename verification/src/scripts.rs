//! JavaScript handed to the WhatsApp pages: the bootstrap script that seeds
//! `window.__ZW` from a template, and the small snippets that update a live
//! page (account name, active state, password flag, blur, theme).

use vstd::prelude::*;

use crate::text::{decimal, push_decimal, push_str_chars, starts_with, str_chars, string_from_chars};

verus! {

/// The lower-case hex digit of `n` (below 16).
pub open spec fn hex_digit(n: int) -> char {
    if n < 10 {
        (n + '0' as int) as char
    } else {
        (n - 10 + 'a' as int) as char
    }
}

/// How `serde_json` writes one character inside a string literal: `"` and
/// `\` behind a backslash, the control characters with a short escape
/// (`\b`, `\t`, `\n`, `\f`, `\r`), every other control character below
/// U+0020 as `\u00XX` in lower-case hex, and anything else as it is.
pub open spec fn json_escape(c: char) -> Seq<char> {
    if c == '"' {
        seq!['\\', '"']
    } else if c == '\\' {
        seq!['\\', '\\']
    } else if c == '\u{8}' {
        seq!['\\', 'b']
    } else if c == '\t' {
        seq!['\\', 't']
    } else if c == '\n' {
        seq!['\\', 'n']
    } else if c == '\u{c}' {
        seq!['\\', 'f']
    } else if c == '\r' {
        seq!['\\', 'r']
    } else if (c as int) < 0x20 {
        seq!['\\', 'u', '0', '0', hex_digit(c as int / 16), hex_digit(c as int % 16)]
    } else {
        seq![c]
    }
}

/// The characters of `s`, each escaped with [`json_escape`].
pub open spec fn json_escaped(s: Seq<char>) -> Seq<char>
    decreases s.len(),
{
    if s.len() == 0 {
        Seq::<char>::empty()
    } else {
        json_escaped(s.drop_last()) + json_escape(s.last())
    }
}

/// The JSON string literal that `serde_json::to_string` writes for `s`: the
/// escaped characters between double quotes.
pub open spec fn json_quoted(s: Seq<char>) -> Seq<char> {
    seq!['"'] + json_escaped(s) + seq!['"']
}

/// Whether `t` reads as the inside of a string literal: it holds no bare `"`,
/// and every `\` starts a two-character escape.
pub open spec fn string_body(t: Seq<char>) -> bool
    decreases t.len(),
{
    if t.len() == 0 {
        true
    } else if t[0] == '\\' {
        t.len() >= 2 && string_body(t.skip(2))
    } else {
        t[0] != '"' && string_body(t.skip(1))
    }
}

proof fn lemma_string_body_concat(a: Seq<char>, b: Seq<char>)
    requires
        string_body(a),
        string_body(b),
    ensures
        string_body(a + b),
    decreases a.len(),
{
    if a.len() > 0 {
        if a[0] == '\\' {
            lemma_string_body_concat(a.skip(2), b);
            assert((a + b).skip(2) =~= a.skip(2) + b);
        } else {
            lemma_string_body_concat(a.skip(1), b);
            assert((a + b).skip(1) =~= a.skip(1) + b);
        }
        assert((a + b)[0] == a[0]);
    } else {
        assert(a + b =~= b);
    }
}

proof fn lemma_hex_digit_plain(n: int)
    requires
        0 <= n < 16,
    ensures
        hex_digit(n) != '"',
        hex_digit(n) != '\\',
{
    if n < 10 {
        assert((hex_digit(n) as int) == n + 48);
    } else {
        assert((hex_digit(n) as int) == n + 87);
    }
}

proof fn lemma_json_escape_body(c: char)
    ensures
        string_body(json_escape(c)),
{
    let e = json_escape(c);
    if e.len() == 2 {
        assert(e.skip(2) =~= Seq::<char>::empty());
        assert(string_body(e.skip(2)));
        assert(e[0] == '\\');
    } else if e.len() == 1 {
        assert(e.skip(1) =~= Seq::<char>::empty());
        assert(string_body(e.skip(1)));
        assert(e[0] != '"' && e[0] != '\\');
    } else {
        let n = c as int;
        assert(0 <= n / 16 <= 1);
        assert(0 <= n % 16 < 16);
        let a = hex_digit(n / 16);
        let b = hex_digit(n % 16);
        lemma_hex_digit_plain(n / 16);
        lemma_hex_digit_plain(n % 16);
        let t = e.skip(2);
        assert(e =~= seq!['\\', 'u', '0', '0', a, b]);
        assert(t =~= seq!['0', '0', a, b]);
        let t1 = seq!['0', a, b];
        let t2 = seq![a, b];
        let t3 = seq![b];
        let t4 = Seq::<char>::empty();
        assert(string_body(t4));
        assert(t3.skip(1) =~= t4);
        assert(string_body(t3));
        assert(t2.skip(1) =~= t3);
        assert(string_body(t2));
        assert(t1.skip(1) =~= t2);
        assert(string_body(t1));
        assert(t.skip(1) =~= t1);
        assert(string_body(t));
        assert(string_body(e));
    }
}

/// A JSON-quoted string cannot end its string literal early: between the
/// opening and closing quotes, every `"` and `\` of the text is escaped. So
/// an account name dropped into a script this way stays one string value.
pub proof fn lemma_json_quoted_stays_string(s: Seq<char>)
    ensures
        json_quoted(s) == seq!['"'] + json_escaped(s) + seq!['"'],
        string_body(json_escaped(s)),
    decreases s.len(),
{
    if s.len() > 0 {
        lemma_json_quoted_stays_string(s.drop_last());
        lemma_json_escape_body(s.last());
        lemma_string_body_concat(json_escaped(s.drop_last()), json_escape(s.last()));
    }
}

/// The text that `format!("{:?}", s)` writes for the string `s`: Rust's
/// quoted, escaped debug form.
pub uninterp spec fn debug_quoted(s: Seq<char>) -> Seq<char>;

/// `serde_json::to_string` on a string slice: the string between double
/// quotes with `"`, `\` and the control characters below U+0020 escaped
/// (`format_escaped_str` and its `ESCAPE` table in `serde_json::ser`).
/// Serializing a `str` into an in-memory buffer cannot fail, so the `expect`
/// never fires.
#[verifier::external_body]
fn json_string(s: &str) -> (r: String)
    ensures
        r@ == json_quoted(s@),
{
    serde_json::to_string(s).expect("a string is always JSON serializable")
}

/// `format!("{:?}", s)` for a string slice; only claimed to be the named text.
#[verifier::external_body]
fn debug_string(s: &str) -> (r: String)
    ensures
        r@ == debug_quoted(s@),
{
    format!("{s:?}")
}

/// `hay` with every occurrence of the non-empty `pat` replaced by `rep`,
/// matched left to right without overlaps, as `str::replace` does.
pub open spec fn replace_all(hay: Seq<char>, pat: Seq<char>, rep: Seq<char>) -> Seq<char>
    decreases hay.len(),
{
    if hay.len() == 0 || pat.len() == 0 {
        hay
    } else if starts_with(hay, pat) {
        rep + replace_all(hay.skip(pat.len() as int), pat, rep)
    } else {
        seq![hay[0]] + replace_all(hay.skip(1), pat, rep)
    }
}

fn matches_at(hay: &[char], pat: &[char], i: usize) -> (r: bool)
    requires
        i <= hay@.len(),
    ensures
        r == starts_with(hay@.skip(i as int), pat@),
{
    let n = hay.len();
    if pat.len() > n - i {
        return false;
    }
    let mut k: usize = 0;
    while k < pat.len()
        invariant
            n == hay@.len(),
            i + pat@.len() <= n,
            k <= pat@.len(),
            forall|m: int| 0 <= m < k ==> hay@[i + m] == pat@[m],
        decreases pat@.len() - k,
    {
        if hay[i + k] != pat[k] {
            proof {
                assert(hay@.skip(i as int).subrange(0, pat@.len() as int)[k as int] == hay@[i + k]);
            }
            return false;
        }
        k = k + 1;
    }
    proof {
        assert(hay@.skip(i as int).subrange(0, pat@.len() as int) =~= pat@);
    }
    true
}

/// `hay` with every occurrence of `pat` replaced by `rep`.
pub fn replace_chars(hay: &[char], pat: &[char], rep: &[char]) -> (r: Vec<char>)
    requires
        pat@.len() > 0,
    ensures
        r@ == replace_all(hay@, pat@, rep@),
{
    let n = hay.len();
    let mut out: Vec<char> = Vec::new();
    let mut i: usize = 0;
    proof {
        assert(hay@.skip(0) =~= hay@);
        assert(out@ + replace_all(hay@, pat@, rep@) =~= replace_all(hay@, pat@, rep@));
    }
    while i < n
        invariant
            n == hay@.len(),
            i <= n,
            pat@.len() > 0,
            replace_all(hay@, pat@, rep@) == out@ + replace_all(hay@.skip(i as int), pat@, rep@),
        decreases n - i,
    {
        let ghost rest = hay@.skip(i as int);
        if matches_at(hay, pat, i) {
            let ghost before = out@;
            let mut k: usize = 0;
            while k < rep.len()
                invariant
                    k <= rep@.len(),
                    out@ == before + rep@.take(k as int),
                decreases rep@.len() - k,
            {
                out.push(rep[k]);
                k = k + 1;
                proof {
                    assert(out@ =~= before + rep@.take(k as int));
                }
            }
            proof {
                assert(rep@.take(k as int) =~= rep@);
                assert(rest.skip(pat@.len() as int) =~= hay@.skip(i + pat@.len()));
                assert(before + rep@ + replace_all(hay@.skip(i + pat@.len()), pat@, rep@) =~= before
                    + (rep@ + replace_all(hay@.skip(i + pat@.len()), pat@, rep@)));
            }
            i = i + pat.len();
        } else {
            proof {
                assert(rest[0] == hay@[i as int]);
                assert(rest.skip(1) =~= hay@.skip(i + 1));
                assert(out@.push(hay@[i as int]) + replace_all(hay@.skip(i + 1), pat@, rep@)
                    =~= out@ + (seq![hay@[i as int]] + replace_all(hay@.skip(i + 1), pat@, rep@)));
            }
            out.push(hay[i]);
            i = i + 1;
        }
    }
    proof {
        assert(hay@.skip(n as int) =~= Seq::<char>::empty());
        assert(out@ + Seq::<char>::empty() =~= out@);
    }
    out
}

/// `true` or `false`, as `bool::to_string` writes it.
pub open spec fn bool_text(b: bool) -> Seq<char> {
    if b {
        seq!['t', 'r', 'u', 'e']
    } else {
        seq!['f', 'a', 'l', 's', 'e']
    }
}

fn push_bool(cs: &mut Vec<char>, b: bool)
    ensures
        final(cs)@ == old(cs)@ + bool_text(b),
{
    if b {
        cs.push('t');
        cs.push('r');
        cs.push('u');
        cs.push('e');
    } else {
        cs.push('f');
        cs.push('a');
        cs.push('l');
        cs.push('s');
        cs.push('e');
    }
    proof {
        assert(final(cs)@ =~= old(cs)@ + bool_text(b));
    }
}

/// `template` with each quoted placeholder replaced, in order: the theme by
/// `theme_literal`, the numbers by their decimal text, the flags by `true` or
/// `false`, and the account name by `name_literal`.
pub open spec fn filled_template(
    template: Seq<char>,
    theme_literal: Seq<char>,
    auto_lock_minutes: u32,
    has_password: bool,
    spellcheck: bool,
    account_id: u32,
    name_literal: Seq<char>,
) -> Seq<char> {
    let t1 = replace_all(template, "\"__ZW_THEME__\""@, theme_literal);
    let t2 = replace_all(t1, "\"__ZW_AUTO_LOCK_MINUTES__\""@, decimal(auto_lock_minutes as nat));
    let t3 = replace_all(t2, "\"__ZW_HAS_PASSWORD__\""@, bool_text(has_password));
    let t4 = replace_all(t3, "\"__ZW_SPELLCHECK__\""@, bool_text(spellcheck));
    let t5 = replace_all(t4, "\"__ZW_ACCOUNT_ID__\""@, decimal(account_id as nat));
    replace_all(t5, "\"__ZW_ACCOUNT_NAME__\""@, name_literal)
}

/// The bootstrap script: the template filled with the theme as a Rust debug
/// string literal and the account name as a JSON string literal.
pub open spec fn bootstrap_text(
    template: Seq<char>,
    wa_theme: Seq<char>,
    auto_lock_minutes: u32,
    has_password: bool,
    spellcheck: bool,
    account_id: u32,
    account_name: Seq<char>,
) -> Seq<char> {
    filled_template(
        template,
        debug_quoted(wa_theme),
        auto_lock_minutes,
        has_password,
        spellcheck,
        account_id,
        json_quoted(account_name),
    )
}

/// Whether no `"` in `t` is followed by `_`: no quoted placeholder can
/// start anywhere in `t`.
pub open spec fn no_placeholder_start(t: Seq<char>) -> bool {
    forall|i: int| 0 <= i < t.len() - 1 && #[trigger] t[i] == '"' ==> t[i + 1] != '_'
}

/// A pattern that starts with `"_` is not found in text where no `"` is
/// followed by `_`, so replacing it changes nothing.
proof fn lemma_replace_absent(t: Seq<char>, p: Seq<char>, r: Seq<char>)
    requires
        p.len() >= 2,
        p[0] == '"',
        p[1] == '_',
        no_placeholder_start(t),
    ensures
        replace_all(t, p, r) == t,
    decreases t.len(),
{
    if t.len() > 0 {
        if starts_with(t, p) {
            assert(t.subrange(0, p.len() as int)[0] == p[0]);
            assert(t.subrange(0, p.len() as int)[1] == p[1]);
            assert(t[0] == '"' && t[1] == '_');
        }
        let u = t.skip(1);
        assert forall|i: int| 0 <= i < u.len() - 1 && #[trigger] u[i] == '"' implies u[i + 1]
            != '_' by {
            assert(t[i + 1] == '"');
        }
        lemma_replace_absent(u, p, r);
        assert(seq![t[0]] + u =~= t);
    }
}

/// Replacing one placeholder in a lone other placeholder `t` changes nothing:
/// `p` differs from `t`'s start at `d`, or is longer than `t`.
proof fn lemma_replace_other(t: Seq<char>, p: Seq<char>, r: Seq<char>, d: int)
    requires
        t.len() >= 1,
        no_placeholder_start(t.skip(1)),
        p.len() >= 2,
        p[0] == '"',
        p[1] == '_',
        p.len() > t.len() || (0 <= d < p.len() && d < t.len() && t[d] != p[d]),
    ensures
        replace_all(t, p, r) == t,
{
    if starts_with(t, p) {
        assert(t.subrange(0, p.len() as int)[d] == p[d]);
    }
    lemma_replace_absent(t.skip(1), p, r);
    assert(seq![t[0]] + t.skip(1) =~= t);
}

proof fn lemma_replace_self(p: Seq<char>, r: Seq<char>)
    requires
        p.len() > 0,
    ensures
        replace_all(p, p, r) == r,
{
    assert(p.subrange(0, p.len() as int) =~= p);
    assert(starts_with(p, p));
    assert(p.skip(p.len() as int) =~= Seq::<char>::empty());
    assert(replace_all(Seq::<char>::empty(), p, r) == Seq::<char>::empty());
    assert(replace_all(p, p, r) == r + replace_all(p.skip(p.len() as int), p, r));
    assert(r + Seq::<char>::empty() =~= r);
}

proof fn lemma_number_text_plain(n: u32)
    ensures
        no_placeholder_start(decimal(n as nat)),
{
    crate::text::lemma_decimal_digits(n as nat);
    let d = decimal(n as nat);
    assert forall|i: int| 0 <= i < d.len() - 1 && #[trigger] d[i] == '"' implies d[i + 1] != '_' by {
        assert(crate::text::is_digit(d[i]));
    }
}

/// Each placeholder takes the value of its own argument and of no other: a
/// template made of one quoted placeholder becomes exactly the text of that
/// argument, whatever the other arguments are (the theme literal when it
/// holds no placeholder start itself, as the quoted theme names do).
pub proof fn lemma_placeholder_values(
    theme_literal: Seq<char>,
    minutes: u32,
    has_password: bool,
    spellcheck: bool,
    account_id: u32,
    name_literal: Seq<char>,
)
    ensures
        no_placeholder_start(theme_literal) ==> filled_template(
            "\"__ZW_THEME__\""@,
            theme_literal,
            minutes,
            has_password,
            spellcheck,
            account_id,
            name_literal,
        ) == theme_literal,
        filled_template(
            "\"__ZW_AUTO_LOCK_MINUTES__\""@,
            theme_literal,
            minutes,
            has_password,
            spellcheck,
            account_id,
            name_literal,
        ) == decimal(minutes as nat),
        filled_template(
            "\"__ZW_HAS_PASSWORD__\""@,
            theme_literal,
            minutes,
            has_password,
            spellcheck,
            account_id,
            name_literal,
        ) == (if has_password {
            "true"@
        } else {
            "false"@
        }),
        filled_template(
            "\"__ZW_SPELLCHECK__\""@,
            theme_literal,
            minutes,
            has_password,
            spellcheck,
            account_id,
            name_literal,
        ) == (if spellcheck {
            "true"@
        } else {
            "false"@
        }),
        filled_template(
            "\"__ZW_ACCOUNT_ID__\""@,
            theme_literal,
            minutes,
            has_password,
            spellcheck,
            account_id,
            name_literal,
        ) == decimal(account_id as nat),
        filled_template(
            "\"__ZW_ACCOUNT_NAME__\""@,
            theme_literal,
            minutes,
            has_password,
            spellcheck,
            account_id,
            name_literal,
        ) == name_literal,
{
    let pt = "\"__ZW_THEME__\""@;
    let pm = "\"__ZW_AUTO_LOCK_MINUTES__\""@;
    let ph = "\"__ZW_HAS_PASSWORD__\""@;
    let ps = "\"__ZW_SPELLCHECK__\""@;
    let pi = "\"__ZW_ACCOUNT_ID__\""@;
    let pn = "\"__ZW_ACCOUNT_NAME__\""@;
    reveal_strlit("\"__ZW_THEME__\"");
    reveal_strlit("\"__ZW_AUTO_LOCK_MINUTES__\"");
    reveal_strlit("\"__ZW_HAS_PASSWORD__\"");
    reveal_strlit("\"__ZW_SPELLCHECK__\"");
    reveal_strlit("\"__ZW_ACCOUNT_ID__\"");
    reveal_strlit("\"__ZW_ACCOUNT_NAME__\"");
    reveal_strlit("true");
    reveal_strlit("false");
    let tv = bool_text(true);
    let fv = bool_text(false);
    assert(tv =~= "true"@);
    assert(fv =~= "false"@);
    let hv = bool_text(has_password);
    let sv = bool_text(spellcheck);
    assert(no_placeholder_start(hv));
    assert(no_placeholder_start(sv));
    lemma_number_text_plain(minutes);
    lemma_number_text_plain(account_id);
    let mv = decimal(minutes as nat);
    let iv = decimal(account_id as nat);
    assert(no_placeholder_start(pt.skip(1)));
    assert(no_placeholder_start(pm.skip(1)));
    assert(no_placeholder_start(ph.skip(1)));
    assert(no_placeholder_start(ps.skip(1)));
    assert(no_placeholder_start(pi.skip(1)));
    assert(no_placeholder_start(pn.skip(1)));
    // THEME
    lemma_replace_self(pt, theme_literal);
    if no_placeholder_start(theme_literal) {
        lemma_replace_absent(theme_literal, pm, mv);
        lemma_replace_absent(theme_literal, ph, hv);
        lemma_replace_absent(theme_literal, ps, sv);
        lemma_replace_absent(theme_literal, pi, iv);
        lemma_replace_absent(theme_literal, pn, name_literal);
    }
    // AUTO_LOCK_MINUTES
    lemma_replace_other(pm, pt, theme_literal, 6);
    lemma_replace_self(pm, mv);
    lemma_replace_absent(mv, ph, hv);
    lemma_replace_absent(mv, ps, sv);
    lemma_replace_absent(mv, pi, iv);
    lemma_replace_absent(mv, pn, name_literal);
    // HAS_PASSWORD
    lemma_replace_other(ph, pt, theme_literal, 6);
    lemma_replace_other(ph, pm, mv, 0);
    lemma_replace_self(ph, hv);
    lemma_replace_absent(hv, ps, sv);
    lemma_replace_absent(hv, pi, iv);
    lemma_replace_absent(hv, pn, name_literal);
    // SPELLCHECK
    lemma_replace_other(ps, pt, theme_literal, 6);
    lemma_replace_other(ps, pm, mv, 0);
    lemma_replace_other(ps, ph, hv, 0);
    lemma_replace_self(ps, sv);
    lemma_replace_absent(sv, pi, iv);
    lemma_replace_absent(sv, pn, name_literal);
    // ACCOUNT_ID
    lemma_replace_other(pi, pt, theme_literal, 6);
    lemma_replace_other(pi, pm, mv, 0);
    lemma_replace_other(pi, ph, hv, 0);
    lemma_replace_other(pi, ps, sv, 6);
    lemma_replace_self(pi, iv);
    lemma_replace_absent(iv, pn, name_literal);
    // ACCOUNT_NAME
    lemma_replace_other(pn, pt, theme_literal, 6);
    lemma_replace_other(pn, pm, mv, 0);
    lemma_replace_other(pn, ph, hv, 6);
    lemma_replace_other(pn, ps, sv, 6);
    lemma_replace_other(pn, pi, iv, 14);
    lemma_replace_self(pn, name_literal);
}

fn replace_step(hay: Vec<char>, pat: &str, rep: &[char]) -> (r: Vec<char>)
    requires
        pat@.len() > 0,
    ensures
        r@ == replace_all(hay@, pat@, rep@),
{
    let p = str_chars(pat);
    replace_chars(hay.as_slice(), p.as_slice(), rep)
}

proof fn lemma_placeholders_nonempty()
    ensures
        "\"__ZW_THEME__\""@.len() > 0,
        "\"__ZW_AUTO_LOCK_MINUTES__\""@.len() > 0,
        "\"__ZW_HAS_PASSWORD__\""@.len() > 0,
        "\"__ZW_SPELLCHECK__\""@.len() > 0,
        "\"__ZW_ACCOUNT_ID__\""@.len() > 0,
        "\"__ZW_ACCOUNT_NAME__\""@.len() > 0,
{
    reveal_strlit("\"__ZW_THEME__\"");
    reveal_strlit("\"__ZW_AUTO_LOCK_MINUTES__\"");
    reveal_strlit("\"__ZW_HAS_PASSWORD__\"");
    reveal_strlit("\"__ZW_SPELLCHECK__\"");
    reveal_strlit("\"__ZW_ACCOUNT_ID__\"");
    reveal_strlit("\"__ZW_ACCOUNT_NAME__\"");
}

/// The first script to run on an account page: seeds `window.__ZW` with the
/// global settings plus the immutable account identity the other scripts
/// attach to their events.
pub fn bootstrap(
    template: &str,
    wa_theme: &str,
    auto_lock_minutes: u32,
    has_password: bool,
    spellcheck: bool,
    account_id: u32,
    account_name: &str,
) -> (r: String)
    ensures
        r@ == bootstrap_text(
            template@,
            wa_theme@,
            auto_lock_minutes,
            has_password,
            spellcheck,
            account_id,
            account_name@,
        ),
{
    let theme = debug_string(wa_theme);
    let name = json_string(account_name);
    fill_template(
        template,
        theme.as_str(),
        auto_lock_minutes,
        has_password,
        spellcheck,
        account_id,
        name.as_str(),
    )
}

/// Fills the bootstrap template with already-quoted theme and name literals.
pub fn fill_template(
    template: &str,
    theme_literal: &str,
    auto_lock_minutes: u32,
    has_password: bool,
    spellcheck: bool,
    account_id: u32,
    name_literal: &str,
) -> (r: String)
    ensures
        r@ == filled_template(
            template@,
            theme_literal@,
            auto_lock_minutes,
            has_password,
            spellcheck,
            account_id,
            name_literal@,
        ),
{
    proof {
        lemma_placeholders_nonempty();
    }
    let t0 = str_chars(template);
    let v1 = str_chars(theme_literal);
    let t1 = replace_step(t0, "\"__ZW_THEME__\"", v1.as_slice());
    let mut v2: Vec<char> = Vec::new();
    push_decimal(&mut v2, auto_lock_minutes);
    proof {
        assert(v2@ =~= decimal(auto_lock_minutes as nat));
    }
    let t2 = replace_step(t1, "\"__ZW_AUTO_LOCK_MINUTES__\"", v2.as_slice());
    let mut v3: Vec<char> = Vec::new();
    push_bool(&mut v3, has_password);
    proof {
        assert(v3@ =~= bool_text(has_password));
    }
    let t3 = replace_step(t2, "\"__ZW_HAS_PASSWORD__\"", v3.as_slice());
    let mut v4: Vec<char> = Vec::new();
    push_bool(&mut v4, spellcheck);
    proof {
        assert(v4@ =~= bool_text(spellcheck));
    }
    let t4 = replace_step(t3, "\"__ZW_SPELLCHECK__\"", v4.as_slice());
    let mut v5: Vec<char> = Vec::new();
    push_decimal(&mut v5, account_id);
    proof {
        assert(v5@ =~= decimal(account_id as nat));
    }
    let t5 = replace_step(t4, "\"__ZW_ACCOUNT_ID__\"", v5.as_slice());
    let v6 = str_chars(name_literal);
    let t6 = replace_step(t5, "\"__ZW_ACCOUNT_NAME__\"", v6.as_slice());
    string_from_chars(t6.as_slice())
}

/// `if (window.__ZW) window.__ZW.accountName = <json name>;`
pub fn account_name_script(name: &str) -> (r: String)
    ensures
        r@ == "if (window.__ZW) window.__ZW.accountName = "@ + json_quoted(name@) + seq![';'],
{
    let mut cs: Vec<char> = Vec::new();
    push_str_chars(&mut cs, "if (window.__ZW) window.__ZW.accountName = ");
    let j = json_string(name);
    push_str_chars(&mut cs, j.as_str());
    cs.push(';');
    proof {
        assert(cs@ =~= "if (window.__ZW) window.__ZW.accountName = "@ + json_quoted(name@)
            + seq![';']);
    }
    string_from_chars(cs.as_slice())
}

/// Updates one page's account name and active flag.
pub fn account_metadata_script(name: &str, active: bool) -> (r: String)
    ensures
        r@ == "if (window.__ZW) { window.__ZW.accountName = "@ + json_quoted(name@)
            + "; window.__ZW.isActiveAccount = "@ + bool_text(active) + "; }"@,
{
    let mut cs: Vec<char> = Vec::new();
    push_str_chars(&mut cs, "if (window.__ZW) { window.__ZW.accountName = ");
    let j = json_string(name);
    push_str_chars(&mut cs, j.as_str());
    push_str_chars(&mut cs, "; window.__ZW.isActiveAccount = ");
    push_bool(&mut cs, active);
    push_str_chars(&mut cs, "; }");
    string_from_chars(cs.as_slice())
}

/// Tells a page whether a password is set.
pub fn has_password_script(has_password: bool) -> (r: String)
    ensures
        r@ == "if (window.__ZW) window.__ZW.hasPassword = "@ + bool_text(has_password) + seq![';'],
{
    let mut cs: Vec<char> = Vec::new();
    push_str_chars(&mut cs, "if (window.__ZW) window.__ZW.hasPassword = ");
    push_bool(&mut cs, has_password);
    cs.push(';');
    proof {
        assert(cs@ =~= "if (window.__ZW) window.__ZW.hasPassword = "@ + bool_text(has_password)
            + seq![';']);
    }
    string_from_chars(cs.as_slice())
}

/// Blurs or clears a page.
pub fn blur_script(blur: bool) -> (r: String)
    ensures
        r@ == "if (window.__ZW && window.__ZW.setBlur) window.__ZW.setBlur("@ + bool_text(blur)
            + ");"@,
{
    let mut cs: Vec<char> = Vec::new();
    push_str_chars(&mut cs, "if (window.__ZW && window.__ZW.setBlur) window.__ZW.setBlur(");
    push_bool(&mut cs, blur);
    push_str_chars(&mut cs, ");");
    string_from_chars(cs.as_slice())
}

/// Stores the WhatsApp theme value in the page and reloads it.
pub fn theme_script(wa_theme: &str) -> (r: String)
    ensures
        r@ == "(function(){ try { localStorage.setItem('theme', '\""@ + wa_theme@
            + "\"'); location.reload(); } catch (e) {} })();"@,
{
    let mut cs: Vec<char> = Vec::new();
    push_str_chars(&mut cs, "(function(){ try { localStorage.setItem('theme', '\"");
    push_str_chars(&mut cs, wa_theme);
    push_str_chars(&mut cs, "\"'); location.reload(); } catch (e) {} })();");
    string_from_chars(cs.as_slice())
}

} // verus!
