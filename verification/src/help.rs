//! The help index: a C-like header mapping application help keys to
//! documentation paths through `#define` macros and `HELP_URL(key, expr)`
//! entries. Comments are stripped first, each entry's expression is
//! expanded against the macros, a `docs` segment is inserted after the
//! first path component, and `.md` is appended.

use vstd::prelude::*;
use vstd::string::*;
use crate::content::{skip_ws_from, skip_ws_idx};
use crate::links::is_alnum;
use crate::nav::docs_seg;
use crate::paths::{
    is_abs, is_space_char, join_path, join_spec, path_is_abs, path_parts, path_segs, push_char,
    render, render_path, str_eq, substr_eq, substring, trim_spec, trim_ws,
};
use crate::resolve::dot_md;

verus! {

// ---------------------------------------------------------------------------
// Comment stripping
// ---------------------------------------------------------------------------

/// The content with `//` and `/* */` comments removed, scanning `s` with
/// `acc` already produced; `in_block` says a block comment is open.
pub open spec fn strip_c(s: Seq<char>, acc: Seq<char>, in_block: bool) -> Seq<char>
    decreases s.len(), 0int,
{
    if s.len() == 0 {
        acc
    } else if in_block {
        if s[0] == '*' && s.len() >= 2 && s[1] == '/' {
            strip_c(s.skip(2), acc, false)
        } else {
            strip_c(s.drop_first(), acc, true)
        }
    } else if s[0] == '/' && s.len() >= 2 && s[1] == '/' {
        strip_line(s.skip(2), acc)
    } else if s[0] == '/' && s.len() >= 2 && s[1] == '*' {
        strip_c(s.skip(2), acc, true)
    } else {
        strip_c(s.drop_first(), acc.push(s[0]), false)
    }
}

/// Inside a line comment: everything up to and including the newline goes,
/// the newline itself stays.
pub open spec fn strip_line(s: Seq<char>, acc: Seq<char>) -> Seq<char>
    decreases s.len(), 1int,
{
    if s.len() == 0 {
        acc
    } else if s[0] == '\n' {
        strip_c(s.drop_first(), acc.push('\n'), false)
    } else {
        strip_line(s.drop_first(), acc)
    }
}

/// Remove `//` line comments (keeping the newline) and `/* */` block
/// comments from C-like header content.
#[verifier::loop_isolation(false)]
pub fn strip_c_comments(content: &str) -> (r: String)
    ensures
        r@ == strip_c(content@, Seq::empty(), false),
{
    let n = content.unicode_len();
    let mut out = String::new();
    let mut in_block = false;
    let mut in_line = false;
    let mut i: usize = 0;
    proof {
        assert(content@.skip(0) =~= content@);
    }
    while i < n
        invariant
            i <= n,
            n == content@.len(),
            !(in_block && in_line),
            strip_c(content@, Seq::empty(), false) == if in_line {
                strip_line(content@.skip(i as int), out@)
            } else {
                strip_c(content@.skip(i as int), out@, in_block)
            },
        decreases n - i,
    {
        let ghost rest = content@.skip(i as int);
        let c = content.get_char(i);
        proof {
            assert(rest[0] == c);
            assert(rest.drop_first() =~= content@.skip(i + 1));
            if i + 2 <= n {
                assert(rest.skip(2) =~= content@.skip(i + 2));
            }
            if i + 1 < n {
                assert(rest[1] == content@[i + 1]);
            }
        }
        if in_line {
            if c == '\n' {
                push_char(&mut out, '\n');
                in_line = false;
            }
            i = i + 1;
        } else if in_block {
            if c == '*' && i + 1 < n && content.get_char(i + 1) == '/' {
                in_block = false;
                i = i + 2;
            } else {
                i = i + 1;
            }
        } else if c == '/' && i + 1 < n && content.get_char(i + 1) == '/' {
            in_line = true;
            i = i + 2;
        } else if c == '/' && i + 1 < n && content.get_char(i + 1) == '*' {
            in_block = true;
            i = i + 2;
        } else {
            push_char(&mut out, c);
            i = i + 1;
        }
    }
    proof {
        assert(content@.skip(n as int) =~= Seq::<char>::empty());
    }
    out
}

// ---------------------------------------------------------------------------
// Macro definitions
// ---------------------------------------------------------------------------

/// A word character: letter, digit or underscore.
pub open spec fn is_word_char(c: char) -> bool {
    is_alnum(c) || c == '_'
}

/// First index at or after `k` holding no word character.
pub open spec fn word_end(s: Seq<char>, k: int) -> int
    decreases s.len() - k,
{
    if 0 <= k < s.len() && is_word_char(s[k]) {
        word_end(s, k + 1)
    } else {
        k
    }
}

/// First index at or after `k` holding `"`.
pub open spec fn quote_end(s: Seq<char>, k: int) -> int
    decreases s.len() - k,
{
    if 0 <= k < s.len() && s[k] != '"' {
        quote_end(s, k + 1)
    } else {
        k
    }
}

/// The token `#define`.
pub open spec fn define_tok() -> Seq<char> {
    seq!['#', 'd', 'e', 'f', 'i', 'n', 'e']
}

/// Parse one `#define NAME "value"` whose token starts at `i`: at least
/// one space, a word, at least one space, a quoted non-empty value. Yields
/// name, trimmed value, and the index after the closing quote.
pub open spec fn try_define_at(s: Seq<char>, i: int) -> Option<(Seq<char>, Seq<char>, int)> {
    if i + 7 < s.len() && is_space_char(s[i + 7]) {
        let j = skip_ws_from(s, i + 7);
        let k = word_end(s, j);
        if k > j && k < s.len() && is_space_char(s[k]) {
            let m = skip_ws_from(s, k);
            if m < s.len() && s[m] == '"' {
                let q = quote_end(s, m + 1);
                if q < s.len() && q > m + 1 {
                    Option::Some((s.subrange(j, k), trim_spec(s.subrange(m + 1, q)), q + 1))
                } else {
                    Option::<(Seq<char>, Seq<char>, int)>::None
                }
            } else {
                Option::<(Seq<char>, Seq<char>, int)>::None
            }
        } else {
            Option::<(Seq<char>, Seq<char>, int)>::None
        }
    } else {
        Option::<(Seq<char>, Seq<char>, int)>::None
    }
}

/// Every macro definition from index `i` on, in order of appearance.
pub open spec fn defines_from(s: Seq<char>, i: int) -> Seq<(Seq<char>, Seq<char>)>
    decreases s.len() - i,
{
    if i < 0 || i >= s.len() {
        Seq::<(Seq<char>, Seq<char>)>::empty()
    } else if i + 7 <= s.len() && s.subrange(i, i + 7) == define_tok() {
        match try_define_at(s, i) {
            Option::Some(t) => {
                let step = if i < t.2 <= s.len() {
                    t.2
                } else {
                    i + 1
                };
                seq![(t.0, t.1)] + defines_from(s, step)
            },
            Option::None => defines_from(s, i + 1),
        }
    } else {
        defines_from(s, i + 1)
    }
}

/// First non-word index at or after `k`.
fn word_end_idx(s: &str, k: usize) -> (r: usize)
    requires
        k <= s@.len(),
    ensures
        r as int == word_end(s@, k as int),
        k <= r <= s@.len(),
{
    let n = s.unicode_len();
    let mut j = k;
    loop
        invariant
            k <= j <= n,
            n == s@.len(),
            word_end(s@, k as int) == word_end(s@, j as int),
        ensures
            k <= j <= n,
            word_end(s@, k as int) == word_end(s@, j as int),
            !(j < n && is_word_char(s@[j as int])),
        decreases n - j,
    {
        if j >= n {
            break;
        }
        let c = s.get_char(j);
        let w = ('a' <= c && c <= 'z') || ('A' <= c && c <= 'Z') || ('0' <= c && c <= '9') || c
            == '_';
        if !w {
            break;
        }
        j = j + 1;
    }
    j
}

/// First `"` index at or after `k`.
fn quote_end_idx(s: &str, k: usize) -> (r: usize)
    requires
        k <= s@.len(),
    ensures
        r as int == quote_end(s@, k as int),
        k <= r <= s@.len(),
{
    let n = s.unicode_len();
    let mut j = k;
    loop
        invariant
            k <= j <= n,
            n == s@.len(),
            quote_end(s@, k as int) == quote_end(s@, j as int),
        ensures
            k <= j <= n,
            quote_end(s@, k as int) == quote_end(s@, j as int),
            !(j < n && s@[j as int] != '"'),
        decreases n - j,
    {
        if j >= n {
            break;
        }
        if s.get_char(j) == '"' {
            break;
        }
        j = j + 1;
    }
    j
}

/// Parse one `#define` at `i`, executable side.
fn try_define_exec(s: &str, i: usize) -> (r: Option<(String, String, usize)>)
    requires
        i + 7 <= s@.len(),
    ensures
        match r {
            Option::Some(t) => try_define_at(s@, i as int) == Option::Some(
                (t.0@, t.1@, t.2 as int),
            ) && i < t.2 <= s@.len(),
            Option::None => try_define_at(s@, i as int) is None,
        },
{
    let n = s.unicode_len();
    if !(i + 7 < n) {
        return Option::None;
    }
    let c7 = s.get_char(i + 7);
    if !(c7 == ' ' || c7 == '\t' || c7 == '\n' || c7 == '\r') {
        return Option::None;
    }
    let j = skip_ws_idx(s, i + 7);
    let k = word_end_idx(s, j);
    if !(k > j && k < n) {
        return Option::None;
    }
    let ck = s.get_char(k);
    if !(ck == ' ' || ck == '\t' || ck == '\n' || ck == '\r') {
        return Option::None;
    }
    let m = skip_ws_idx(s, k);
    if !(m < n && s.get_char(m) == '"') {
        return Option::None;
    }
    let q = quote_end_idx(s, m + 1);
    if !(q < n && q > m + 1) {
        return Option::None;
    }
    let name = substring(s, j, k);
    let value = trim_ws(substring(s, m + 1, q).as_str());
    Option::Some((name, value, q + 1))
}

/// Collect every `#define NAME "value"` of the stripped content, names and
/// trimmed values, in order.
#[verifier::loop_isolation(false)]
pub fn scan_defines(s: &str) -> (r: Vec<(String, String)>)
    ensures
        r.deep_view() == defines_from(s@, 0),
{
    let n = s.unicode_len();
    let mut out: Vec<(String, String)> = Vec::new();
    let mut i: usize = 0;
    proof {
        assert(out.deep_view() =~= Seq::<(Seq<char>, Seq<char>)>::empty());
        assert(Seq::<(Seq<char>, Seq<char>)>::empty() + defines_from(s@, 0) =~= defines_from(
            s@,
            0,
        ));
    }
    while i < n
        invariant
            i <= n,
            n == s@.len(),
            defines_from(s@, 0) == out.deep_view() + defines_from(s@, i as int),
        decreases n - i,
    {
        proof {
            reveal_strlit("#define");
            assert("#define"@ =~= define_tok());
        }
        if n - i >= 7 && substr_eq(s, i, i + 7, "#define") {
            match try_define_exec(s, i) {
                Option::Some(t) => {
                    let ghost old_out = out.deep_view();
                    let ghost g0 = t.0@;
                    let ghost g1 = t.1@;
                    let next = t.2;
                    out.push((t.0, t.1));
                    proof {
                        assert(out.deep_view() =~= old_out.push((g0, g1)));
                        assert(old_out.push((g0, g1)) + defines_from(s@, next as int) =~= old_out
                            + (seq![(g0, g1)] + defines_from(s@, next as int)));
                    }
                    i = next;
                },
                Option::None => {
                    i = i + 1;
                },
            }
        } else {
            i = i + 1;
        }
    }
    proof {
        assert(defines_from(s@, n as int) == Seq::<(Seq<char>, Seq<char>)>::empty());
        assert(out.deep_view() + Seq::<(Seq<char>, Seq<char>)>::empty() =~= out.deep_view());
    }
    out
}

// ---------------------------------------------------------------------------
// HELP_URL entries
// ---------------------------------------------------------------------------

/// The token `HELP_URL`.
pub open spec fn helpurl_tok() -> Seq<char> {
    seq!['H', 'E', 'L', 'P', '_', 'U', 'R', 'L']
}

/// First `)` index at or after `k`.
pub open spec fn paren_end(s: Seq<char>, k: int) -> int
    decreases s.len() - k,
{
    if 0 <= k < s.len() && s[k] != ')' {
        paren_end(s, k + 1)
    } else {
        k
    }
}

/// Parse one `HELP_URL("key", expr)` whose token starts at `i`: optional
/// whitespace, `("`, the quoted key, `"`, optional whitespace, `,`,
/// optional whitespace, then everything up to the closing parenthesis.
/// Yields the raw expression and the index after the parenthesis.
pub open spec fn try_helpurl_at(s: Seq<char>, i: int) -> Option<(Seq<char>, int)> {
    let a = skip_ws_from(s, i + 8);
    if a < s.len() && s[a] == '(' && a + 1 < s.len() && s[a + 1] == '"' {
        let q = quote_end(s, a + 2);
        if q < s.len() {
            let b = skip_ws_from(s, q + 1);
            if b < s.len() && s[b] == ',' {
                let c = skip_ws_from(s, b + 1);
                let d = paren_end(s, c);
                if d < s.len() && d > c {
                    Option::Some((s.subrange(c, d), d + 1))
                } else {
                    Option::<(Seq<char>, int)>::None
                }
            } else {
                Option::<(Seq<char>, int)>::None
            }
        } else {
            Option::<(Seq<char>, int)>::None
        }
    } else {
        Option::<(Seq<char>, int)>::None
    }
}

/// Every raw HELP_URL expression from index `i` on, in order.
pub open spec fn helpurls_from(s: Seq<char>, i: int) -> Seq<Seq<char>>
    decreases s.len() - i,
{
    if i < 0 || i >= s.len() {
        Seq::<Seq<char>>::empty()
    } else if i + 8 <= s.len() && s.subrange(i, i + 8) == helpurl_tok() {
        match try_helpurl_at(s, i) {
            Option::Some(p) => {
                let step = if i < p.1 <= s.len() {
                    p.1
                } else {
                    i + 1
                };
                seq![p.0] + helpurls_from(s, step)
            },
            Option::None => helpurls_from(s, i + 1),
        }
    } else {
        helpurls_from(s, i + 1)
    }
}

/// First `)` index at or after `k`, executable side.
fn paren_end_idx(s: &str, k: usize) -> (r: usize)
    requires
        k <= s@.len(),
    ensures
        r as int == paren_end(s@, k as int),
        k <= r <= s@.len(),
{
    let n = s.unicode_len();
    let mut j = k;
    loop
        invariant
            k <= j <= n,
            n == s@.len(),
            paren_end(s@, k as int) == paren_end(s@, j as int),
        ensures
            k <= j <= n,
            paren_end(s@, k as int) == paren_end(s@, j as int),
            !(j < n && s@[j as int] != ')'),
        decreases n - j,
    {
        if j >= n {
            break;
        }
        if s.get_char(j) == ')' {
            break;
        }
        j = j + 1;
    }
    j
}

/// Parse one HELP_URL entry at `i`, executable side.
fn try_helpurl_exec(s: &str, i: usize) -> (r: Option<(String, usize)>)
    requires
        i + 8 <= s@.len(),
    ensures
        match r {
            Option::Some(p) => try_helpurl_at(s@, i as int) == Option::Some((p.0@, p.1 as int))
                && i < p.1 <= s@.len(),
            Option::None => try_helpurl_at(s@, i as int) is None,
        },
{
    let n = s.unicode_len();
    let a = skip_ws_idx(s, i + 8);
    if !(a < n && s.get_char(a) == '(') {
        return Option::None;
    }
    if !(a + 1 < n && s.get_char(a + 1) == '"') {
        return Option::None;
    }
    let q = quote_end_idx(s, a + 2);
    if !(q < n) {
        return Option::None;
    }
    let b = skip_ws_idx(s, q + 1);
    if !(b < n && s.get_char(b) == ',') {
        return Option::None;
    }
    let c = skip_ws_idx(s, b + 1);
    let d = paren_end_idx(s, c);
    if !(d < n && d > c) {
        return Option::None;
    }
    Option::Some((substring(s, c, d), d + 1))
}

/// Collect every raw HELP_URL expression of the stripped content.
#[verifier::loop_isolation(false)]
pub fn scan_help_urls(s: &str) -> (r: Vec<String>)
    ensures
        r.deep_view() == helpurls_from(s@, 0),
{
    let n = s.unicode_len();
    let mut out: Vec<String> = Vec::new();
    let mut i: usize = 0;
    proof {
        assert(out.deep_view() =~= Seq::<Seq<char>>::empty());
        assert(Seq::<Seq<char>>::empty() + helpurls_from(s@, 0) =~= helpurls_from(s@, 0));
    }
    while i < n
        invariant
            i <= n,
            n == s@.len(),
            helpurls_from(s@, 0) == out.deep_view() + helpurls_from(s@, i as int),
        decreases n - i,
    {
        proof {
            reveal_strlit("HELP_URL");
            assert("HELP_URL"@ =~= helpurl_tok());
        }
        if n - i >= 8 && substr_eq(s, i, i + 8, "HELP_URL") {
            match try_helpurl_exec(s, i) {
                Option::Some(p) => {
                    let ghost old_out = out.deep_view();
                    let ghost g0 = p.0@;
                    let next = p.1;
                    out.push(p.0);
                    proof {
                        assert(out.deep_view() =~= old_out.push(g0));
                        assert(old_out.push(g0) + helpurls_from(s@, next as int) =~= old_out + (
                        seq![g0] + helpurls_from(s@, next as int)));
                    }
                    i = next;
                },
                Option::None => {
                    i = i + 1;
                },
            }
        } else {
            i = i + 1;
        }
    }
    proof {
        assert(helpurls_from(s@, n as int) == Seq::<Seq<char>>::empty());
        assert(out.deep_view() + Seq::<Seq<char>>::empty() =~= out.deep_view());
    }
    out
}

// ---------------------------------------------------------------------------
// Macro expansion
// ---------------------------------------------------------------------------

/// Split at `"` characters; recursion in scanning order.
pub open spec fn qsplit_from(s: Seq<char>, cur: Seq<char>) -> Seq<Seq<char>>
    decreases s.len(),
{
    if s.len() == 0 {
        seq![cur]
    } else if s[0] == '"' {
        seq![cur] + qsplit_from(s.drop_first(), Seq::empty())
    } else {
        qsplit_from(s.drop_first(), cur.push(s[0]))
    }
}

/// Split a string at `"` characters.
pub fn qsplit(s: &str) -> (parts: Vec<String>)
    ensures
        parts.deep_view() == qsplit_from(s@, Seq::empty()),
{
    let n = s.unicode_len();
    let mut parts: Vec<String> = Vec::new();
    let mut cur: String = String::new();
    let mut i: usize = 0;
    proof {
        assert(s@.skip(0) =~= s@);
        assert(parts.deep_view() =~= Seq::<Seq<char>>::empty());
        assert(Seq::<Seq<char>>::empty() + qsplit_from(s@, Seq::empty()) =~= qsplit_from(
            s@,
            Seq::empty(),
        ));
    }
    while i < n
        invariant
            i <= n,
            n == s@.len(),
            qsplit_from(s@, Seq::empty()) == parts.deep_view() + qsplit_from(
                s@.skip(i as int),
                cur@,
            ),
        decreases n - i,
    {
        let ghost rest = s@.skip(i as int);
        let ghost old_parts = parts.deep_view();
        let ghost old_cur = cur@;
        let c = s.get_char(i);
        proof {
            assert(rest[0] == c);
            assert(rest.drop_first() =~= s@.skip(i + 1));
        }
        if c == '"' {
            parts.push(cur);
            cur = String::new();
            proof {
                assert(parts.deep_view() =~= old_parts.push(old_cur));
                assert(old_parts.push(old_cur) + qsplit_from(s@.skip(i + 1), Seq::empty())
                    =~= old_parts + (seq![old_cur] + qsplit_from(s@.skip(i + 1), Seq::empty())));
            }
        } else {
            push_char(&mut cur, c);
            proof {
                assert(cur@ =~= old_cur.push(c));
            }
        }
        i = i + 1;
    }
    proof {
        assert(s@.skip(n as int) =~= Seq::<char>::empty());
    }
    let ghost fin_parts = parts.deep_view();
    let ghost fin_cur = cur@;
    parts.push(cur);
    proof {
        assert(parts.deep_view() =~= fin_parts.push(fin_cur));
        assert(fin_parts.push(fin_cur) =~= fin_parts + seq![fin_cur]);
    }
    parts
}

/// The value of the last definition of a name, as a later `#define` of the
/// same name overrides an earlier one.
pub open spec fn lookup_last(m: Seq<(Seq<char>, Seq<char>)>, k: Seq<char>) -> Option<Seq<char>>
    decreases m.len(),
{
    if m.len() == 0 {
        Option::<Seq<char>>::None
    } else if m.last().0 == k {
        Option::Some(m.last().1)
    } else {
        lookup_last(m.drop_last(), k)
    }
}

/// Look a macro name up, last definition first.
pub fn lookup_macro(macros: &Vec<(String, String)>, k: &str) -> (r: Option<String>)
    ensures
        match r {
            Option::Some(v) => lookup_last(macros.deep_view(), k@) == Option::Some(v@),
            Option::None => lookup_last(macros.deep_view(), k@) == Option::<Seq<char>>::None,
        },
{
    let ghost all = macros.deep_view();
    let mut i: usize = macros.len();
    proof {
        assert(all.take(macros.len() as int) =~= all);
    }
    loop
        invariant
            i <= macros.len(),
            all == macros.deep_view(),
            lookup_last(all, k@) == lookup_last(all.take(i as int), k@),
        ensures
            lookup_last(all, k@) == lookup_last(all.take(i as int), k@),
            i > 0,
            all.take(i as int).last().0 == k@,
        decreases i,
    {
        if i == 0 {
            proof {
                assert(all.take(0) =~= Seq::<(Seq<char>, Seq<char>)>::empty());
            }
            return Option::None;
        }
        proof {
            assert(all.take(i as int).last() == all[i - 1]);
            assert(all.take(i as int).drop_last() =~= all.take(i - 1));
            assert(all[i - 1].0 == macros@[i - 1].0@);
        }
        if str_eq(macros[i - 1].0.as_str(), k) {
            break;
        }
        i = i - 1;
    }
    proof {
        assert(all[i - 1].1 == macros@[i - 1].1@);
    }
    Option::Some(macros[i - 1].1.clone())
}

/// A raw expression expanded against the macros: split at quotes, each
/// piece trimmed, empty pieces dropped, macro names replaced by their
/// values, the rest kept, all concatenated.
pub open spec fn expand_parts(
    parts: Seq<Seq<char>>,
    macros: Seq<(Seq<char>, Seq<char>)>,
) -> Seq<char>
    decreases parts.len(),
{
    if parts.len() == 0 {
        Seq::<char>::empty()
    } else {
        let t = trim_spec(parts[0]);
        let rest = expand_parts(parts.drop_first(), macros);
        if t.len() == 0 {
            rest
        } else {
            match lookup_last(macros, t) {
                Option::Some(v) => v + rest,
                Option::None => t + rest,
            }
        }
    }
}

/// The expansion of one raw expression string.
pub open spec fn expand_spec(raw: Seq<char>, macros: Seq<(Seq<char>, Seq<char>)>) -> Seq<char> {
    expand_parts(qsplit_from(raw, Seq::empty()), macros)
}

/// Expand a raw HELP_URL expression: quoted literals and macro references,
/// concatenated.
#[verifier::loop_isolation(false)]
pub fn expand_url(raw: &str, macros: &Vec<(String, String)>) -> (r: String)
    ensures
        r@ == expand_spec(raw@, macros.deep_view()),
{
    let parts = qsplit(raw);
    let ghost all = parts.deep_view();
    let mut out = String::new();
    let mut i: usize = 0;
    proof {
        assert(all.skip(0) =~= all);
        assert(out@ =~= Seq::<char>::empty());
    }
    while i < parts.len()
        invariant
            i <= parts.len(),
            all == parts.deep_view(),
            expand_parts(all, macros.deep_view()) == out@ + expand_parts(
                all.skip(i as int),
                macros.deep_view(),
            ),
        decreases parts.len() - i,
    {
        proof {
            assert(all.skip(i as int)[0] == all[i as int]);
            assert(all.skip(i as int).drop_first() =~= all.skip(i + 1));
            assert(parts.deep_view()[i as int] == parts@[i as int]@);
        }
        let t = trim_ws(parts[i].as_str());
        if t.as_str().unicode_len() > 0 {
            match lookup_macro(macros, t.as_str()) {
                Option::Some(v) => {
                    out.append(v.as_str());
                    proof {
                        assert((out@ + expand_parts(all.skip(i + 1), macros.deep_view()))
                            =~= expand_parts(all, macros.deep_view()));
                    }
                },
                Option::None => {
                    out.append(t.as_str());
                    proof {
                        assert((out@ + expand_parts(all.skip(i + 1), macros.deep_view()))
                            =~= expand_parts(all, macros.deep_view()));
                    }
                },
            }
        }
        i = i + 1;
    }
    proof {
        assert(all.skip(parts.len() as int) =~= Seq::<Seq<char>>::empty());
        assert(out@ + Seq::<char>::empty() =~= out@);
    }
    out
}

// ---------------------------------------------------------------------------
// Docs injection and the whole help index
// ---------------------------------------------------------------------------

/// A slash-separated documentation path with `docs` inserted immediately
/// after its first segment.
pub open spec fn inject_docs_spec(p: Seq<char>) -> Seq<char> {
    let ps = path_segs(p);
    if is_abs(p) {
        render(true, seq![docs_seg()] + ps)
    } else if ps.len() == 0 {
        docs_seg()
    } else {
        render(false, seq![ps[0], docs_seg()] + ps.skip(1))
    }
}

/// Insert `docs` after the first path component.
pub fn inject_docs(p: &str) -> (r: String)
    ensures
        r@ == inject_docs_spec(p@),
{
    proof {
        reveal_strlit("docs");
        assert("docs"@ =~= docs_seg());
    }
    let abs = path_is_abs(p);
    let parts = path_parts(p);
    let ghost ps = parts.deep_view();
    let mut out: Vec<String> = Vec::new();
    if abs {
        out.push(String::from_str("docs"));
        proof {
            assert(out.deep_view() =~= seq![docs_seg()]);
        }
    } else {
        if parts.len() == 0 {
            return String::from_str("docs");
        }
        out.push(parts[0].clone());
        out.push(String::from_str("docs"));
        proof {
            assert(out.deep_view() =~= seq![ps[0], docs_seg()]);
        }
    }
    let start: usize = if abs {
        0
    } else {
        1
    };
    let ghost head = out.deep_view();
    let mut k: usize = start;
    proof {
        assert(out.deep_view() =~= head + ps.skip(start as int).take(0));
    }
    while k < parts.len()
        invariant
            start <= k <= parts.len(),
            ps == parts.deep_view(),
            out.deep_view() =~= head + ps.skip(start as int).take(k - start),
        decreases parts.len() - k,
    {
        let ghost before = out.deep_view();
        out.push(parts[k].clone());
        proof {
            assert(out.deep_view() =~= before.push(ps[k as int]));
            assert(out.deep_view() =~= head + ps.skip(start as int).take(k + 1 - start));
        }
        k = k + 1;
    }
    proof {
        assert(ps.skip(start as int).take(parts.len() - start) =~= ps.skip(start as int));
        if abs {
            assert(head + ps.skip(0) =~= seq![docs_seg()] + ps);
        } else {
            assert(head + ps.skip(1) =~= seq![ps[0], docs_seg()] + ps.skip(1));
        }
    }
    render_path(abs, &out)
}

/// The expected filesystem path of one help entry under the doc root.
pub open spec fn help_entry_spec(
    raw: Seq<char>,
    macros: Seq<(Seq<char>, Seq<char>)>,
    root: Seq<char>,
) -> Seq<char> {
    join_spec(root, inject_docs_spec(expand_spec(trim_spec(raw), macros)) + dot_md())
}

/// All help entries, in order of appearance.
pub open spec fn help_paths_spec(
    raws: Seq<Seq<char>>,
    macros: Seq<(Seq<char>, Seq<char>)>,
    root: Seq<char>,
) -> Seq<Seq<char>>
    decreases raws.len(),
{
    if raws.len() == 0 {
        Seq::<Seq<char>>::empty()
    } else {
        seq![help_entry_spec(raws[0], macros, root)] + help_paths_spec(
            raws.drop_first(),
            macros,
            root,
        )
    }
}

/// The stripped content's help paths: each HELP_URL expression expanded,
/// `docs` injected after its first segment, `.md` appended, and the whole
/// joined under the doc root.
pub open spec fn extract_help_urls_spec(content: Seq<char>, root: Seq<char>) -> Seq<Seq<char>> {
    let stripped = strip_c(content, Seq::empty(), false);
    help_paths_spec(helpurls_from(stripped, 0), defines_from(stripped, 0), root)
}

/// Read the help index from header content: comments are stripped first so
/// commented-out entries never match, macros are collected, and every
/// HELP_URL entry becomes the filesystem path its documentation page is
/// expected at.
#[verifier::loop_isolation(false)]
pub fn extract_help_urls(content: &str, doc_root: &str) -> (r: Vec<String>)
    ensures
        r.deep_view() == extract_help_urls_spec(content@, doc_root@),
{
    let stripped = strip_c_comments(content);
    let macros = scan_defines(stripped.as_str());
    let raws = scan_help_urls(stripped.as_str());
    let ghost all = raws.deep_view();
    let ghost gm = macros.deep_view();
    let mut out: Vec<String> = Vec::new();
    let mut i: usize = 0;
    proof {
        assert(all.skip(0) =~= all);
        assert(out.deep_view() =~= Seq::<Seq<char>>::empty());
        assert(Seq::<Seq<char>>::empty() + help_paths_spec(all, gm, doc_root@) =~= help_paths_spec(
            all,
            gm,
            doc_root@,
        ));
    }
    while i < raws.len()
        invariant
            i <= raws.len(),
            all == raws.deep_view(),
            gm == macros.deep_view(),
            help_paths_spec(all, gm, doc_root@) == out.deep_view() + help_paths_spec(
                all.skip(i as int),
                gm,
                doc_root@,
            ),
        decreases raws.len() - i,
    {
        proof {
            assert(all.skip(i as int)[0] == all[i as int]);
            assert(all.skip(i as int).drop_first() =~= all.skip(i + 1));
            assert(raws.deep_view()[i as int] == raws@[i as int]@);
            reveal_strlit(".md");
            assert(".md"@ =~= dot_md());
        }
        let raw_t = trim_ws(raws[i].as_str());
        let expanded = expand_url(raw_t.as_str(), &macros);
        let with_docs = inject_docs(expanded.as_str());
        let relative = with_docs.concat(".md");
        let absolute = join_path(doc_root, relative.as_str());
        let ghost ga = absolute@;
        let ghost old_out = out.deep_view();
        out.push(absolute);
        proof {
            assert(out.deep_view() =~= old_out.push(ga));
            assert(old_out.push(ga) + help_paths_spec(all.skip(i + 1), gm, doc_root@) =~= old_out
                + (seq![ga] + help_paths_spec(all.skip(i + 1), gm, doc_root@)));
        }
        i = i + 1;
    }
    proof {
        assert(all.skip(raws.len() as int) =~= Seq::<Seq<char>>::empty());
        assert(out.deep_view() + Seq::<Seq<char>>::empty() =~= out.deep_view());
    }
    out
}

} // verus!
