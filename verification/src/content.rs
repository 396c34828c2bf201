//! Page content: link and image destinations pulled out of markdown and
//! HTML by the outside parsers, footnote detection, and the CSS `url(...)`
//! reference scan.

use vstd::prelude::*;
use vstd::string::*;
use crate::paths::{is_quote_char, is_space_char, str_starts_with, substring, trim_spec, trim_ws};

verus! {

// ---------------------------------------------------------------------------
// Outside parsers
// ---------------------------------------------------------------------------

/// The link destinations a markdown text holds, markdown links and the
/// `href` of anchor tags in raw HTML alike. The result depends on the text
/// alone; what it is, only the parsers say.
pub uninterp spec fn links_of(s: Seq<char>) -> Seq<Seq<char>>;

/// The image destinations a markdown text holds: markdown images and the
/// `src` of `img` tags in raw HTML. The result depends on the text alone.
pub uninterp spec fn images_of(s: Seq<char>) -> Seq<Seq<char>>;

/// Relies on pulldown_cmark::Parser for markdown link events and on
/// scraper's fragment parsing with an `a[href]` selector for links inside
/// raw HTML blocks: both are functions of the text alone.
#[verifier::external_body]
pub fn extract_links(markdown: &str) -> (r: Vec<String>)
    ensures
        r.deep_view() == links_of(markdown@),
{
    let mut links = Vec::new();
    let sel = scraper::Selector::parse("a[href]").unwrap();
    for ev in pulldown_cmark::Parser::new(markdown) {
        match ev {
            pulldown_cmark::Event::Start(pulldown_cmark::Tag::Link { dest_url, .. }) => links
                .push(dest_url.into_string()),
            pulldown_cmark::Event::Html(h) | pulldown_cmark::Event::InlineHtml(h) => links.extend(
                scraper::Html::parse_fragment(&h).select(&sel).filter_map(|el|
                    el.value().attr("href").map(String::from)),
            ),
            _ => {},
        }
    }
    links
}

/// Relies on pulldown_cmark::Parser for markdown image events and on
/// scraper's fragment parsing with an `img[src]` selector for images inside
/// raw HTML blocks: both are functions of the text alone.
#[verifier::external_body]
pub fn extract_image_refs(markdown: &str) -> (r: Vec<String>)
    ensures
        r.deep_view() == images_of(markdown@),
{
    let mut images = Vec::new();
    let sel = scraper::Selector::parse("img[src]").unwrap();
    for ev in pulldown_cmark::Parser::new(markdown) {
        match ev {
            pulldown_cmark::Event::Start(pulldown_cmark::Tag::Image { dest_url, .. }) => images
                .push(dest_url.into_string()),
            pulldown_cmark::Event::Html(h) | pulldown_cmark::Event::InlineHtml(h) => images.extend(
                scraper::Html::parse_fragment(&h).select(&sel).filter_map(|el|
                    el.value().attr("src").map(String::from)),
            ),
            _ => {},
        }
    }
    images
}

// ---------------------------------------------------------------------------
// Footnotes
// ---------------------------------------------------------------------------

/// A footnote marker starts at `i`: `[^`, at least one character that is
/// not `]`, then `]`.
pub open spec fn footnote_at(s: Seq<char>, i: int) -> bool {
    0 <= i && i + 2 < s.len() && s[i] == '[' && s[i + 1] == '^' && s[i + 2] != ']' && exists|j: int|
        i + 3 <= j < s.len() && s[j] == ']'
}

/// Does the text hold a footnote reference or definition?
pub open spec fn has_footnote(s: Seq<char>) -> bool {
    exists|i: int| footnote_at(s, i)
}

/// Check whether markdown content contains footnote references or
/// definitions, which use `[^name]` for references and `[^name]:` for
/// definitions.
#[verifier::loop_isolation(false)]
pub fn has_footnotes(markdown: &str) -> (r: bool)
    ensures
        r == has_footnote(markdown@),
{
    let n = markdown.unicode_len();
    if n < 4 {
        proof {
            assert(forall|i: int| !footnote_at(markdown@, i));
        }
        return false;
    }
    let mut i: usize = 0;
    while i < n - 3
        invariant
            4 <= n == markdown@.len(),
            i <= n - 3,
            forall|q: int| 0 <= q < i ==> !footnote_at(markdown@, q),
        decreases n - i,
    {
        if markdown.get_char(i) == '[' && markdown.get_char(i + 1) == '^' && markdown.get_char(
            i + 2,
        ) != ']' {
            let mut j: usize = i + 3;
            while j < n
                invariant
                    i + 3 <= j <= n,
                    n == markdown@.len(),
                    forall|k: int| i + 3 <= k < j ==> markdown@[k] != ']',
                decreases n - j,
            {
                if markdown.get_char(j) == ']' {
                    proof {
                        assert(footnote_at(markdown@, i as int)) by {
                            assert(i + 3 <= j < markdown@.len() && markdown@[j as int] == ']');
                        }
                    }
                    return true;
                }
                j = j + 1;
            }
            proof {
                assert(!footnote_at(markdown@, i as int));
            }
        } else {
            proof {
                assert(!footnote_at(markdown@, i as int));
            }
        }
        i = i + 1;
    }
    proof {
        assert(forall|q: int| i <= q ==> !footnote_at(markdown@, q));
    }
    false
}

// ---------------------------------------------------------------------------
// Image reference normalization
// ---------------------------------------------------------------------------

/// The token `http://`.
pub open spec fn http_scheme() -> Seq<char> {
    seq!['h', 't', 't', 'p', ':', '/', '/']
}

/// The token `https://`.
pub open spec fn https_scheme() -> Seq<char> {
    seq!['h', 't', 't', 'p', 's', ':', '/', '/']
}

/// The token `data:`.
pub open spec fn data_scheme() -> Seq<char> {
    seq!['d', 'a', 't', 'a', ':']
}

/// An image reference worth checking: not an external URL, not a data URI.
pub open spec fn local_image_ref(r: Seq<char>) -> bool {
    !(r.len() >= 7 && r.take(7) == http_scheme()) && !(r.len() >= 8 && r.take(8)
        == https_scheme()) && !(r.len() >= 5 && r.take(5) == data_scheme())
}

/// The local image references of a list, in order.
pub open spec fn local_image_refs(refs: Seq<Seq<char>>) -> Seq<Seq<char>>
    decreases refs.len(),
{
    if refs.len() == 0 {
        Seq::empty()
    } else {
        let rest = local_image_refs(refs.drop_first());
        if local_image_ref(refs[0]) {
            seq![refs[0]] + rest
        } else {
            rest
        }
    }
}

/// Is this reference local (worth checking)?
pub fn is_local_image_ref(r: &str) -> (b: bool)
    ensures
        b == local_image_ref(r@),
{
    proof {
        reveal_strlit("http://");
        reveal_strlit("https://");
        reveal_strlit("data:");
        assert("http://"@ =~= http_scheme());
        assert("https://"@ =~= https_scheme());
        assert("data:"@ =~= data_scheme());
    }
    let h = str_starts_with(r, "http://");
    let hs = str_starts_with(r, "https://");
    let d = str_starts_with(r, "data:");
    proof {
        assert(r@.len() >= 7 ==> r@.subrange(0, 7) =~= r@.take(7));
        assert(r@.len() >= 8 ==> r@.subrange(0, 8) =~= r@.take(8));
        assert(r@.len() >= 5 ==> r@.subrange(0, 5) =~= r@.take(5));
    }
    !h && !hs && !d
}

/// Keep only the image references that are local files: external URLs and
/// data URIs are never checked.
pub fn normalise_image_refs(refs: Vec<String>) -> (r: Vec<String>)
    ensures
        r.deep_view() == local_image_refs(refs.deep_view()),
{
    let ghost all = refs.deep_view();
    let mut out: Vec<String> = Vec::new();
    let mut i: usize = 0;
    proof {
        assert(all.skip(0) =~= all);
        assert(out.deep_view() =~= Seq::<Seq<char>>::empty());
        assert(Seq::<Seq<char>>::empty() + local_image_refs(all) =~= local_image_refs(all));
    }
    while i < refs.len()
        invariant
            i <= refs.len(),
            all == refs.deep_view(),
            local_image_refs(all) == out.deep_view() + local_image_refs(all.skip(i as int)),
        decreases refs.len() - i,
    {
        let ghost old_out = out.deep_view();
        proof {
            assert(all.skip(i as int)[0] == all[i as int]);
            assert(all.skip(i as int).drop_first() =~= all.skip(i + 1));
            assert(refs.deep_view()[i as int] == refs@[i as int]@);
        }
        if is_local_image_ref(refs[i].as_str()) {
            let x = refs[i].clone();
            let ghost gx = x@;
            out.push(x);
            proof {
                assert(out.deep_view() =~= old_out.push(gx));
                assert(old_out.push(gx) + local_image_refs(all.skip(i + 1)) =~= old_out + (
                seq![gx] + local_image_refs(all.skip(i + 1))));
            }
        }
        i = i + 1;
    }
    proof {
        assert(all.skip(refs.len() as int) =~= Seq::<Seq<char>>::empty());
        assert(out.deep_view() + Seq::<Seq<char>>::empty() =~= out.deep_view());
    }
    out
}

// ---------------------------------------------------------------------------
// CSS url(...) references
// ---------------------------------------------------------------------------

/// The token `url`.
pub open spec fn url_tok() -> Seq<char> {
    seq!['u', 'r', 'l']
}

/// First index at or after `k` holding no whitespace.
pub open spec fn skip_ws_from(s: Seq<char>, k: int) -> int
    decreases s.len() - k,
{
    if 0 <= k < s.len() && is_space_char(s[k]) {
        skip_ws_from(s, k + 1)
    } else {
        k
    }
}

/// First index at or after `k` holding a quote or a closing parenthesis.
pub open spec fn run_end(s: Seq<char>, k: int) -> int
    decreases s.len() - k,
{
    if 0 <= k < s.len() && !(is_quote_char(s[k]) || s[k] == ')') {
        run_end(s, k + 1)
    } else {
        k
    }
}

/// Parse one `url(...)` form whose `url` token starts at `i`: optional
/// whitespace, `(`, optional whitespace, an optional quote, at least one
/// character that is neither a quote nor `)`, an optional quote, optional
/// whitespace, `)`. Yields the captured characters and the index after the
/// closing parenthesis.
pub open spec fn try_url_at(s: Seq<char>, i: int) -> Option<(Seq<char>, int)> {
    let a = skip_ws_from(s, i + 3);
    if a < s.len() && s[a] == '(' {
        let b = skip_ws_from(s, a + 1);
        let c = if b < s.len() && is_quote_char(s[b]) {
            b + 1
        } else {
            b
        };
        let d = run_end(s, c);
        if d > c {
            let e = if d < s.len() && is_quote_char(s[d]) {
                d + 1
            } else {
                d
            };
            let f = skip_ws_from(s, e);
            if f < s.len() && s[f] == ')' {
                Option::Some((s.subrange(c, d), f + 1))
            } else {
                Option::<(Seq<char>, int)>::None
            }
        } else {
            Option::<(Seq<char>, int)>::None
        }
    } else {
        Option::<(Seq<char>, int)>::None
    }
}

/// The local image references of a CSS text from index `i` on: every
/// matched `url(...)` whose trimmed target is not an external URL or data
/// URI, scanned left to right without overlap.
pub open spec fn css_refs(s: Seq<char>, i: int) -> Seq<Seq<char>>
    decreases s.len() - i,
{
    if i < 0 || i >= s.len() {
        Seq::<Seq<char>>::empty()
    } else if i + 3 <= s.len() && s.subrange(i, i + 3) == url_tok() {
        match try_url_at(s, i) {
            Option::Some(pair) => {
                let step = if i < pair.1 <= s.len() {
                    pair.1
                } else {
                    i + 1
                };
                let t = trim_spec(pair.0);
                if local_image_ref(t) {
                    seq![t] + css_refs(s, step)
                } else {
                    css_refs(s, step)
                }
            },
            Option::None => css_refs(s, i + 1),
        }
    } else {
        css_refs(s, i + 1)
    }
}

/// First non-whitespace index at or after `k`.
pub fn skip_ws_idx(s: &str, k: usize) -> (r: usize)
    requires
        k <= s@.len(),
    ensures
        r as int == skip_ws_from(s@, k as int),
        k <= r <= s@.len(),
{
    let n = s.unicode_len();
    let mut j = k;
    loop
        invariant
            k <= j <= n,
            n == s@.len(),
            skip_ws_from(s@, k as int) == skip_ws_from(s@, j as int),
        ensures
            k <= j <= n,
            skip_ws_from(s@, k as int) == skip_ws_from(s@, j as int),
            !(j < n && is_space_char(s@[j as int])),
        decreases n - j,
    {
        if j >= n {
            break;
        }
        let c = s.get_char(j);
        if !(c == ' ' || c == '\t' || c == '\n' || c == '\r') {
            break;
        }
        j = j + 1;
    }
    j
}

/// First quote or `)` index at or after `k`.
fn run_end_idx(s: &str, k: usize) -> (r: usize)
    requires
        k <= s@.len(),
    ensures
        r as int == run_end(s@, k as int),
        k <= r <= s@.len(),
{
    let n = s.unicode_len();
    let mut j = k;
    loop
        invariant
            k <= j <= n,
            n == s@.len(),
            run_end(s@, k as int) == run_end(s@, j as int),
        ensures
            k <= j <= n,
            run_end(s@, k as int) == run_end(s@, j as int),
            !(j < n && !(is_quote_char(s@[j as int]) || s@[j as int] == ')')),
        decreases n - j,
    {
        if j >= n {
            break;
        }
        let c = s.get_char(j);
        if c == '"' || c == '\'' || c == ')' {
            break;
        }
        j = j + 1;
    }
    j
}

/// Parse one `url(...)` form at `i`, executable side.
fn try_url_exec(s: &str, i: usize) -> (r: Option<(String, usize)>)
    requires
        i + 3 <= s@.len(),
    ensures
        match r {
            Option::Some(p) => try_url_at(s@, i as int) == Option::Some((p.0@, p.1 as int)) && i
                < p.1 <= s@.len(),
            Option::None => try_url_at(s@, i as int) is None,
        },
{
    let n = s.unicode_len();
    let a = skip_ws_idx(s, i + 3);
    if !(a < n && s.get_char(a) == '(') {
        return Option::None;
    }
    let b = skip_ws_idx(s, a + 1);
    let c = if b < n && {
        let cb = s.get_char(b);
        cb == '"' || cb == '\''
    } {
        b + 1
    } else {
        b
    };
    let d = run_end_idx(s, c);
    if !(d > c) {
        return Option::None;
    }
    let e = if d < n && {
        let cd = s.get_char(d);
        cd == '"' || cd == '\''
    } {
        d + 1
    } else {
        d
    };
    let f = skip_ws_idx(s, e);
    if !(f < n && s.get_char(f) == ')') {
        return Option::None;
    }
    Option::Some((substring(s, c, d), f + 1))
}

/// Extract local image references from CSS content: `url(...)` values,
/// quotes optional, data URIs and external URLs skipped.
#[verifier::loop_isolation(false)]
pub fn extract_css_image_refs(css: &str) -> (r: Vec<String>)
    ensures
        r.deep_view() == css_refs(css@, 0),
{
    let n = css.unicode_len();
    let mut out: Vec<String> = Vec::new();
    let mut i: usize = 0;
    proof {
        assert(out.deep_view() =~= Seq::<Seq<char>>::empty());
        assert(Seq::<Seq<char>>::empty() + css_refs(css@, 0) =~= css_refs(css@, 0));
    }
    while i < n
        invariant
            i <= n,
            n == css@.len(),
            css_refs(css@, 0) == out.deep_view() + css_refs(css@, i as int),
        decreases n - i,
    {
        proof {
            reveal_strlit("url");
            assert("url"@ =~= url_tok());
        }
        if n - i >= 3 && crate::paths::substr_eq(css, i, i + 3, "url") {
            match try_url_exec(css, i) {
                Option::Some(p) => {
                    let t = trim_ws(p.0.as_str());
                    if is_local_image_ref(t.as_str()) {
                        let ghost old_out = out.deep_view();
                        let ghost gt = t@;
                        out.push(t);
                        proof {
                            assert(out.deep_view() =~= old_out.push(gt));
                            assert(old_out.push(gt) + css_refs(css@, p.1 as int) =~= old_out + (
                            seq![gt] + css_refs(css@, p.1 as int)));
                        }
                    }
                    i = p.1;
                },
                Option::None => {
                    i = i + 1;
                },
            }
        } else {
            i = i + 1;
        }
    }
    proof {
        assert(css_refs(css@, n as int) == Seq::<Seq<char>>::empty());
        assert(out.deep_view() + Seq::<Seq<char>>::empty() =~= out.deep_view());
    }
    out
}

} // verus!
