//! Link normalization and the ordered resolution cascade: from a source
//! page and a raw link to a filesystem target, trying nav-based lookup,
//! URL-space resolution, rendered-URL guesses under known roots, and
//! filesystem-style joins, each with a directory-index fallback.

use vstd::prelude::*;
use vstd::string::*;
use crate::paths::{
    clean_path, clean_path_spec, drop_ext, drop_ext_spec, ext_of, ext_spec, file_name_of,
    find_char, is_abs, join_path, join_spec, lemma_trim_left_at,
    lemma_trim_right_at, norm_path_spec, norm_url_spec, normalise_url, normalize_path, parent_of,
    parent_spec, path_is_abs, path_parts, path_segs, render, render_path, str_eq,
    str_starts_with, substr_eq, substring, trim_left_p, trim_right_p, trim_spec, trim_ws,
};
use crate::sets::{assoc_lookup, PathSet};
use crate::links::LinkMaps;
use crate::nav::docs_seg;
use crate::paths::{dotdot_seg, stem_of_name};

verus! {

// ---------------------------------------------------------------------------
// Small helpers
// ---------------------------------------------------------------------------

/// The characters `.md`.
pub open spec fn dot_md() -> Seq<char> {
    seq!['.', 'm', 'd']
}

/// The characters `md`.
pub open spec fn md_ext() -> Seq<char> {
    seq!['m', 'd']
}

/// The prefix of `s` before the first `c`, or all of `s`.
pub open spec fn before_char(s: Seq<char>, c: char) -> Seq<char>
    decreases s.len(),
{
    if s.len() == 0 {
        s
    } else if s[0] == c {
        Seq::empty()
    } else {
        seq![s[0]] + before_char(s.drop_first(), c)
    }
}

pub proof fn lemma_before_char_at(s: Seq<char>, c: char, k: int)
    requires
        0 <= k <= s.len(),
        forall|j: int| 0 <= j < k ==> s[j] != c,
        k < s.len() ==> s[k] == c,
    ensures
        before_char(s, c) == s.take(k),
    decreases k,
{
    if s.len() == 0 {
        assert(s.take(k) =~= s);
    } else if k == 0 {
        if s[0] == c {
            assert(s.take(0) =~= Seq::<char>::empty());
        } else {
            assert(false);
        }
    } else {
        lemma_before_char_at(s.drop_first(), c, k - 1);
        assert(seq![s[0]] + s.drop_first().take(k - 1) =~= s.take(k));
    }
}

/// The prefix of `s` before the first `c`, executable side.
pub fn cut_at_char(s: &str, c: char) -> (r: String)
    ensures
        r@ == before_char(s@, c),
{
    match find_char(s, c) {
        Option::Some(i) => {
            let r = substring(s, 0, i);
            proof {
                lemma_before_char_at(s@, c, i as int);
            }
            r
        },
        Option::None => {
            proof {
                lemma_before_char_at(s@, c, s@.len() as int);
                assert(s@.take(s@.len() as int) =~= s@);
            }
            String::from_str(s)
        },
    }
}

/// Leading `/` characters removed.
pub fn trim_leading_slashes(s: &str) -> (r: String)
    ensures
        r@ == trim_left_p(s@, |c: char| c == '/'),
{
    let n = s.unicode_len();
    let mut i: usize = 0;
    loop
        invariant
            i <= n,
            n == s@.len(),
            forall|j: int| 0 <= j < i ==> s@[j] == '/',
        ensures
            i <= n,
            forall|j: int| 0 <= j < i ==> s@[j] == '/',
            i < n ==> s@[i as int] != '/',
        decreases n - i,
    {
        if i >= n {
            break;
        }
        if s.get_char(i) != '/' {
            break;
        }
        i = i + 1;
    }
    let r = substring(s, i, n);
    proof {
        lemma_trim_left_at(s@, |c: char| c == '/', i as int);
        assert(s@.subrange(i as int, n as int) =~= s@.skip(i as int));
    }
    r
}

/// Trailing `/` characters removed.
pub fn trim_trailing_slashes(s: &str) -> (r: String)
    ensures
        r@ == trim_right_p(s@, |c: char| c == '/'),
{
    let n = s.unicode_len();
    let mut j: usize = n;
    loop
        invariant
            j <= n,
            n == s@.len(),
            forall|k: int| j <= k < n ==> s@[k] == '/',
        ensures
            j <= n,
            forall|k: int| j <= k < n ==> s@[k] == '/',
            j > 0 ==> s@[j - 1] != '/',
        decreases j,
    {
        if j == 0 {
            break;
        }
        if s.get_char(j - 1) != '/' {
            break;
        }
        j = j - 1;
    }
    let r = substring(s, 0, j);
    proof {
        lemma_trim_right_at(s@, |c: char| c == '/', j as int);
        assert(s@.subrange(0, j as int) =~= s@.take(j as int));
    }
    r
}

// ---------------------------------------------------------------------------
// Link normalization
// ---------------------------------------------------------------------------

/// One raw link destination brought into checkable form, or dropped:
/// the page-internal anchor goes, external and mailto links are dropped,
/// a trailing `/` becomes `.md`, a non-markdown extension drops the link,
/// and a missing extension gets `.md` appended.
pub open spec fn normalise_one(link: Seq<char>) -> Option<Seq<char>> {
    let t = trim_spec(before_char(link, '#'));
    if t.len() == 0 {
        Option::None
    } else if t.len() >= 4 && t.take(4) == seq!['h', 't', 't', 'p'] {
        Option::None
    } else if t.len() >= 7 && t.take(7) == seq!['m', 'a', 'i', 'l', 't', 'o', ':'] {
        Option::None
    } else if t.last() == '/' {
        let u = trim_right_p(t, |c: char| c == '/');
        if u.len() == 0 {
            Option::None
        } else {
            Option::Some(u + dot_md())
        }
    } else {
        match ext_spec(t) {
            Option::Some(e) => if e == md_ext() {
                Option::Some(t)
            } else {
                Option::None
            },
            Option::None => Option::Some(t + dot_md()),
        }
    }
}

/// A whole list of raw links, normalized in order.
pub open spec fn normalise_list(links: Seq<Seq<char>>) -> Seq<Seq<char>>
    decreases links.len(),
{
    if links.len() == 0 {
        Seq::empty()
    } else {
        let rest = normalise_list(links.drop_first());
        match normalise_one(links[0]) {
            Option::Some(x) => seq![x] + rest,
            Option::None => rest,
        }
    }
}

/// Normalize one raw link destination.
pub fn normalise_link(link: &str) -> (r: Option<String>)
    ensures
        match r {
            Option::Some(x) => normalise_one(link@) == Option::Some(x@),
            Option::None => normalise_one(link@) == Option::<Seq<char>>::None,
        },
{
    let cut = cut_at_char(link, '#');
    let t = trim_ws(cut.as_str());
    let n = t.as_str().unicode_len();
    if n == 0 {
        return Option::None;
    }
    proof {
        reveal_strlit("http");
        reveal_strlit("mailto:");
        assert("http"@ =~= seq!['h', 't', 't', 'p']);
        assert("mailto:"@ =~= seq!['m', 'a', 'i', 'l', 't', 'o', ':']);
    }
    if str_starts_with(t.as_str(), "http") {
        proof {
            assert(t@.subrange(0, 4) =~= t@.take(4));
        }
        return Option::None;
    }
    proof {
        assert(!(t@.len() >= 4 && t@.take(4) == seq!['h', 't', 't', 'p'])) by {
            if t@.len() >= 4 && t@.take(4) == seq!['h', 't', 't', 'p'] {
                assert(t@.subrange(0, 4) =~= t@.take(4));
            }
        }
    }
    if str_starts_with(t.as_str(), "mailto:") {
        proof {
            assert(t@.subrange(0, 7) =~= t@.take(7));
        }
        return Option::None;
    }
    proof {
        assert(!(t@.len() >= 7 && t@.take(7) == seq!['m', 'a', 'i', 'l', 't', 'o', ':'])) by {
            if t@.len() >= 7 && t@.take(7) == seq!['m', 'a', 'i', 'l', 't', 'o', ':'] {
                assert(t@.subrange(0, 7) =~= t@.take(7));
            }
        }
    }
    proof {
        reveal_strlit(".md");
        reveal_strlit("md");
        assert(".md"@ =~= dot_md());
        assert("md"@ =~= md_ext());
    }
    if t.as_str().get_char(n - 1) == '/' {
        let u = trim_trailing_slashes(t.as_str());
        if u.as_str().unicode_len() == 0 {
            return Option::None;
        }
        let r = u.concat(".md");
        return Option::Some(r);
    }
    match ext_of(t.as_str()) {
        Option::Some(e) => {
            if str_eq(e.as_str(), "md") {
                Option::Some(t)
            } else {
                Option::None
            }
        },
        Option::None => {
            let r = t.concat(".md");
            Option::Some(r)
        },
    }
}

/// Normalize a list of raw link destinations, dropping those that are not
/// checkable markdown targets.
pub fn normalise_links(links: Vec<String>) -> (r: Vec<String>)
    ensures
        r.deep_view() == normalise_list(links.deep_view()),
{
    let ghost all = links.deep_view();
    let mut out: Vec<String> = Vec::new();
    let mut i: usize = 0;
    proof {
        assert(all.skip(0) =~= all);
        assert(out.deep_view() =~= Seq::<Seq<char>>::empty());
        assert(Seq::<Seq<char>>::empty() + normalise_list(all) =~= normalise_list(all));
    }
    while i < links.len()
        invariant
            i <= links.len(),
            all == links.deep_view(),
            normalise_list(all) == out.deep_view() + normalise_list(all.skip(i as int)),
        decreases links.len() - i,
    {
        let ghost old_out = out.deep_view();
        proof {
            assert(all.skip(i as int)[0] == all[i as int]);
            assert(all.skip(i as int).drop_first() =~= all.skip(i + 1));
            assert(links.deep_view()[i as int] == links@[i as int]@);
        }
        match normalise_link(links[i].as_str()) {
            Option::Some(x) => {
                let ghost gx = x@;
                out.push(x);
                proof {
                    assert(out.deep_view() =~= old_out.push(gx));
                    assert(old_out.push(gx) + normalise_list(all.skip(i + 1)) =~= old_out + (
                    seq![gx] + normalise_list(all.skip(i + 1))));
                }
            },
            Option::None => {
            },
        }
        i = i + 1;
    }
    proof {
        assert(all.skip(links.len() as int) =~= Seq::<Seq<char>>::empty());
        assert(out.deep_view() + Seq::<Seq<char>>::empty() =~= out.deep_view());
    }
    out
}

// ---------------------------------------------------------------------------
// Docs roots
// ---------------------------------------------------------------------------

/// Index of the last component named `docs`, or -1.
pub open spec fn last_docs(ps: Seq<Seq<char>>) -> int
    decreases ps.len(),
{
    if ps.len() == 0 {
        -1
    } else if ps.last() == docs_seg() {
        ps.len() - 1
    } else {
        last_docs(ps.drop_last())
    }
}

pub proof fn lemma_last_docs_bounds(ps: Seq<Seq<char>>)
    ensures
        -1 <= last_docs(ps) < ps.len(),
    decreases ps.len(),
{
    if ps.len() > 0 && ps.last() != docs_seg() {
        lemma_last_docs_bounds(ps.drop_last());
    }
}

/// The documentation root of a file: the parent of its nearest ancestor
/// directory literally named `docs`.
pub open spec fn docs_root_spec(s: Seq<char>) -> Option<Seq<char>> {
    let ps = path_segs(s);
    let j = last_docs(ps);
    if j >= 0 {
        Option::Some(render(is_abs(s), ps.take(j)))
    } else {
        Option::None
    }
}

/// Copy of the first `k` elements.
pub fn vec_take(parts: &Vec<String>, k: usize) -> (r: Vec<String>)
    requires
        k <= parts.len(),
    ensures
        r.deep_view() == parts.deep_view().take(k as int),
{
    let mut out: Vec<String> = Vec::new();
    let mut i: usize = 0;
    proof {
        assert(out.deep_view() =~= parts.deep_view().take(0));
    }
    while i < k
        invariant
            i <= k <= parts.len(),
            out.deep_view() =~= parts.deep_view().take(i as int),
        decreases k - i,
    {
        let ghost before = out.deep_view();
        out.push(parts[i].clone());
        proof {
            assert(out.deep_view() =~= before.push(parts.deep_view()[i as int]));
            assert(out.deep_view() =~= parts.deep_view().take(i + 1));
        }
        i = i + 1;
    }
    out
}

/// Find the last component named `docs`.
pub fn docs_ix_of(parts: &Vec<String>) -> (r: Option<usize>)
    ensures
        match r {
            Option::Some(j) => last_docs(parts.deep_view()) == j as int && j < parts.len(),
            Option::None => last_docs(parts.deep_view()) == -1,
        },
{
    let ghost ps = parts.deep_view();
    let mut k: usize = parts.len();
    proof {
        assert(ps.take(parts.len() as int) =~= ps);
    }
    loop
        invariant
            k <= parts.len(),
            ps == parts.deep_view(),
            last_docs(ps) == last_docs(ps.take(k as int)),
        ensures
            k <= parts.len(),
            last_docs(ps) == last_docs(ps.take(k as int)),
            k == 0 || ps[k - 1] == docs_seg(),
        decreases k,
    {
        if k == 0 {
            break;
        }
        proof {
            reveal_strlit("docs");
            assert("docs"@ =~= docs_seg());
            assert(ps.take(k as int).last() == ps[k - 1]);
            assert(ps.take(k as int).drop_last() =~= ps.take(k - 1));
            assert(parts.deep_view()[k - 1] == parts@[k - 1]@);
        }
        if str_eq(parts[k - 1].as_str(), "docs") {
            break;
        }
        k = k - 1;
    }
    if k == 0 {
        proof {
            assert(ps.take(0) =~= Seq::<Seq<char>>::empty());
        }
        Option::None
    } else {
        proof {
            assert(ps.take(k as int).last() == ps[k - 1]);
        }
        Option::Some(k - 1)
    }
}

/// The parent of the nearest ancestor directory named `docs`, walking
/// upward from the path itself.
pub fn docs_root_for(s: &str) -> (r: Option<String>)
    ensures
        match r {
            Option::Some(d) => docs_root_spec(s@) == Option::Some(d@),
            Option::None => docs_root_spec(s@) == Option::<Seq<char>>::None,
        },
{
    let parts = path_parts(s);
    let abs = path_is_abs(s);
    match docs_ix_of(&parts) {
        Option::Some(j) => {
            let head = vec_take(&parts, j);
            Option::Some(render_path(abs, &head))
        },
        Option::None => Option::None,
    }
}

// ---------------------------------------------------------------------------
// Nav-relative URL lookup
// ---------------------------------------------------------------------------

/// The rendered URL a link names, seen from the source page's own URL:
/// absolute links resolve against the site root, relative ones against the
/// URL's parent; the extension goes, and the result is canonical.
pub open spec fn rendered_url_spec(from_url: Seq<char>, link: Seq<char>) -> Seq<char> {
    let target = trim_left_p(link, |c: char| c == '/');
    let joined = if is_abs(link) {
        target
    } else {
        join_spec(parent_spec(from_url), target)
    };
    norm_url_spec(drop_ext_spec(joined))
}

/// The rendered URL of a link, when the source page has one.
pub open spec fn rendered_url_opt(
    s2u: Seq<(Seq<char>, Seq<char>)>,
    from_src: Seq<char>,
    link: Seq<char>,
) -> Option<Seq<char>> {
    match assoc_lookup(s2u, from_src) {
        Option::Some(u) => Option::Some(rendered_url_spec(u, link)),
        Option::None => Option::<Seq<char>>::None,
    }
}

/// Compute the rendered URL a link should resolve to, from the source's
/// canonical URL in the maps.
pub fn rendered_url_for_link(from_src: &str, link: &str, maps: &LinkMaps) -> (r: Option<String>)
    ensures
        match r {
            Option::Some(u) => rendered_url_opt(maps.src_to_url@, from_src@, link@)
                == Option::Some(u@),
            Option::None => rendered_url_opt(maps.src_to_url@, from_src@, link@)
                == Option::<Seq<char>>::None,
        },
{
    let from_url = match maps.src_to_url.get(from_src) {
        Option::Some(u) => u.clone(),
        Option::None => {
            return Option::None;
        },
    };
    let target = trim_leading_slashes(link);
    let joined = if path_is_abs(link) {
        target
    } else {
        let base = parent_of(from_url.as_str());
        join_path(base.as_str(), target.as_str())
    };
    Option::Some(normalise_url(drop_ext(joined.as_str()).as_str()))
}

/// A rendered URL looked up in the URL map, retrying without a trailing
/// slash and then with a `/index` suffix.
pub open spec fn lookup_url_spec(
    u2s: Seq<(Seq<char>, Seq<char>)>,
    rendered: Seq<char>,
) -> Option<Seq<char>> {
    match assoc_lookup(u2s, rendered) {
        Option::Some(p) => Option::Some(p),
        Option::None => {
            let alt = trim_right_p(rendered, |c: char| c == '/');
            match assoc_lookup(u2s, alt) {
                Option::Some(p) => Option::Some(p),
                Option::None => assoc_lookup(u2s, alt + seq!['/', 'i', 'n', 'd', 'e', 'x']),
            }
        },
    }
}

/// Look a rendered URL up, with the directory-index retries.
pub fn lookup_url(rendered: &str, maps: &LinkMaps) -> (r: Option<String>)
    ensures
        match r {
            Option::Some(p) => lookup_url_spec(maps.url_to_src@, rendered@) == Option::Some(p@),
            Option::None => lookup_url_spec(maps.url_to_src@, rendered@)
                == Option::<Seq<char>>::None,
        },
{
    match maps.url_to_src.get(rendered) {
        Option::Some(p) => {
            return Option::Some(p.clone());
        },
        Option::None => {
        },
    }
    let alt = trim_trailing_slashes(rendered);
    match maps.url_to_src.get(alt.as_str()) {
        Option::Some(p) => {
            return Option::Some(p.clone());
        },
        Option::None => {
        },
    }
    let alt2 = alt.concat("/index");
    proof {
        reveal_strlit("/index");
        assert("/index"@ =~= seq!['/', 'i', 'n', 'd', 'e', 'x']);
    }
    match maps.url_to_src.get(alt2.as_str()) {
        Option::Some(p) => Option::Some(p.clone()),
        Option::None => Option::None,
    }
}

/// Nav-relative resolution: source URL, link joined on, looked up.
pub open spec fn resolve_link_spec(
    u2s: Seq<(Seq<char>, Seq<char>)>,
    s2u: Seq<(Seq<char>, Seq<char>)>,
    from_src: Seq<char>,
    link: Seq<char>,
) -> Option<Seq<char>> {
    match assoc_lookup(s2u, from_src) {
        Option::Some(u) => lookup_url_spec(u2s, rendered_url_spec(u, link)),
        Option::None => Option::<Seq<char>>::None,
    }
}

/// Resolve a link through the nav maps alone.
pub fn resolve_link(from_src: &str, link: &str, maps: &LinkMaps) -> (r: Option<String>)
    ensures
        match r {
            Option::Some(p) => resolve_link_spec(maps.url_to_src@, maps.src_to_url@, from_src@, link@)
                == Option::Some(p@),
            Option::None => resolve_link_spec(maps.url_to_src@, maps.src_to_url@, from_src@, link@)
                == Option::<Seq<char>>::None,
        },
{
    match rendered_url_for_link(from_src, link, maps) {
        Option::Some(rendered) => lookup_url(rendered.as_str(), maps),
        Option::None => Option::None,
    }
}

// ---------------------------------------------------------------------------
// Setting the `.md` extension
// ---------------------------------------------------------------------------

pub proof fn lemma_render_append(abs: bool, parts: Seq<Seq<char>>, x: Seq<char>, suf: Seq<char>)
    ensures
        render(abs, parts.push(x)) + suf == render(abs, parts.push(x + suf)),
{
    if parts.len() == 0 {
        assert(parts.push(x).len() == 1);
        assert(parts.push(x)[0] == x);
        assert(parts.push(x + suf)[0] == x + suf);
        assert(crate::paths::unsplit(parts.push(x)) == x);
        assert(crate::paths::unsplit(parts.push(x + suf)) == x + suf);
        if abs {
            assert((seq!['/'] + x) + suf =~= seq!['/'] + (x + suf));
        }
    } else {
        assert(parts.push(x).drop_last() =~= parts);
        assert(parts.push(x + suf).drop_last() =~= parts);
        assert(parts.push(x).last() == x);
        assert(parts.push(x + suf).last() == x + suf);
        let u = crate::paths::unsplit(parts);
        assert(crate::paths::unsplit(parts.push(x)) == u + seq!['/'] + x);
        assert(crate::paths::unsplit(parts.push(x + suf)) == u + seq!['/'] + (x + suf));
        assert((u + seq!['/'] + x) + suf =~= u + seq!['/'] + (x + suf));
        if abs {
            assert((seq!['/'] + (u + seq!['/'] + x)) + suf =~= seq!['/'] + (u + seq!['/'] + (x
                + suf)));
        }
    }
}

/// A path with its extension set to `md`, rendered from cleaned segments.
pub open spec fn with_md_spec(s: Seq<char>) -> Seq<char> {
    let ps = path_segs(s);
    if ps.len() == 0 || ps.last() == dotdot_seg() {
        render(is_abs(s), ps)
    } else {
        render(is_abs(s), ps.drop_last().push(stem_of_name(ps.last()) + dot_md()))
    }
}

/// Set a path's extension to `md`.
pub fn with_md(s: &str) -> (r: String)
    ensures
        r@ == with_md_spec(s@),
{
    match file_name_of(s) {
        Option::None => clean_path(s),
        Option::Some(_) => {
            let d = drop_ext(s);
            proof {
                reveal_strlit(".md");
                assert(".md"@ =~= dot_md());
                let ps = path_segs(s@);
                lemma_render_append(
                    is_abs(s@),
                    ps.drop_last(),
                    stem_of_name(ps.last()),
                    dot_md(),
                );
            }
            d.concat(".md")
        },
    }
}

// ---------------------------------------------------------------------------
// Index fallback
// ---------------------------------------------------------------------------

/// The file name `index.md`.
pub open spec fn index_md() -> Seq<char> {
    seq!['i', 'n', 'd', 'e', 'x', '.', 'm', 'd']
}

/// A candidate checked against the known-to-exist set, falling back from
/// `X.md` to `X/index.md`, as a served directory index would.
pub open spec fn fb_spec(cand: Seq<char>, existing: Seq<Seq<char>>) -> Option<Seq<char>> {
    let n = norm_path_spec(cand);
    if existing.contains(n) {
        Option::Some(n)
    } else {
        let idx = join_spec(drop_ext_spec(n), index_md());
        if existing.contains(idx) {
            Option::Some(idx)
        } else {
            Option::<Seq<char>>::None
        }
    }
}

/// Check a candidate path, with the `X/index.md` fallback.
pub fn check_with_index_fallback(candidate: &str, existing: &PathSet) -> (r: Option<String>)
    ensures
        match r {
            Option::Some(p) => fb_spec(candidate@, existing@) == Option::Some(p@),
            Option::None => fb_spec(candidate@, existing@) == Option::<Seq<char>>::None,
        },
{
    let n = normalize_path(candidate);
    if existing.contains(n.as_str()) {
        return Option::Some(n);
    }
    let idx = join_path(drop_ext(n.as_str()).as_str(), "index.md");
    proof {
        reveal_strlit("index.md");
        assert("index.md"@ =~= index_md());
    }
    if existing.contains(idx.as_str()) {
        Option::Some(idx)
    } else {
        Option::None
    }
}

// ---------------------------------------------------------------------------
// URL-space resolution
// ---------------------------------------------------------------------------

/// Every leading repetition of `p` removed from `s`.
pub open spec fn strip_all(s: Seq<char>, p: Seq<char>) -> Seq<char>
    decreases s.len(),
{
    if p.len() > 0 && s.len() >= p.len() && s.take(p.len() as int) == p {
        strip_all(s.skip(p.len() as int), p)
    } else {
        s
    }
}

/// Remove every leading repetition of `p` from `s`.
pub fn strip_all_prefix(s: &str, p: &str) -> (r: String)
    ensures
        r@ == strip_all(s@, p@),
{
    let n = s.unicode_len();
    let m = p.unicode_len();
    if m == 0 {
        return String::from_str(s);
    }
    let mut i: usize = 0;
    proof {
        assert(s@.skip(0) =~= s@);
    }
    loop
        invariant
            i <= n,
            n == s@.len(),
            m == p@.len(),
            m > 0,
            strip_all(s@, p@) == strip_all(s@.skip(i as int), p@),
        ensures
            i <= n,
            strip_all(s@, p@) == s@.skip(i as int),
        decreases n - i,
    {
        if m > n - i {
            proof {
                assert(s@.skip(i as int).len() < p@.len());
            }
            break;
        }
        if !substr_eq(s, i, i + m, p) {
            proof {
                assert(s@.skip(i as int).take(m as int) =~= s@.subrange(i as int, (i + m) as int));
            }
            break;
        }
        proof {
            assert(s@.skip(i as int).take(m as int) =~= s@.subrange(i as int, (i + m) as int));
            assert(s@.skip(i as int).skip(m as int) =~= s@.skip((i + m) as int));
        }
        i = i + m;
    }
    let r = substring(s, i, n);
    proof {
        assert(s@.subrange(i as int, n as int) =~= s@.skip(i as int));
    }
    r
}

/// Map a normalized URL path back to a filesystem path: when its first
/// segment names a different subsite whose `docs/` directory is known to
/// exist, `docs/` is inserted after that segment; otherwise the URL is
/// resolved inside the current subsite's `docs/` root.
pub open spec fn url_to_fs_spec(
    url: Seq<char>,
    subsite_name: Seq<char>,
    docs_dir: Seq<char>,
    root: Seq<char>,
    dirs: Seq<Seq<char>>,
) -> Seq<char> {
    let first = before_char(url, '/');
    let cand_docs = clean_path_spec(join_spec(join_spec(root, first), docs_seg()));
    if first != subsite_name && dirs.contains(cand_docs) {
        if first.len() < url.len() {
            with_md_spec(join_spec(cand_docs, url.skip(first.len() as int + 1)))
        } else {
            with_md_spec(cand_docs)
        }
    } else {
        with_md_spec(join_spec(docs_dir, strip_all(url, subsite_name + seq!['/'])))
    }
}

/// Map a normalized URL back to a filesystem path.
pub fn url_to_filesystem(
    url: &str,
    subsite_name: &str,
    docs_dir: &str,
    root: &str,
    dirs: &PathSet,
) -> (r: String)
    ensures
        r@ == url_to_fs_spec(url@, subsite_name@, docs_dir@, root@, dirs@),
{
    let first = cut_at_char(url, '/');
    let cand_docs = clean_path(
        join_path(join_path(root, first.as_str()).as_str(), "docs").as_str(),
    );
    proof {
        reveal_strlit("docs");
        assert("docs"@ =~= docs_seg());
    }
    if !str_eq(first.as_str(), subsite_name) && dirs.contains(cand_docs.as_str()) {
        let flen = first.as_str().unicode_len();
        let n = url.unicode_len();
        if flen < n {
            let rest = substring(url, flen + 1, n);
            proof {
                assert(url@.subrange(flen + 1, n as int) =~= url@.skip(flen + 1));
            }
            with_md(join_path(cand_docs.as_str(), rest.as_str()).as_str())
        } else {
            with_md(cand_docs.as_str())
        }
    } else {
        let pat = String::from_str(subsite_name).concat("/");
        proof {
            reveal_strlit("/");
            assert(subsite_name@ + "/"@ =~= subsite_name@ + seq!['/']);
        }
        let stripped = strip_all_prefix(url, pat.as_str());
        with_md(join_path(docs_dir, stripped.as_str()).as_str())
    }
}

/// The candidate filesystem paths of a link resolved in URL space. A page
/// `dir/page.md` serves at `dir/page/`, so a relative link may mean a
/// sibling of that rendered directory or a sibling one level up: both
/// interpretations are produced, in that order, without duplicates.
pub open spec fn url_space_candidates(
    src: Seq<char>,
    link: Seq<char>,
    root: Seq<char>,
    dirs: Seq<Seq<char>>,
) -> Seq<Seq<char>> {
    let ps = path_segs(src);
    let j = last_docs(ps);
    if j < 1 {
        Seq::<Seq<char>>::empty()
    } else {
        let docs_dir = render(is_abs(src), ps.take(j + 1));
        let subsite_name = ps[j - 1];
        let src_url = drop_ext_spec(join_spec(subsite_name, render(false, ps.skip(j + 1))));
        let link_path = drop_ext_spec(link);
        if is_abs(link) {
            let resolved = norm_url_spec(trim_left_p(link_path, |c: char| c == '/'));
            seq![url_to_fs_spec(resolved, subsite_name, docs_dir, root, dirs)]
        } else {
            let n1 = norm_url_spec(join_spec(src_url, link_path));
            let n2 = norm_url_spec(join_spec(parent_spec(src_url), link_path));
            let l1 = if n1.len() > 0 {
                seq![url_to_fs_spec(n1, subsite_name, docs_dir, root, dirs)]
            } else {
                Seq::<Seq<char>>::empty()
            };
            if n2.len() > 0 && !l1.contains(
                url_to_fs_spec(n2, subsite_name, docs_dir, root, dirs),
            ) {
                l1.push(url_to_fs_spec(n2, subsite_name, docs_dir, root, dirs))
            } else {
                l1
            }
        }
    }
}

/// Resolve a link in URL space, then map each candidate back to the
/// filesystem.
pub fn resolve_link_via_url_space(src: &str, link: &str, root: &str, dirs: &PathSet) -> (r: Vec<
    String,
>)
    ensures
        r.deep_view() == url_space_candidates(src@, link@, root@, dirs@),
{
    let ghost spec_out = url_space_candidates(src@, link@, root@, dirs@);
    let parts = path_parts(src);
    let abs = path_is_abs(src);
    let mut out: Vec<String> = Vec::new();
    let j = match docs_ix_of(&parts) {
        Option::Some(j) => j,
        Option::None => {
            proof {
                assert(out.deep_view() =~= spec_out);
            }
            return out;
        },
    };
    if j < 1 {
        proof {
            assert(out.deep_view() =~= spec_out);
        }
        return out;
    }
    let head = vec_take(&parts, j + 1);
    let docs_dir = render_path(abs, &head);
    let subsite_name = parts[j - 1].clone();
    proof {
        assert(parts.deep_view()[j - 1] == parts@[j - 1]@);
    }
    let mut within: Vec<String> = Vec::new();
    let mut k: usize = j + 1;
    proof {
        assert(within.deep_view() =~= parts.deep_view().skip(j + 1).take(0));
    }
    while k < parts.len()
        invariant
            j + 1 <= k <= parts.len(),
            parts.deep_view() == path_segs(src@),
            within.deep_view() =~= parts.deep_view().skip(j + 1).take(k - j - 1),
        decreases parts.len() - k,
    {
        let ghost before = within.deep_view();
        within.push(parts[k].clone());
        proof {
            assert(within.deep_view() =~= before.push(parts.deep_view()[k as int]));
            assert(within.deep_view() =~= parts.deep_view().skip(j + 1).take(k - j));
        }
        k = k + 1;
    }
    proof {
        assert(parts.deep_view().skip(j + 1).take(parts.len() - j - 1) =~= parts.deep_view().skip(
            j + 1,
        ));
    }
    let within_path = render_path(false, &within);
    let src_url = drop_ext(
        join_path(subsite_name.as_str(), within_path.as_str()).as_str(),
    );
    let link_path = drop_ext(link);
    if path_is_abs(link) {
        let resolved = normalise_url(trim_leading_slashes(link_path.as_str()).as_str());
        let f = url_to_filesystem(
            resolved.as_str(),
            subsite_name.as_str(),
            docs_dir.as_str(),
            root,
            dirs,
        );
        let ghost gf = f@;
        out.push(f);
        proof {
            assert(out.deep_view() =~= seq![gf]);
        }
        return out;
    }
    let n1 = normalise_url(join_path(src_url.as_str(), link_path.as_str()).as_str());
    let n2 = normalise_url(
        join_path(parent_of(src_url.as_str()).as_str(), link_path.as_str()).as_str(),
    );
    if n1.as_str().unicode_len() > 0 {
        let f1 = url_to_filesystem(
            n1.as_str(),
            subsite_name.as_str(),
            docs_dir.as_str(),
            root,
            dirs,
        );
        let ghost gf1 = f1@;
        out.push(f1);
        proof {
            assert(out.deep_view() =~= seq![gf1]);
        }
    }
    if n2.as_str().unicode_len() > 0 {
        let f2 = url_to_filesystem(
            n2.as_str(),
            subsite_name.as_str(),
            docs_dir.as_str(),
            root,
            dirs,
        );
        let mut dup = false;
        if out.len() > 0 {
            dup = str_eq(out[0].as_str(), f2.as_str());
        }
        proof {
            if out.len() > 0 {
                assert(out.deep_view()[0] == out@[0]@);
            }
            assert(dup == out.deep_view().contains(f2@)) by {
                if out.deep_view().contains(f2@) {
                    assert(out.deep_view().len() == 1);
                    assert(out.deep_view()[0] == f2@);
                }
            }
        }
        if !dup {
            let ghost before = out.deep_view();
            let ghost gf2 = f2@;
            out.push(f2);
            proof {
                assert(out.deep_view() =~= before.push(gf2));
            }
        }
    }
    proof {
        assert(out.deep_view() =~= spec_out);
    }
    out
}

// ---------------------------------------------------------------------------
// Filesystem fallbacks
// ---------------------------------------------------------------------------

/// The filesystem fallback for a link: absolute links join onto the
/// source's doc root's `docs/`, relative links onto the source's parent.
pub open spec fn fs_path_spec(src: Seq<char>, link: Seq<char>) -> Option<Seq<char>> {
    if is_abs(link) {
        match docs_root_spec(src) {
            Option::Some(dr) => Option::Some(
                clean_path_spec(
                    join_spec(join_spec(dr, docs_seg()), trim_left_p(link, |c: char| c == '/')),
                ),
            ),
            Option::None => Option::<Seq<char>>::None,
        }
    } else {
        if path_segs(src).len() == 0 {
            Option::<Seq<char>>::None
        } else {
            Option::Some(clean_path_spec(join_spec(parent_spec(src), link)))
        }
    }
}

/// Resolve a link as a plain filesystem path from the source's doc root or
/// parent directory.
pub fn fs_path_from_link(src: &str, link: &str) -> (r: Option<String>)
    ensures
        match r {
            Option::Some(p) => fs_path_spec(src@, link@) == Option::Some(p@),
            Option::None => fs_path_spec(src@, link@) == Option::<Seq<char>>::None,
        },
{
    if path_is_abs(link) {
        match docs_root_for(src) {
            Option::Some(dr) => {
                let base = join_path(dr.as_str(), "docs");
                proof {
                    reveal_strlit("docs");
                    assert("docs"@ =~= docs_seg());
                }
                let rel = trim_leading_slashes(link);
                Option::Some(clean_path(join_path(base.as_str(), rel.as_str()).as_str()))
            },
            Option::None => Option::None,
        }
    } else {
        let parts = path_parts(src);
        if parts.len() == 0 {
            return Option::None;
        }
        let base = parent_of(src);
        Option::Some(clean_path(join_path(base.as_str(), link).as_str()))
    }
}

// ---------------------------------------------------------------------------
// The cascade
// ---------------------------------------------------------------------------

/// The first candidate that exists (with index fallback), in order.
pub open spec fn first_fb(cands: Seq<Seq<char>>, existing: Seq<Seq<char>>) -> Option<Seq<char>>
    decreases cands.len(),
{
    if cands.len() == 0 {
        Option::<Seq<char>>::None
    } else {
        match fb_spec(cands[0], existing) {
            Option::Some(t) => Option::Some(t),
            Option::None => first_fb(cands.drop_first(), existing),
        }
    }
}

/// A rendered URL turned into a guess under one root: `root/docs/<url>.md`.
pub open spec fn root_guess(dir: Seq<char>, rendered: Seq<char>) -> Seq<char> {
    with_md_spec(join_spec(join_spec(dir, docs_seg()), rendered))
}

/// The first subsite root whose guess exists.
pub open spec fn roots_fb(
    roots: Seq<Seq<char>>,
    rendered: Seq<char>,
    existing: Seq<Seq<char>>,
) -> Option<Seq<char>>
    decreases roots.len(),
{
    if roots.len() == 0 {
        Option::<Seq<char>>::None
    } else {
        match fb_spec(root_guess(roots[0], rendered), existing) {
            Option::Some(t) => Option::Some(t),
            Option::None => roots_fb(roots.drop_first(), rendered, existing),
        }
    }
}

/// The last-resort strategy: the link joined onto the source's immediate
/// parent with no URL interpretation at all.
pub open spec fn parent_join_spec(
    src: Seq<char>,
    link: Seq<char>,
    existing: Seq<Seq<char>>,
) -> Option<Seq<char>> {
    if path_segs(src).len() == 0 {
        Option::<Seq<char>>::None
    } else {
        fb_spec(clean_path_spec(join_spec(parent_spec(src), link)), existing)
    }
}

/// Strategies four and five: filesystem fallback, then the plain parent
/// join.
pub open spec fn fs_steps_spec(
    src: Seq<char>,
    link: Seq<char>,
    existing: Seq<Seq<char>>,
) -> Option<Seq<char>> {
    match fs_path_spec(src, link) {
        Option::Some(c) => match fb_spec(c, existing) {
            Option::Some(t) => Option::Some(t),
            Option::None => parent_join_spec(src, link, existing),
        },
        Option::None => parent_join_spec(src, link, existing),
    }
}

/// Strategy three: the rendered URL tested under the source's own doc root
/// and then under every subsite root.
pub open spec fn rendered_roots_spec(
    s2u: Seq<(Seq<char>, Seq<char>)>,
    src: Seq<char>,
    link: Seq<char>,
    roots: Seq<Seq<char>>,
    existing: Seq<Seq<char>>,
) -> Option<Seq<char>> {
    match rendered_url_opt(s2u, src, link) {
        Option::Some(rendered) => {
            let own = match docs_root_spec(src) {
                Option::Some(dr) => fb_spec(root_guess(dr, rendered), existing),
                Option::None => Option::<Seq<char>>::None,
            };
            match own {
                Option::Some(t) => Option::Some(t),
                Option::None => roots_fb(roots, rendered, existing),
            }
        },
        Option::None => Option::<Seq<char>>::None,
    }
}

/// The whole ordered cascade, stopping at the first success.
pub open spec fn cascade_spec(
    u2s: Seq<(Seq<char>, Seq<char>)>,
    s2u: Seq<(Seq<char>, Seq<char>)>,
    src: Seq<char>,
    link: Seq<char>,
    root: Seq<char>,
    roots: Seq<Seq<char>>,
    existing: Seq<Seq<char>>,
    dirs: Seq<Seq<char>>,
) -> Option<Seq<char>> {
    match resolve_link_spec(u2s, s2u, src, link) {
        Option::Some(t) => Option::Some(t),
        Option::None => match first_fb(url_space_candidates(src, link, root, dirs), existing) {
            Option::Some(t) => Option::Some(t),
            Option::None => match rendered_roots_spec(s2u, src, link, roots, existing) {
                Option::Some(t) => Option::Some(t),
                Option::None => fs_steps_spec(src, link, existing),
            },
        },
    }
}

/// Resolve one link from one source page, trying every strategy in order
/// against the known-to-exist set. `root` is the monorepo root, `roots`
/// the subsite directories, `existing` every path known to exist, and
/// `dirs` every directory known to exist.
#[verifier::loop_isolation(false)]
pub fn resolve_target(
    src: &str,
    link: &str,
    maps: &LinkMaps,
    root: &str,
    roots: &PathSet,
    existing: &PathSet,
    dirs: &PathSet,
) -> (r: Option<String>)
    ensures
        match r {
            Option::Some(t) => cascade_spec(
                maps.url_to_src@,
                maps.src_to_url@,
                src@,
                link@,
                root@,
                roots@,
                existing@,
                dirs@,
            ) == Option::Some(t@),
            Option::None => cascade_spec(
                maps.url_to_src@,
                maps.src_to_url@,
                src@,
                link@,
                root@,
                roots@,
                existing@,
                dirs@,
            ) == Option::<Seq<char>>::None,
        },
{
    // 1) nav-relative URL lookup
    match resolve_link(src, link, maps) {
        Option::Some(t) => {
            return Option::Some(t);
        },
        Option::None => {
        },
    }
    // 2) URL-space resolution, both page-as-directory and parent models
    let cands = resolve_link_via_url_space(src, link, root, dirs);
    let ghost cseq = cands.deep_view();
    let mut i: usize = 0;
    proof {
        assert(cseq.skip(0) =~= cseq);
    }
    while i < cands.len()
        invariant
            i <= cands.len(),
            cseq == cands.deep_view(),
            first_fb(cseq, existing@) == first_fb(cseq.skip(i as int), existing@),
        decreases cands.len() - i,
    {
        proof {
            assert(cseq.skip(i as int)[0] == cseq[i as int]);
            assert(cseq.skip(i as int).drop_first() =~= cseq.skip(i + 1));
            assert(cands.deep_view()[i as int] == cands@[i as int]@);
        }
        match check_with_index_fallback(cands[i].as_str(), existing) {
            Option::Some(t) => {
                return Option::Some(t);
            },
            Option::None => {
            },
        }
        i = i + 1;
    }
    proof {
        assert(cseq.skip(cands.len() as int) =~= Seq::<Seq<char>>::empty());
    }
    // 3) rendered URL under the source's doc root, then every subsite root
    match rendered_url_for_link(src, link, maps) {
        Option::Some(rendered) => {
            proof {
                reveal_strlit("docs");
                assert("docs"@ =~= docs_seg());
            }
            match docs_root_for(src) {
                Option::Some(dr) => {
                    let guess = with_md(
                        join_path(
                            join_path(dr.as_str(), "docs").as_str(),
                            rendered.as_str(),
                        ).as_str(),
                    );
                    match check_with_index_fallback(guess.as_str(), existing) {
                        Option::Some(t) => {
                            return Option::Some(t);
                        },
                        Option::None => {
                        },
                    }
                },
                Option::None => {
                },
            }
            let ghost rseq = roots@;
            let mut k: usize = 0;
            proof {
                assert(rseq.skip(0) =~= rseq);
            }
            while k < roots.len()
                invariant
                    k <= rseq.len(),
                    rseq == roots@,
                    rendered@ == rendered_url_spec(
                        assoc_lookup(maps.src_to_url@, src@)->Some_0,
                        link@,
                    ),
                    assoc_lookup(maps.src_to_url@, src@) is Some,
                    roots_fb(rseq, rendered@, existing@) == roots_fb(
                        rseq.skip(k as int),
                        rendered@,
                        existing@,
                    ),
                decreases rseq.len() - k,
            {
                proof {
                    assert(rseq.skip(k as int)[0] == rseq[k as int]);
                    assert(rseq.skip(k as int).drop_first() =~= rseq.skip(k + 1));
                    reveal_strlit("docs");
                    assert("docs"@ =~= docs_seg());
                }
                let guess = with_md(
                    join_path(
                        join_path(roots.get(k).as_str(), "docs").as_str(),
                        rendered.as_str(),
                    ).as_str(),
                );
                match check_with_index_fallback(guess.as_str(), existing) {
                    Option::Some(t) => {
                        return Option::Some(t);
                    },
                    Option::None => {
                    },
                }
                k = k + 1;
            }
            proof {
                assert(rseq.skip(rseq.len() as int) =~= Seq::<Seq<char>>::empty());
            }
        },
        Option::None => {
        },
    }
    // 4) filesystem fallback from the raw link text
    match fs_path_from_link(src, link) {
        Option::Some(c) => {
            match check_with_index_fallback(c.as_str(), existing) {
                Option::Some(t) => {
                    return Option::Some(t);
                },
                Option::None => {
                },
            }
        },
        Option::None => {
        },
    }
    // 5) last resort: plain join onto the source's parent
    let parts = path_parts(src);
    if parts.len() == 0 {
        return Option::None;
    }
    let cand = clean_path(join_path(parent_of(src).as_str(), link).as_str());
    check_with_index_fallback(cand.as_str(), existing)
}

} // verus!
