//! Statements the library holds to as a whole: which paths the audit
//! reports missing, which files it calls ghosts, and how link resolution
//! and the URL maps relate.

use vstd::prelude::*;
use crate::engine::{
    audit_exist_spec, audit_pages_spec, audit_scan_spec, is_print_variant, lemma_missing_iff,
    lemma_orphans_iff, missing_spec, orphans_spec, retain_not_in,
};
use crate::nav::NavItem;
use crate::paths::{
    clean_segs, ext_spec, file_name_spec, is_space_char, keep_seg, last_dot, path_segs, segs_from,
    segs_of, trim_left_p, trim_right_p, trim_spec,
};
use crate::resolve::{
    before_char, dot_md, lookup_url_spec, md_ext, normalise_list, normalise_one, rendered_url_opt,
    rendered_url_spec, resolve_link_spec,
};
use crate::sets::assoc_lookup;

verus! {

/// No occurrence of `c` anywhere in `s`.
pub open spec fn no_char(s: Seq<char>, c: char) -> bool {
    forall|i: int| 0 <= i < s.len() ==> s[i] != c
}

proof fn lemma_before_no_char(s: Seq<char>, c: char)
    ensures
        no_char(before_char(s, c), c),
    decreases s.len(),
{
    if s.len() > 0 && s[0] != c {
        lemma_before_no_char(s.drop_first(), c);
        let r = seq![s[0]] + before_char(s.drop_first(), c);
        assert forall|i: int| 0 <= i < r.len() implies r[i] != c by {
            if i > 0 {
                assert(r[i] == before_char(s.drop_first(), c)[i - 1]);
            }
        }
    }
}

proof fn lemma_before_char_id(s: Seq<char>, c: char)
    requires
        no_char(s, c),
    ensures
        before_char(s, c) == s,
    decreases s.len(),
{
    if s.len() > 0 {
        assert(forall|i: int| 0 <= i < s.drop_first().len() ==> s.drop_first()[i] != c);
        lemma_before_char_id(s.drop_first(), c);
        assert(seq![s[0]] + s.drop_first() =~= s);
    }
}

proof fn lemma_trim_left_no_char(s: Seq<char>, p: spec_fn(char) -> bool, c: char)
    requires
        no_char(s, c),
    ensures
        no_char(trim_left_p(s, p), c),
    decreases s.len(),
{
    if s.len() > 0 && p(s[0]) {
        assert(forall|i: int| 0 <= i < s.drop_first().len() ==> s.drop_first()[i] != c);
        lemma_trim_left_no_char(s.drop_first(), p, c);
    }
}

proof fn lemma_trim_right_no_char(s: Seq<char>, p: spec_fn(char) -> bool, c: char)
    requires
        no_char(s, c),
    ensures
        no_char(trim_right_p(s, p), c),
    decreases s.len(),
{
    if s.len() > 0 && p(s.last()) {
        assert(forall|i: int| 0 <= i < s.drop_last().len() ==> s.drop_last()[i] != c);
        lemma_trim_right_no_char(s.drop_last(), p, c);
    }
}

/// Every index of a right-trim agrees with the original: the result is a
/// prefix.
proof fn lemma_trim_right_prefix(s: Seq<char>, p: spec_fn(char) -> bool)
    ensures
        trim_right_p(s, p).len() <= s.len(),
        forall|i: int| 0 <= i < trim_right_p(s, p).len() ==> trim_right_p(s, p)[i] == s[i],
    decreases s.len(),
{
    if s.len() > 0 && p(s.last()) {
        lemma_trim_right_prefix(s.drop_last(), p);
        assert forall|i: int| 0 <= i < trim_right_p(s, p).len() implies trim_right_p(s, p)[i]
            == s[i] by {
            assert(trim_right_p(s, p)[i] == s.drop_last()[i]);
        }
    }
}

/// A nonempty right-trim does not end in a trimmed character.
proof fn lemma_trim_right_last(s: Seq<char>, p: spec_fn(char) -> bool)
    ensures
        trim_right_p(s, p).len() > 0 ==> !p(trim_right_p(s, p).last()),
    decreases s.len(),
{
    if s.len() > 0 && p(s.last()) {
        lemma_trim_right_last(s.drop_last(), p);
    }
}

/// A nonempty left-trim does not start with a trimmed character.
proof fn lemma_trim_left_first(s: Seq<char>, p: spec_fn(char) -> bool)
    ensures
        trim_left_p(s, p).len() > 0 ==> !p(trim_left_p(s, p)[0]),
    decreases s.len(),
{
    if s.len() > 0 && p(s[0]) {
        lemma_trim_left_first(s.drop_first(), p);
    }
}

/// Trimming a string whose ends are already clean changes nothing.
proof fn lemma_trim_id(s: Seq<char>, p: spec_fn(char) -> bool)
    requires
        s.len() > 0 ==> !p(s[0]),
        s.len() > 0 ==> !p(s.last()),
    ensures
        trim_right_p(trim_left_p(s, p), p) == s,
{
}

/// A nonempty trimmed string starts and ends with untrimmed characters.
proof fn lemma_trim_ends(s: Seq<char>, p: spec_fn(char) -> bool)
    ensures
        trim_right_p(trim_left_p(s, p), p).len() > 0 ==> !p(
            trim_right_p(trim_left_p(s, p), p)[0],
        ),
        trim_right_p(trim_left_p(s, p), p).len() > 0 ==> !p(
            trim_right_p(trim_left_p(s, p), p).last(),
        ),
{
    let l = trim_left_p(s, p);
    let t = trim_right_p(l, p);
    lemma_trim_right_last(l, p);
    lemma_trim_right_prefix(l, p);
    lemma_trim_left_first(s, p);
    if t.len() > 0 {
        assert(t[0] == l[0]);
    }
}

// ---------------------------------------------------------------------------
// Segment lemmas for the idempotence of link normalization
// ---------------------------------------------------------------------------

proof fn lemma_segs_from_nonempty(s: Seq<char>, cur: Seq<char>)
    ensures
        segs_from(s, cur).len() >= 1,
    decreases s.len(),
{
    if s.len() > 0 {
        if s[0] == '/' {
            lemma_segs_from_nonempty(s.drop_first(), Seq::empty());
        } else {
            lemma_segs_from_nonempty(s.drop_first(), cur.push(s[0]));
        }
    }
}

/// A slash-free string is one whole segment.
proof fn lemma_segs_from_noslash(s: Seq<char>, cur: Seq<char>)
    requires
        no_char(s, '/'),
    ensures
        segs_from(s, cur) == seq![cur + s],
    decreases s.len(),
{
    if s.len() == 0 {
        assert(cur + s =~= cur);
    } else {
        assert(forall|i: int| 0 <= i < s.drop_first().len() ==> s.drop_first()[i] != '/');
        lemma_segs_from_noslash(s.drop_first(), cur.push(s[0]));
        assert(cur.push(s[0]) + s.drop_first() =~= cur + s);
    }
}

/// Appending a slash-free tail extends the last segment and nothing else.
proof fn lemma_segs_append_noslash(s: Seq<char>, cur: Seq<char>, tail: Seq<char>)
    requires
        no_char(tail, '/'),
    ensures
        segs_from(s + tail, cur) == segs_from(s, cur).drop_last().push(
            segs_from(s, cur).last() + tail,
        ),
    decreases s.len(),
{
    lemma_segs_from_nonempty(s, cur);
    if s.len() == 0 {
        assert(s + tail =~= tail);
        lemma_segs_from_noslash(tail, cur);
        assert(segs_from(s, cur) == seq![cur]);
        assert(seq![cur].drop_last().push(cur + tail) =~= seq![cur + tail]);
    } else {
        let st = s + tail;
        assert(st[0] == s[0]);
        assert(st.drop_first() =~= s.drop_first() + tail);
        if s[0] == '/' {
            lemma_segs_append_noslash(s.drop_first(), Seq::empty(), tail);
            let inner = segs_from(s.drop_first(), Seq::empty());
            lemma_segs_from_nonempty(s.drop_first(), Seq::empty());
            assert(segs_from(st, cur) == seq![cur] + inner.drop_last().push(inner.last() + tail));
            assert(segs_from(s, cur) == seq![cur] + inner);
            assert((seq![cur] + inner).drop_last() =~= seq![cur] + inner.drop_last());
            assert((seq![cur] + inner).last() == inner.last());
            assert(seq![cur] + inner.drop_last().push(inner.last() + tail) =~= (seq![cur]
                + inner.drop_last()).push(inner.last() + tail));
        } else {
            lemma_segs_append_noslash(s.drop_first(), cur.push(s[0]), tail);
        }
    }
}

/// Cleaning distributes over pushing a segment that survives it.
proof fn lemma_clean_push(parts: Seq<Seq<char>>, q: Seq<char>)
    requires
        keep_seg(q),
    ensures
        clean_segs(parts.push(q)) == clean_segs(parts).push(q),
    decreases parts.len(),
{
    if parts.len() == 0 {
        assert(parts.push(q)[0] == q);
        assert(parts.push(q).drop_first() =~= parts);
        assert(seq![q] + clean_segs(parts) =~= clean_segs(parts).push(q));
    } else {
        assert(parts.push(q)[0] == parts[0]);
        assert(parts.push(q).drop_first() =~= parts.drop_first().push(q));
        lemma_clean_push(parts.drop_first(), q);
        if keep_seg(parts[0]) {
            assert(seq![parts[0]] + clean_segs(parts.drop_first()).push(q) =~= (seq![parts[0]]
                + clean_segs(parts.drop_first())).push(q));
        }
    }
}

/// The last dot of `z + ".md"` is the appended one.
proof fn lemma_last_dot_append_md(z: Seq<char>)
    ensures
        last_dot(z + dot_md()) == z.len(),
{
    let y = z + dot_md();
    assert(y.len() == z.len() + 3);
    assert(y.last() == 'd');
    assert(last_dot(y) == last_dot(y.drop_last()));
    assert(y.drop_last() =~= z + seq!['.', 'm']);
    assert((z + seq!['.', 'm']).last() == 'm');
    assert(last_dot(z + seq!['.', 'm']) == last_dot((z + seq!['.', 'm']).drop_last()));
    assert((z + seq!['.', 'm']).drop_last() =~= z + seq!['.']);
    assert((z + seq!['.']).last() == '.');
    assert((z + seq!['.']).len() == z.len() + 1);
    assert(last_dot(z + seq!['.']) == z.len());
}

/// Appending `.md` to a path that does not end in `/` gives it the
/// extension `md`.
proof fn lemma_ext_append_md(w: Seq<char>)
    requires
        w.len() > 0,
        w.last() != '/',
    ensures
        ext_spec(w + dot_md()) == Option::Some(md_ext()),
{
    let y = w + dot_md();
    assert(no_char(dot_md(), '/'));
    lemma_segs_append_noslash(w, Seq::empty(), dot_md());
    let raw = segs_of(w);
    lemma_segs_from_nonempty(w, Seq::empty());
    let b = raw.last();
    // the last raw segment of `w` holds at least `w`'s last character
    assert(b.len() > 0 && b.last() != '/') by {
        lemma_segs_last_tracks(w, Seq::empty());
    }
    assert(segs_of(y) == raw.drop_last().push(b + dot_md()));
    let q = b + dot_md();
    assert(q.last() == 'd');
    assert(keep_seg(q)) by {
        assert(q.len() >= 3);
        assert(q[q.len() - 1] == 'd');
        assert(q != crate::paths::dot_seg()) by {
            if q == crate::paths::dot_seg() {
                assert(q.len() == 1);
            }
        }
    }
    lemma_clean_push(raw.drop_last(), q);
    assert(path_segs(y) == clean_segs(raw.drop_last()).push(q));
    let ps = path_segs(y);
    assert(ps.last() == q);
    assert(q != crate::paths::dotdot_seg()) by {
        if q == crate::paths::dotdot_seg() {
            assert(q[q.len() - 1] == '.');
        }
    }
    assert(file_name_spec(y) == Option::Some(q));
    lemma_last_dot_append_md(b);
    assert(last_dot(q) == b.len());
    assert(q.skip(b.len() as int) =~= dot_md());
    assert(q.skip(b.len() as int + 1) =~= md_ext());
}

/// When a string does not end in `/`, its last raw segment is nonempty
/// and does not end in `/` either.
proof fn lemma_segs_last_tracks(s: Seq<char>, cur: Seq<char>)
    requires
        s.len() > 0,
        s.last() != '/',
    ensures
        segs_from(s, cur).last().len() > 0,
        segs_from(s, cur).last().last() != '/',
    decreases s.len(),
{
    if s.len() == 1 {
        assert(s[0] != '/');
        assert(segs_from(s, cur) == segs_from(s.drop_first(), cur.push(s[0])));
        assert(s.drop_first().len() == 0);
        assert(segs_from(s, cur) == seq![cur.push(s[0])]);
        assert(cur.push(s[0]).last() == s[0]);
    } else {
        assert(s.drop_first().last() == s.last());
        if s[0] == '/' {
            lemma_segs_from_nonempty(s.drop_first(), Seq::empty());
            lemma_segs_last_tracks(s.drop_first(), Seq::empty());
            assert((seq![cur] + segs_from(s.drop_first(), Seq::empty())).last() == segs_from(
                s.drop_first(),
                Seq::empty(),
            ).last());
        } else {
            lemma_segs_last_tracks(s.drop_first(), cur.push(s[0]));
        }
    }
}

/// A normalized link of the form `u + ".md"` is a fixed point of link
/// normalization, given the conditions normalization itself established
/// for the trimmed link `t` it was cut from.
proof fn lemma_fixed_append_md(t: Seq<char>, u: Seq<char>)
    requires
        t.len() > 0,
        no_char(t, '#'),
        !is_space_char(t[0]),
        !(t.len() >= 4 && t.take(4) == seq!['h', 't', 't', 'p']),
        !(t.len() >= 7 && t.take(7) == seq!['m', 'a', 'i', 'l', 't', 'o', ':']),
        u.len() > 0,
        u.len() <= t.len(),
        forall|i: int| 0 <= i < u.len() ==> u[i] == t[i],
        u.last() != '/',
        no_char(u, '#'),
    ensures
        normalise_one(u + dot_md()) == Option::Some(u + dot_md()),
{
    let y = u + dot_md();
    let sp = |c: char| is_space_char(c);
    assert(y.len() == u.len() + 3);
    assert(y[u.len() as int] == '.');
    assert(y.last() == 'd');
    assert(y[0] == u[0]);
    assert(no_char(y, '#')) by {
        assert forall|i: int| 0 <= i < y.len() implies y[i] != '#' by {
            if i < u.len() {
                assert(y[i] == u[i]);
            } else {
                assert(y[i] == dot_md()[i - u.len()]);
            }
        }
    }
    lemma_before_char_id(y, '#');
    assert(!sp(y[0]));
    assert(!sp(y.last()));
    lemma_trim_id(y, sp);
    assert(trim_spec(y) == y);
    assert(!(y.len() >= 4 && y.take(4) == seq!['h', 't', 't', 'p'])) by {
        if y.len() >= 4 && y.take(4) == seq!['h', 't', 't', 'p'] {
            if u.len() >= 4 {
                assert(t.take(4) =~= seq!['h', 't', 't', 'p']) by {
                    assert forall|i: int| 0 <= i < 4 implies t.take(4)[i] == seq![
                        'h',
                        't',
                        't',
                        'p',
                    ][i] by {
                        assert(y.take(4)[i] == y[i]);
                        assert(y[i] == u[i]);
                    }
                }
            } else {
                assert(y.take(4)[u.len() as int] == y[u.len() as int]);
                assert(seq!['h', 't', 't', 'p'][u.len() as int] != '.');
            }
        }
    }
    assert(!(y.len() >= 7 && y.take(7) == seq!['m', 'a', 'i', 'l', 't', 'o', ':'])) by {
        if y.len() >= 7 && y.take(7) == seq!['m', 'a', 'i', 'l', 't', 'o', ':'] {
            if u.len() >= 7 {
                assert(t.take(7) =~= seq!['m', 'a', 'i', 'l', 't', 'o', ':']) by {
                    assert forall|i: int| 0 <= i < 7 implies t.take(7)[i] == seq![
                        'm',
                        'a',
                        'i',
                        'l',
                        't',
                        'o',
                        ':',
                    ][i] by {
                        assert(y.take(7)[i] == y[i]);
                        assert(y[i] == u[i]);
                    }
                }
            } else {
                assert(y.take(7)[u.len() as int] == y[u.len() as int]);
                assert(seq!['m', 'a', 'i', 'l', 't', 'o', ':'][u.len() as int] != '.');
            }
        }
    }
    lemma_ext_append_md(u);
}

/// A link normalization result is a fixed point: normalizing it again
/// gives it back unchanged.
pub proof fn lemma_normalise_one_fixed(x: Seq<char>)
    ensures
        normalise_one(x) is Some ==> normalise_one(normalise_one(x)->Some_0) == normalise_one(x),
{
    if normalise_one(x) is Some {
        let b = before_char(x, '#');
        let sp = |c: char| is_space_char(c);
        let sl = |c: char| c == '/';
        let t = trim_spec(b);
        lemma_before_no_char(x, '#');
        lemma_trim_left_no_char(b, sp, '#');
        lemma_trim_right_no_char(trim_left_p(b, sp), sp, '#');
        lemma_trim_ends(b, sp);
        assert(t.len() > 0);
        assert(no_char(t, '#'));
        assert(!is_space_char(t[0]));
        assert(!is_space_char(t.last()));
        if t.last() == '/' {
            let u = trim_right_p(t, sl);
            assert(u.len() > 0);
            lemma_trim_right_prefix(t, sl);
            lemma_trim_right_last(t, sl);
            lemma_trim_right_no_char(t, sl, '#');
            lemma_fixed_append_md(t, u);
        } else {
            match ext_spec(t) {
                Option::Some(e) => {
                    assert(e == md_ext());
                    lemma_before_char_id(t, '#');
                    lemma_trim_id(t, sp);
                    assert(normalise_one(t) == Option::Some(t));
                },
                Option::None => {
                    lemma_fixed_append_md(t, t);
                },
            }
        }
    }
}

/// Link normalization is idempotent: normalizing a list of links that
/// normalization produced is a no-op.
pub proof fn lemma_normalise_idempotent(links: Seq<Seq<char>>)
    ensures
        normalise_list(normalise_list(links)) == normalise_list(links),
    decreases links.len(),
{
    if links.len() > 0 {
        lemma_normalise_idempotent(links.drop_first());
        let rest = normalise_list(links.drop_first());
        match normalise_one(links[0]) {
            Option::Some(y) => {
                lemma_normalise_one_fixed(links[0]);
                let whole = seq![y] + rest;
                assert(whole[0] == y);
                assert(whole.drop_first() =~= rest);
                assert(normalise_list(whole) == seq![y] + normalise_list(rest));
            },
            Option::None => {
            },
        }
    }
}

/// A membership split for filtering: an element is kept exactly when it
/// was there and the set does not hold it.
pub proof fn lemma_retain_not_in_iff(xs: Seq<Seq<char>>, s: Seq<Seq<char>>, x: Seq<char>)
    ensures
        retain_not_in(xs, s).contains(x) <==> (xs.contains(x) && !s.contains(x)),
    decreases xs.len(),
{
    if xs.len() > 0 {
        lemma_retain_not_in_iff(xs.drop_first(), s, x);
        assert(xs.contains(x) <==> (xs[0] == x || xs.drop_first().contains(x))) by {
            if xs.contains(x) {
                let i = choose|i: int| 0 <= i < xs.len() && xs[i] == x;
                if i > 0 {
                    assert(xs.drop_first()[i - 1] == x);
                }
            }
            if xs.drop_first().contains(x) {
                let i = choose|i: int| 0 <= i < xs.drop_first().len() && xs.drop_first()[i] == x;
                assert(xs[i + 1] == x);
            }
        }
        let rest = retain_not_in(xs.drop_first(), s);
        if !s.contains(xs[0]) {
            assert(retain_not_in(xs, s).contains(x) <==> (xs[0] == x || rest.contains(x))) by {
                if retain_not_in(xs, s).contains(x) {
                    let i = choose|i: int|
                        0 <= i < retain_not_in(xs, s).len() && retain_not_in(xs, s)[i] == x;
                    if i > 0 {
                        assert(rest[i - 1] == x);
                    }
                }
                if rest.contains(x) {
                    let i = choose|i: int| 0 <= i < rest.len() && rest[i] == x;
                    assert((seq![xs[0]] + rest)[i + 1] == x);
                }
                if xs[0] == x {
                    assert((seq![xs[0]] + rest)[0] == x);
                }
            }
        }
    }
}

/// A nav page is reported missing exactly when it is not a file at audit
/// time, the existence set standing for what is on disk: over the audit's
/// inputs, `nav_missing` holds a path if and only if the nav expects it
/// and neither the walked files nor the caller's probes found it.
pub proof fn lemma_nav_missing_iff(
    nav: Seq<NavItem>,
    parent: Seq<char>,
    existing: Seq<Seq<char>>,
    files: Seq<Seq<char>>,
    p: Seq<char>,
)
    ensures
        missing_spec(audit_pages_spec(nav, parent), audit_exist_spec(existing, files)).contains(p)
            <==> (audit_pages_spec(nav, parent).contains(p) && !audit_exist_spec(
            existing,
            files,
        ).contains(p)),
{
    lemma_missing_iff(audit_pages_spec(nav, parent), audit_exist_spec(existing, files), p);
}

/// An on-disk markdown file is a ghost exactly when the nav does not name
/// it, the transitive scan never reached it, and it is not a print
/// variant: over the audit's inputs, `ghost_files` holds a file if and
/// only if all three hold.
pub proof fn lemma_ghost_files_iff(
    nav: Seq<NavItem>,
    parent: Seq<char>,
    files: Seq<Seq<char>>,
    existing: Seq<Seq<char>>,
    dirs: Seq<Seq<char>>,
    contents: Seq<(Seq<char>, Seq<char>)>,
    helpc: Seq<char>,
    f: Seq<char>,
)
    ensures
        retain_not_in(
            orphans_spec(audit_pages_spec(nav, parent), files),
            audit_scan_spec(nav, parent, files, existing, dirs, contents, helpc).0,
        ).contains(f) <==> (files.contains(f) && !audit_pages_spec(nav, parent).contains(f)
            && !audit_scan_spec(nav, parent, files, existing, dirs, contents, helpc).0.contains(f)
            && !is_print_variant(f)),
{
    let pages = audit_pages_spec(nav, parent);
    let referenced = audit_scan_spec(nav, parent, files, existing, dirs, contents, helpc).0;
    lemma_retain_not_in_iff(orphans_spec(pages, files), referenced, f);
    lemma_orphans_iff(pages, files, f);
}

/// Resolving a link through the nav maps and mapping the target back
/// through `src_to_url` reproduces the rendered URL the resolution used,
/// whenever the two maps are mutually inverse and the rendered URL hits
/// `url_to_src` directly rather than through an index fallback. The maps
/// a nav without colliding duplicate entries builds are mutually inverse;
/// two entries rendering to one URL break the premise, and the law says
/// nothing of them.
pub proof fn lemma_resolve_round_trip(
    u2s: Seq<(Seq<char>, Seq<char>)>,
    s2u: Seq<(Seq<char>, Seq<char>)>,
    src: Seq<char>,
    link: Seq<char>,
)
    requires
        forall|r: Seq<char>| #[trigger]
            assoc_lookup(u2s, r) is Some ==> assoc_lookup(s2u, assoc_lookup(u2s, r)->Some_0)
                == Option::Some(r),
        rendered_url_opt(s2u, src, link) is Some,
        assoc_lookup(u2s, rendered_url_opt(s2u, src, link)->Some_0) is Some,
    ensures
        resolve_link_spec(u2s, s2u, src, link) == Option::Some(
            assoc_lookup(u2s, rendered_url_opt(s2u, src, link)->Some_0)->Some_0,
        ),
        assoc_lookup(s2u, resolve_link_spec(u2s, s2u, src, link)->Some_0) == Option::Some(
            rendered_url_opt(s2u, src, link)->Some_0,
        ),
{
    let from_url = assoc_lookup(s2u, src)->Some_0;
    let rendered = rendered_url_spec(from_url, link);
    assert(rendered_url_opt(s2u, src, link) == Option::Some(rendered));
    let target = assoc_lookup(u2s, rendered)->Some_0;
    assert(lookup_url_spec(u2s, rendered) == Option::Some(target));
    assert(assoc_lookup(s2u, target) == Option::Some(rendered));
}

} // verus!
