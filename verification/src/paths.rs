//! Pure path and URL algebra over `/`-separated strings: splitting into
//! segments, cleaning `.` and empty segments, resolving `..`, joining, and
//! extension handling. No filesystem access anywhere.

use vstd::prelude::*;
use vstd::string::*;

verus! {

// ---------------------------------------------------------------------------
// Basic string helpers
// ---------------------------------------------------------------------------

/// Character-wise equality of two string slices.
pub fn str_eq(a: &str, b: &str) -> (r: bool)
    ensures
        r == (a@ == b@),
{
    let n = a.unicode_len();
    if n != b.unicode_len() {
        return false;
    }
    let mut i: usize = 0;
    while i < n
        invariant
            i <= n,
            n == a@.len(),
            n == b@.len(),
            forall|j: int| 0 <= j < i ==> a@[j] == b@[j],
        decreases n - i,
    {
        if a.get_char(i) != b.get_char(i) {
            return false;
        }
        i = i + 1;
    }
    proof {
        assert(a@ =~= b@);
    }
    true
}

/// Does `s@.subrange(from, to)` equal `t@`?
pub fn substr_eq(s: &str, from: usize, to: usize, t: &str) -> (r: bool)
    requires
        from <= to <= s@.len(),
    ensures
        r == (s@.subrange(from as int, to as int) == t@),
{
    let m = t.unicode_len();
    if to - from != m {
        return false;
    }
    let mut k: usize = 0;
    while k < m
        invariant
            k <= m,
            from <= to <= s@.len(),
            m == t@.len(),
            to - from == m,
            forall|j: int| 0 <= j < k ==> s@[from + j] == t@[j],
        decreases m - k,
    {
        if s.get_char(from + k) != t.get_char(k) {
            return false;
        }
        k = k + 1;
    }
    proof {
        assert(s@.subrange(from as int, to as int) =~= t@);
    }
    true
}

/// Does `s` start with `t`?
pub fn str_starts_with(s: &str, t: &str) -> (r: bool)
    ensures
        r == (s@.len() >= t@.len() && s@.subrange(0, t@.len() as int) == t@),
{
    let m = t.unicode_len();
    if s.unicode_len() < m {
        return false;
    }
    substr_eq(s, 0, m, t)
}

/// Does `s` end with `t`?
pub fn str_ends_with(s: &str, t: &str) -> (r: bool)
    ensures
        r == (s@.len() >= t@.len() && s@.subrange(s@.len() - t@.len(), s@.len() as int) == t@),
{
    let n = s.unicode_len();
    let m = t.unicode_len();
    if n < m {
        return false;
    }
    substr_eq(s, n - m, n, t)
}

/// First occurrence of `c` in `s`, if any.
pub fn find_char(s: &str, c: char) -> (r: Option<usize>)
    ensures
        match r {
            Some(i) => i < s@.len() && s@[i as int] == c && forall|j: int|
                0 <= j < i ==> s@[j] != c,
            None => forall|j: int| 0 <= j < s@.len() ==> s@[j] != c,
        },
{
    let n = s.unicode_len();
    let mut i: usize = 0;
    while i < n
        invariant
            i <= n,
            n == s@.len(),
            forall|j: int| 0 <= j < i ==> s@[j] != c,
        decreases n - i,
    {
        if s.get_char(i) == c {
            return Some(i);
        }
        i = i + 1;
    }
    None
}

/// Relies on String::push: appends exactly the given character.
#[verifier::external_body]
pub fn push_char(s: &mut String, c: char)
    ensures
        final(s)@ == old(s)@.push(c),
{
    s.push(c);
}

/// Copy of the characters of `s` from `from` (inclusive) to `to` (exclusive).
pub fn substring(s: &str, from: usize, to: usize) -> (r: String)
    requires
        from <= to <= s@.len(),
    ensures
        r@ == s@.subrange(from as int, to as int),
{
    String::from_str(s.substring_char(from, to))
}

// ---------------------------------------------------------------------------
// Trimming
// ---------------------------------------------------------------------------

/// ASCII whitespace.
pub open spec fn is_space_char(c: char) -> bool {
    c == ' ' || c == '\t' || c == '\n' || c == '\r'
}

/// A quote character, single or double.
pub open spec fn is_quote_char(c: char) -> bool {
    c == '"' || c == '\''
}

/// Drop leading characters satisfying `p`.
pub open spec fn trim_left_p(s: Seq<char>, p: spec_fn(char) -> bool) -> Seq<char>
    decreases s.len(),
{
    if s.len() > 0 && p(s[0]) {
        trim_left_p(s.drop_first(), p)
    } else {
        s
    }
}

/// Drop trailing characters satisfying `p`.
pub open spec fn trim_right_p(s: Seq<char>, p: spec_fn(char) -> bool) -> Seq<char>
    decreases s.len(),
{
    if s.len() > 0 && p(s.last()) {
        trim_right_p(s.drop_last(), p)
    } else {
        s
    }
}

/// Both ends trimmed by `p`.
pub open spec fn trim_p(s: Seq<char>, p: spec_fn(char) -> bool) -> Seq<char> {
    trim_right_p(trim_left_p(s, p), p)
}

/// Whitespace trimmed from both ends.
pub open spec fn trim_spec(s: Seq<char>) -> Seq<char> {
    trim_p(s, |c: char| is_space_char(c))
}

/// Quotes trimmed from both ends.
pub open spec fn trim_quotes_spec(s: Seq<char>) -> Seq<char> {
    trim_p(s, |c: char| is_quote_char(c))
}

pub proof fn lemma_trim_left_at(s: Seq<char>, p: spec_fn(char) -> bool, k: int)
    requires
        0 <= k <= s.len(),
        forall|j: int| 0 <= j < k ==> p(s[j]),
        k < s.len() ==> !p(s[k]),
    ensures
        trim_left_p(s, p) == s.skip(k),
    decreases k,
{
    if k == 0 {
        assert(s.skip(0) =~= s);
    } else {
        lemma_trim_left_at(s.drop_first(), p, k - 1);
        assert(s.drop_first().skip(k - 1) =~= s.skip(k));
    }
}

pub proof fn lemma_trim_right_at(s: Seq<char>, p: spec_fn(char) -> bool, k: int)
    requires
        0 <= k <= s.len(),
        forall|j: int| k <= j < s.len() ==> p(s[j]),
        k > 0 ==> !p(s[k - 1]),
    ensures
        trim_right_p(s, p) == s.take(k),
    decreases s.len() - k,
{
    if k == s.len() {
        assert(s.take(k) =~= s);
    } else {
        lemma_trim_right_at(s.drop_last(), p, k);
        assert(s.drop_last().take(k) =~= s.take(k));
    }
}

/// Trim ASCII whitespace from both ends.
pub fn trim_ws(s: &str) -> (r: String)
    ensures
        r@ == trim_spec(s@),
{
    let n = s.unicode_len();
    let mut i: usize = 0;
    loop
        invariant
            i <= n,
            n == s@.len(),
            forall|j: int| 0 <= j < i ==> is_space_char(s@[j]),
        ensures
            i <= n,
            forall|j: int| 0 <= j < i ==> is_space_char(s@[j]),
            i < n ==> !is_space_char(s@[i as int]),
        decreases n - i,
    {
        if i >= n {
            break;
        }
        let c = s.get_char(i);
        if !(c == ' ' || c == '\t' || c == '\n' || c == '\r') {
            break;
        }
        i = i + 1;
    }
    let mut j: usize = n;
    loop
        invariant
            i <= j <= n,
            n == s@.len(),
            forall|k: int| j <= k < n ==> is_space_char(s@[k]),
        ensures
            i <= j <= n,
            forall|k: int| j <= k < n ==> is_space_char(s@[k]),
            j > i ==> !is_space_char(s@[j - 1]),
        decreases j,
    {
        if j <= i {
            break;
        }
        let c = s.get_char(j - 1);
        if !(c == ' ' || c == '\t' || c == '\n' || c == '\r') {
            break;
        }
        j = j - 1;
    }
    let r = substring(s, i, j);
    proof {
        let p = |c: char| is_space_char(c);
        lemma_trim_left_at(s@, p, i as int);
        lemma_trim_right_at(s@.skip(i as int), p, j - i);
        assert(s@.skip(i as int).take(j - i) =~= s@.subrange(i as int, j as int));
    }
    r
}

/// Trim single and double quotes from both ends.
pub fn trim_quotes(s: &str) -> (r: String)
    ensures
        r@ == trim_quotes_spec(s@),
{
    let n = s.unicode_len();
    let mut i: usize = 0;
    loop
        invariant
            i <= n,
            n == s@.len(),
            forall|j: int| 0 <= j < i ==> is_quote_char(s@[j]),
        ensures
            i <= n,
            forall|j: int| 0 <= j < i ==> is_quote_char(s@[j]),
            i < n ==> !is_quote_char(s@[i as int]),
        decreases n - i,
    {
        if i >= n {
            break;
        }
        let c = s.get_char(i);
        if !(c == '"' || c == '\'') {
            break;
        }
        i = i + 1;
    }
    let mut j: usize = n;
    loop
        invariant
            i <= j <= n,
            n == s@.len(),
            forall|k: int| j <= k < n ==> is_quote_char(s@[k]),
        ensures
            i <= j <= n,
            forall|k: int| j <= k < n ==> is_quote_char(s@[k]),
            j > i ==> !is_quote_char(s@[j - 1]),
        decreases j,
    {
        if j <= i {
            break;
        }
        let c = s.get_char(j - 1);
        if !(c == '"' || c == '\'') {
            break;
        }
        j = j - 1;
    }
    let r = substring(s, i, j);
    proof {
        let p = |c: char| is_quote_char(c);
        lemma_trim_left_at(s@, p, i as int);
        lemma_trim_right_at(s@.skip(i as int), p, j - i);
        assert(s@.skip(i as int).take(j - i) =~= s@.subrange(i as int, j as int));
    }
    r
}

// ---------------------------------------------------------------------------
// Segments: a path is split at '/' into raw segments (empty ones included).
// ---------------------------------------------------------------------------

/// The segments of `s` after `cur` has already been read from the current
/// segment: recursion in the order a scan of `s` proceeds.
pub open spec fn segs_from(s: Seq<char>, cur: Seq<char>) -> Seq<Seq<char>>
    decreases s.len(),
{
    if s.len() == 0 {
        seq![cur]
    } else if s[0] == '/' {
        seq![cur] + segs_from(s.drop_first(), Seq::empty())
    } else {
        segs_from(s.drop_first(), cur.push(s[0]))
    }
}

/// The raw segments of `s`: split at every '/', keeping empty segments.
pub open spec fn segs_of(s: Seq<char>) -> Seq<Seq<char>> {
    segs_from(s, Seq::empty())
}

/// Split a path into its raw segments.
pub fn split_segs(s: &str) -> (parts: Vec<String>)
    ensures
        parts.deep_view() == segs_of(s@),
{
    let n = s.unicode_len();
    let mut parts: Vec<String> = Vec::new();
    let mut cur: String = String::new();
    let mut i: usize = 0;
    proof {
        assert(s@.skip(0) =~= s@);
        assert(parts.deep_view() =~= Seq::<Seq<char>>::empty());
        assert(Seq::<Seq<char>>::empty() + segs_from(s@, Seq::empty()) =~= segs_from(
            s@,
            Seq::empty(),
        ));
    }
    while i < n
        invariant
            i <= n,
            n == s@.len(),
            segs_of(s@) == parts.deep_view() + segs_from(s@.skip(i as int), cur@),
        decreases n - i,
    {
        let ghost rest = s@.skip(i as int);
        let ghost old_parts = parts.deep_view();
        let ghost old_cur = cur@;
        let c = s.get_char(i);
        proof {
            assert(rest[0] == c);
            assert(rest.drop_first() =~= s@.skip(i + 1));
        }
        if c == '/' {
            parts.push(cur);
            cur = String::new();
            proof {
                assert(parts.deep_view() =~= old_parts.push(old_cur));
                assert(segs_from(rest, old_cur) == seq![old_cur] + segs_from(
                    s@.skip(i + 1),
                    Seq::empty(),
                ));
                assert(old_parts.push(old_cur) + segs_from(s@.skip(i + 1), Seq::empty())
                    =~= old_parts + (seq![old_cur] + segs_from(s@.skip(i + 1), Seq::empty())));
            }
        } else {
            cur.append(s.substring_char(i, i + 1));
            proof {
                assert(s@.subrange(i as int, i + 1) =~= seq![c]);
                assert(cur@ =~= old_cur.push(c));
                assert(segs_from(rest, old_cur) == segs_from(s@.skip(i + 1), old_cur.push(c)));
            }
        }
        i = i + 1;
    }
    proof {
        assert(s@.skip(n as int) =~= Seq::<char>::empty());
        assert(segs_from(Seq::empty(), cur@) == seq![cur@]);
    }
    let ghost fin_parts = parts.deep_view();
    let ghost fin_cur = cur@;
    parts.push(cur);
    proof {
        assert(parts.deep_view() =~= fin_parts.push(fin_cur));
        assert(fin_parts.push(fin_cur) =~= fin_parts + seq![fin_cur]);
    }
    parts
}

// ---------------------------------------------------------------------------
// Segment-level path algebra (specification side)
// ---------------------------------------------------------------------------

/// The single-character segment `.`.
pub open spec fn dot_seg() -> Seq<char> {
    seq!['.']
}

/// The segment `..`.
pub open spec fn dotdot_seg() -> Seq<char> {
    seq!['.', '.']
}

/// A segment survives cleaning when it is neither empty nor `.`.
pub open spec fn keep_seg(p: Seq<char>) -> bool {
    p.len() > 0 && p != dot_seg()
}

/// Drop empty and `.` segments.
pub open spec fn clean_segs(parts: Seq<Seq<char>>) -> Seq<Seq<char>>
    decreases parts.len(),
{
    if parts.len() == 0 {
        Seq::empty()
    } else if keep_seg(parts[0]) {
        seq![parts[0]] + clean_segs(parts.drop_first())
    } else {
        clean_segs(parts.drop_first())
    }
}

/// Resolve `..` against the accumulated prefix: a `..` removes the previous
/// segment when that segment is an ordinary name, and is kept otherwise.
pub open spec fn resolve_segs(acc: Seq<Seq<char>>, rest: Seq<Seq<char>>) -> Seq<Seq<char>>
    decreases rest.len(),
{
    if rest.len() == 0 {
        acc
    } else if rest[0] == dotdot_seg() {
        if acc.len() > 0 && acc.last() != dotdot_seg() {
            resolve_segs(acc.drop_last(), rest.drop_first())
        } else {
            resolve_segs(acc.push(rest[0]), rest.drop_first())
        }
    } else {
        resolve_segs(acc.push(rest[0]), rest.drop_first())
    }
}

/// URL-style resolution: `..` always removes the previous segment (if any),
/// empty and `.` segments vanish.
pub open spec fn url_segs(acc: Seq<Seq<char>>, rest: Seq<Seq<char>>) -> Seq<Seq<char>>
    decreases rest.len(),
{
    if rest.len() == 0 {
        acc
    } else if rest[0] == dotdot_seg() {
        url_segs(if acc.len() > 0 {
            acc.drop_last()
        } else {
            acc
        }, rest.drop_first())
    } else if !keep_seg(rest[0]) {
        url_segs(acc, rest.drop_first())
    } else {
        url_segs(acc.push(rest[0]), rest.drop_first())
    }
}

/// Join segments with `/`.
pub open spec fn unsplit(parts: Seq<Seq<char>>) -> Seq<char>
    decreases parts.len(),
{
    if parts.len() == 0 {
        Seq::empty()
    } else if parts.len() == 1 {
        parts[0]
    } else {
        unsplit(parts.drop_last()) + seq!['/'] + parts.last()
    }
}

/// Does the path start with `/`?
pub open spec fn is_abs(s: Seq<char>) -> bool {
    s.len() > 0 && s[0] == '/'
}

/// Render segments back into a path string.
pub open spec fn render(abs: bool, parts: Seq<Seq<char>>) -> Seq<char> {
    if abs {
        seq!['/'] + unsplit(parts)
    } else {
        unsplit(parts)
    }
}

/// The effective components of a path: raw segments, cleaned.
pub open spec fn path_segs(s: Seq<char>) -> Seq<Seq<char>> {
    clean_segs(segs_of(s))
}

/// A path with `.` and empty segments removed (mirrors collecting a path's
/// components back into a path).
pub open spec fn clean_path_spec(s: Seq<char>) -> Seq<char> {
    render(is_abs(s), path_segs(s))
}

/// A path with `.`, empty segments and `..` resolved, without filesystem
/// access.
pub open spec fn norm_path_spec(s: Seq<char>) -> Seq<char> {
    render(is_abs(s), resolve_segs(Seq::empty(), path_segs(s)))
}

/// A path in canonical URL form: `/`-joined, `..` resolved unconditionally.
pub open spec fn norm_url_spec(s: Seq<char>) -> Seq<char> {
    unsplit(url_segs(Seq::empty(), segs_of(s)))
}

/// Joining `b` onto `a`: an absolute `b` replaces `a`.
pub open spec fn join_spec(a: Seq<char>, b: Seq<char>) -> Seq<char> {
    if is_abs(b) {
        b
    } else if a.len() == 0 {
        b
    } else {
        a + seq!['/'] + b
    }
}

// ---------------------------------------------------------------------------
// Extensions and file names (specification side)
// ---------------------------------------------------------------------------

/// Index of the last `.` in a segment, or -1 when there is none.
pub open spec fn last_dot(seg: Seq<char>) -> int
    decreases seg.len(),
{
    if seg.len() == 0 {
        -1
    } else if seg.last() == '.' {
        seg.len() - 1
    } else {
        last_dot(seg.drop_last())
    }
}

/// The file name of a path: its last effective component, unless that is
/// `..` or the path has none.
pub open spec fn file_name_spec(s: Seq<char>) -> Option<Seq<char>> {
    let ps = path_segs(s);
    if ps.len() == 0 {
        Option::None
    } else if ps.last() == dotdot_seg() {
        Option::None
    } else {
        Option::Some(ps.last())
    }
}

/// The stem of a file name: everything before the last `.`, unless the name
/// hides behind a leading dot.
pub open spec fn stem_of_name(f: Seq<char>) -> Seq<char> {
    if last_dot(f) > 0 {
        f.take(last_dot(f))
    } else {
        f
    }
}

/// The extension of a path's file name, mirroring the rule that a leading
/// dot starts the stem, not an extension.
pub open spec fn ext_spec(s: Seq<char>) -> Option<Seq<char>> {
    match file_name_spec(s) {
        Option::None => Option::None,
        Option::Some(f) => if last_dot(f) > 0 {
            Option::Some(f.skip(last_dot(f) + 1))
        } else {
            Option::None
        },
    }
}

/// The path with its file name's extension removed, rendered from cleaned
/// segments.
pub open spec fn drop_ext_spec(s: Seq<char>) -> Seq<char> {
    let ps = path_segs(s);
    if ps.len() == 0 || ps.last() == dotdot_seg() {
        render(is_abs(s), ps)
    } else {
        render(is_abs(s), ps.drop_last().push(stem_of_name(ps.last())))
    }
}

/// The parent of a path: its effective components minus the last.
pub open spec fn parent_spec(s: Seq<char>) -> Seq<char> {
    let ps = path_segs(s);
    if ps.len() == 0 {
        Seq::empty()
    } else {
        render(is_abs(s), ps.drop_last())
    }
}

// ---------------------------------------------------------------------------
// Executable segment operations
// ---------------------------------------------------------------------------

/// Join segments with `/`.
pub fn join_segs(parts: &Vec<String>) -> (r: String)
    ensures
        r@ == unsplit(parts.deep_view()),
{
    let ghost all = parts.deep_view();
    let mut out = String::new();
    let mut i: usize = 0;
    proof {
        assert(all.take(0) =~= Seq::<Seq<char>>::empty());
    }
    while i < parts.len()
        invariant
            i <= parts.len(),
            all == parts.deep_view(),
            out@ == unsplit(all.take(i as int)),
        decreases parts.len() - i,
    {
        if i > 0 {
            out.append("/");
        }
        out.append(parts[i].as_str());
        proof {
            reveal_strlit("/");
            assert(all.take(i + 1).last() == all[i as int]);
            assert(all.take(i + 1).drop_last() =~= all.take(i as int));
            if i == 0 {
                assert(unsplit(all.take(1)) == all[0]);
            }
        }
        i = i + 1;
    }
    proof {
        assert(all.take(parts.len() as int) =~= all);
    }
    out
}

/// Drop empty and `.` segments.
pub fn clean_parts(parts: Vec<String>) -> (r: Vec<String>)
    ensures
        r.deep_view() == clean_segs(parts.deep_view()),
{
    let ghost all = parts.deep_view();
    let mut out: Vec<String> = Vec::new();
    let mut i: usize = 0;
    proof {
        assert(all.skip(0) =~= all);
        assert(out.deep_view() =~= Seq::<Seq<char>>::empty());
        assert(Seq::<Seq<char>>::empty() + clean_segs(all) =~= clean_segs(all));
    }
    while i < parts.len()
        invariant
            i <= parts.len(),
            all == parts.deep_view(),
            clean_segs(all) == out.deep_view() + clean_segs(all.skip(i as int)),
        decreases parts.len() - i,
    {
        let ghost old_out = out.deep_view();
        let seg = &parts[i];
        proof {
            assert(all.skip(i as int)[0] == all[i as int]);
            assert(all.skip(i as int).drop_first() =~= all.skip(i + 1));
        }
        let keep = seg.unicode_len() > 0 && !str_eq(seg.as_str(), ".");
        proof {
            reveal_strlit(".");
            assert(dot_seg() =~= "."@);
            assert(keep == keep_seg(all[i as int]));
        }
        if keep {
            out.push(seg.clone());
            proof {
                assert(out.deep_view() =~= old_out.push(all[i as int]));
                assert(old_out.push(all[i as int]) + clean_segs(all.skip(i + 1)) =~= old_out + (
                seq![all[i as int]] + clean_segs(all.skip(i + 1))));
            }
        }
        i = i + 1;
    }
    proof {
        assert(all.skip(parts.len() as int) =~= Seq::<Seq<char>>::empty());
        assert(out.deep_view() + Seq::<Seq<char>>::empty() =~= out.deep_view());
    }
    out
}

/// Resolve `..` segments the way filesystem-free normalization does.
pub fn resolve_parts(parts: Vec<String>) -> (r: Vec<String>)
    ensures
        r.deep_view() == resolve_segs(Seq::empty(), parts.deep_view()),
{
    let ghost all = parts.deep_view();
    let mut out: Vec<String> = Vec::new();
    let mut i: usize = 0;
    proof {
        assert(all.skip(0) =~= all);
        assert(out.deep_view() =~= Seq::<Seq<char>>::empty());
    }
    while i < parts.len()
        invariant
            i <= parts.len(),
            all == parts.deep_view(),
            resolve_segs(Seq::empty(), all) == resolve_segs(out.deep_view(), all.skip(i as int)),
        decreases parts.len() - i,
    {
        let ghost old_out = out.deep_view();
        let seg = &parts[i];
        proof {
            assert(all.skip(i as int)[0] == all[i as int]);
            assert(all.skip(i as int).drop_first() =~= all.skip(i + 1));
            reveal_strlit("..");
            assert(dotdot_seg() =~= ".."@);
        }
        if str_eq(seg.as_str(), "..") {
            let pop = if out.len() > 0 {
                !str_eq(out[out.len() - 1].as_str(), "..")
            } else {
                false
            };
            if pop {
                out.pop();
                proof {
                    assert(out.deep_view() =~= old_out.drop_last());
                }
            } else {
                out.push(seg.clone());
                proof {
                    assert(out.deep_view() =~= old_out.push(all[i as int]));
                }
            }
        } else {
            out.push(seg.clone());
            proof {
                assert(out.deep_view() =~= old_out.push(all[i as int]));
            }
        }
        i = i + 1;
    }
    proof {
        assert(all.skip(parts.len() as int) =~= Seq::<Seq<char>>::empty());
    }
    out
}

/// URL-style `..`/`.` resolution over raw segments.
pub fn url_parts(parts: Vec<String>) -> (r: Vec<String>)
    ensures
        r.deep_view() == url_segs(Seq::empty(), parts.deep_view()),
{
    let ghost all = parts.deep_view();
    let mut out: Vec<String> = Vec::new();
    let mut i: usize = 0;
    proof {
        assert(all.skip(0) =~= all);
        assert(out.deep_view() =~= Seq::<Seq<char>>::empty());
    }
    while i < parts.len()
        invariant
            i <= parts.len(),
            all == parts.deep_view(),
            url_segs(Seq::empty(), all) == url_segs(out.deep_view(), all.skip(i as int)),
        decreases parts.len() - i,
    {
        let ghost old_out = out.deep_view();
        let seg = &parts[i];
        proof {
            assert(all.skip(i as int)[0] == all[i as int]);
            assert(all.skip(i as int).drop_first() =~= all.skip(i + 1));
            reveal_strlit("..");
            reveal_strlit(".");
            assert(dotdot_seg() =~= ".."@);
            assert(dot_seg() =~= "."@);
        }
        if str_eq(seg.as_str(), "..") {
            if out.len() > 0 {
                out.pop();
                proof {
                    assert(out.deep_view() =~= old_out.drop_last());
                }
            }
        } else if seg.unicode_len() > 0 && !str_eq(seg.as_str(), ".") {
            out.push(seg.clone());
            proof {
                assert(out.deep_view() =~= old_out.push(all[i as int]));
            }
        }
        i = i + 1;
    }
    proof {
        assert(all.skip(parts.len() as int) =~= Seq::<Seq<char>>::empty());
    }
    out
}

// ---------------------------------------------------------------------------
// Executable path operations
// ---------------------------------------------------------------------------

/// Render segments into a path string, with a leading `/` when absolute.
pub fn render_path(abs: bool, parts: &Vec<String>) -> (r: String)
    ensures
        r@ == render(abs, parts.deep_view()),
{
    let joined = join_segs(parts);
    if abs {
        let mut out = String::from_str("/");
        out.append(joined.as_str());
        proof {
            reveal_strlit("/");
            assert("/"@ =~= seq!['/']);
        }
        out
    } else {
        joined
    }
}

/// Is the path absolute?
pub fn path_is_abs(s: &str) -> (r: bool)
    ensures
        r == is_abs(s@),
{
    if s.unicode_len() == 0 {
        false
    } else {
        s.get_char(0) == '/'
    }
}

/// The effective components of a path.
pub fn path_parts(s: &str) -> (r: Vec<String>)
    ensures
        r.deep_view() == path_segs(s@),
{
    clean_parts(split_segs(s))
}

/// Remove `.` and empty segments from a path.
pub fn clean_path(s: &str) -> (r: String)
    ensures
        r@ == clean_path_spec(s@),
{
    let abs = path_is_abs(s);
    let parts = path_parts(s);
    render_path(abs, &parts)
}

/// Normalize a path by resolving `.` and `..` components without touching
/// the filesystem.
pub fn normalize_path(s: &str) -> (r: String)
    ensures
        r@ == norm_path_spec(s@),
{
    let abs = path_is_abs(s);
    let parts = resolve_parts(path_parts(s));
    render_path(abs, &parts)
}

/// Normalize a path into a canonical `/`-joined URL string.
pub fn normalise_url(s: &str) -> (r: String)
    ensures
        r@ == norm_url_spec(s@),
{
    let parts = url_parts(split_segs(s));
    join_segs(&parts)
}

/// Join `b` onto `a`; an absolute `b` stands alone.
pub fn join_path(a: &str, b: &str) -> (r: String)
    ensures
        r@ == join_spec(a@, b@),
{
    if path_is_abs(b) {
        String::from_str(b)
    } else if a.unicode_len() == 0 {
        String::from_str(b)
    } else {
        let mut out = String::from_str(a);
        out.append("/");
        out.append(b);
        proof {
            reveal_strlit("/");
            assert("/"@ =~= seq!['/']);
        }
        out
    }
}

/// The last-dot index lies inside the segment.
pub proof fn lemma_last_dot_bounds(seg: Seq<char>)
    ensures
        -1 <= last_dot(seg) < seg.len(),
    decreases seg.len(),
{
    if seg.len() > 0 && seg.last() != '.' {
        lemma_last_dot_bounds(seg.drop_last());
    }
}

/// Index of the last `.` of a segment, if any.
pub fn seg_last_dot(seg: &str) -> (r: Option<usize>)
    ensures
        match r {
            Option::Some(i) => last_dot(seg@) == i as int,
            Option::None => last_dot(seg@) == -1,
        },
{
    let n = seg.unicode_len();
    let mut best: Option<usize> = Option::None;
    let mut i: usize = 0;
    proof {
        assert(seg@.take(0) =~= Seq::<char>::empty());
    }
    while i < n
        invariant
            i <= n,
            n == seg@.len(),
            match best {
                Option::Some(b) => last_dot(seg@.take(i as int)) == b as int && b < i,
                Option::None => last_dot(seg@.take(i as int)) == -1,
            },
        decreases n - i,
    {
        let c = seg.get_char(i);
        proof {
            assert(seg@.take(i + 1).drop_last() =~= seg@.take(i as int));
            assert(seg@.take(i + 1).last() == seg@[i as int]);
        }
        if c == '.' {
            best = Option::Some(i);
        }
        i = i + 1;
    }
    proof {
        assert(seg@.take(n as int) =~= seg@);
    }
    best
}

/// The stem of a file-name segment.
pub fn seg_stem(seg: &str) -> (r: String)
    ensures
        r@ == stem_of_name(seg@),
{
    proof {
        lemma_last_dot_bounds(seg@);
    }
    match seg_last_dot(seg) {
        Option::Some(i) => {
            if i > 0 {
                substring(seg, 0, i)
            } else {
                String::from_str(seg)
            }
        },
        Option::None => String::from_str(seg),
    }
}

/// The file name of a path, mirroring the rule that `..` and an empty path
/// have none.
pub fn file_name_of(s: &str) -> (r: Option<String>)
    ensures
        match r {
            Option::Some(f) => file_name_spec(s@) == Option::Some(f@),
            Option::None => file_name_spec(s@) == Option::<Seq<char>>::None,
        },
{
    let parts = path_parts(s);
    if parts.len() == 0 {
        return Option::None;
    }
    let last = &parts[parts.len() - 1];
    proof {
        reveal_strlit("..");
        assert(dotdot_seg() =~= ".."@);
        assert(parts.deep_view().last() == last.deep_view());
    }
    if str_eq(last.as_str(), "..") {
        Option::None
    } else {
        Option::Some(last.clone())
    }
}

/// The path with its extension removed (the page-as-URL stem form).
pub fn drop_ext(s: &str) -> (r: String)
    ensures
        r@ == drop_ext_spec(s@),
{
    let abs = path_is_abs(s);
    let mut parts = path_parts(s);
    if parts.len() == 0 {
        return render_path(abs, &parts);
    }
    let ghost ps = parts.deep_view();
    let last = &parts[parts.len() - 1];
    proof {
        reveal_strlit("..");
        assert(dotdot_seg() =~= ".."@);
        assert(ps.last() == last.deep_view());
    }
    if str_eq(last.as_str(), "..") {
        return render_path(abs, &parts);
    }
    let stem = seg_stem(last.as_str());
    let n = parts.len();
    parts.set(n - 1, stem);
    proof {
        assert(parts.deep_view() =~= ps.drop_last().push(stem_of_name(ps.last())));
    }
    render_path(abs, &parts)
}

/// The extension of a path's file name, if any.
pub fn ext_of(s: &str) -> (r: Option<String>)
    ensures
        match r {
            Option::Some(e) => ext_spec(s@) == Option::Some(e@),
            Option::None => ext_spec(s@) == Option::<Seq<char>>::None,
        },
{
    match file_name_of(s) {
        Option::None => Option::None,
        Option::Some(f) => {
            proof {
                lemma_last_dot_bounds(f@);
            }
            match seg_last_dot(f.as_str()) {
                Option::Some(i) => {
                    if i > 0 {
                        let n = f.as_str().unicode_len();
                        Option::Some(substring(f.as_str(), i + 1, n))
                    } else {
                        Option::None
                    }
                },
                Option::None => Option::None,
            }
        },
    }
}

/// The parent of a path.
pub fn parent_of(s: &str) -> (r: String)
    ensures
        r@ == parent_spec(s@),
{
    let abs = path_is_abs(s);
    let mut parts = path_parts(s);
    if parts.len() == 0 {
        return String::new();
    }
    let ghost ps = parts.deep_view();
    parts.pop();
    proof {
        assert(parts.deep_view() =~= ps.drop_last());
    }
    render_path(abs, &parts)
}

} // verus!
