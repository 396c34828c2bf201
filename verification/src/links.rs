//! The link maps: the pair of inverse maps between canonical rendered URLs
//! and filesystem paths, built once from the navigation tree, and the
//! lookup steps link resolution starts from.

use vstd::prelude::*;
use vstd::string::*;
use crate::paths::{
    clean_path_spec, drop_ext, drop_ext_spec, file_name_spec, is_abs, join_path, join_spec,
    norm_url_spec, normalise_url, push_char, seg_stem, stem_of_name, str_eq, substring,
    trim_left_p, trim_right_p,
};
use crate::nav::{is_directive, page_path, parse_splice_target, NavItem};
use crate::sets::{assoc_insert, PathMap};

verus! {

/// The central resolution structure: rendered URL to filesystem path and
/// its inverse. Both maps are first-write-wins and, once built, read-only.
pub struct LinkMaps {
    pub url_to_src: PathMap,
    pub src_to_url: PathMap,
}

// ---------------------------------------------------------------------------
// Slugs
// ---------------------------------------------------------------------------

/// ASCII letters and digits survive slugging.
pub open spec fn is_alnum(c: char) -> bool {
    ('a' <= c && c <= 'z') || ('A' <= c && c <= 'Z') || ('0' <= c && c <= '9')
}

/// Lower-case an ASCII letter.
pub open spec fn lower_char(c: char) -> char {
    if 'A' <= c && c <= 'Z' {
        ((c as u8) + 32) as char
    } else {
        c
    }
}

/// Slug body: letters and digits lower-cased, every other run replaced by
/// one hyphen.
pub open spec fn slug_core(s: Seq<char>, acc: Seq<char>) -> Seq<char>
    decreases s.len(),
{
    if s.len() == 0 {
        acc
    } else if is_alnum(s[0]) {
        slug_core(s.drop_first(), acc.push(lower_char(s[0])))
    } else if acc.len() > 0 && acc.last() == '-' {
        slug_core(s.drop_first(), acc)
    } else {
        slug_core(s.drop_first(), acc.push('-'))
    }
}

/// A section title as a URL segment.
pub open spec fn slug_spec(s: Seq<char>) -> Seq<char> {
    trim_right_p(trim_left_p(slug_core(s, Seq::empty()), |c: char| c == '-'), |c: char| c == '-')
}

/// Turn a section title into a URL segment: non-alphanumeric runs become a
/// single hyphen, hyphens at the ends go, letters are lower-cased.
pub fn slugify(s: &str) -> (r: String)
    ensures
        r@ == slug_spec(s@),
{
    let n = s.unicode_len();
    let mut out = String::new();
    let mut i: usize = 0;
    proof {
        assert(s@.skip(0) =~= s@);
    }
    while i < n
        invariant
            i <= n,
            n == s@.len(),
            slug_core(s@, Seq::empty()) == slug_core(s@.skip(i as int), out@),
        decreases n - i,
    {
        let c = s.get_char(i);
        proof {
            assert(s@.skip(i as int)[0] == c);
            assert(s@.skip(i as int).drop_first() =~= s@.skip(i + 1));
        }
        let alnum = ('a' <= c && c <= 'z') || ('A' <= c && c <= 'Z') || ('0' <= c && c <= '9');
        if alnum {
            let lc = if 'A' <= c && c <= 'Z' {
                ((c as u8) + 32) as char
            } else {
                c
            };
            push_char(&mut out, lc);
        } else {
            let out_len = out.as_str().unicode_len();
            let dash_last = out_len > 0 && out.as_str().get_char(out_len - 1) == '-';
            if !dash_last {
                push_char(&mut out, '-');
            }
        }
        i = i + 1;
    }
    proof {
        assert(s@.skip(n as int) =~= Seq::<char>::empty());
    }
    // trim hyphens from both ends
    let m = out.as_str().unicode_len();
    let mut a: usize = 0;
    loop
        invariant
            a <= m,
            m == out@.len(),
            forall|j: int| 0 <= j < a ==> out@[j] == '-',
        ensures
            a <= m,
            forall|j: int| 0 <= j < a ==> out@[j] == '-',
            a < m ==> out@[a as int] != '-',
        decreases m - a,
    {
        if a >= m {
            break;
        }
        if out.as_str().get_char(a) != '-' {
            break;
        }
        a = a + 1;
    }
    let mut b: usize = m;
    loop
        invariant
            a <= b <= m,
            m == out@.len(),
            forall|k: int| b <= k < m ==> out@[k] == '-',
        ensures
            a <= b <= m,
            forall|k: int| b <= k < m ==> out@[k] == '-',
            b > a ==> out@[b - 1] != '-',
        decreases b,
    {
        if b <= a {
            break;
        }
        if out.as_str().get_char(b - 1) != '-' {
            break;
        }
        b = b - 1;
    }
    let r = substring(out.as_str(), a, b);
    proof {
        let p = |c: char| c == '-';
        crate::paths::lemma_trim_left_at(out@, p, a as int);
        crate::paths::lemma_trim_right_at(out@.skip(a as int), p, b - a);
        assert(out@.skip(a as int).take(b - a) =~= out@.subrange(a as int, b as int));
    }
    r
}

// ---------------------------------------------------------------------------
// Building the maps
// ---------------------------------------------------------------------------

/// The stem a nav path contributes to its rendered URL: the stem of its
/// file name, or the path itself when it has none.
pub open spec fn nav_stem(nav_path: Seq<char>) -> Seq<char> {
    match file_name_spec(nav_path) {
        Option::Some(f) => stem_of_name(f),
        Option::None => nav_path,
    }
}

/// The rendered URL of a leaf entry: the URL prefix joined with the entry's
/// extension-stripped stem, in canonical URL form.
pub open spec fn rendered_for(nav_path: Seq<char>, url_prefix: Seq<char>) -> Seq<char> {
    if url_prefix.len() == 0 {
        norm_url_spec(drop_ext_spec(nav_path))
    } else {
        norm_url_spec(join_spec(url_prefix, nav_stem(nav_path)))
    }
}

/// Both maps after one leaf entry is recorded; the first writer of a URL or
/// of a path wins.
pub open spec fn maps_after_insert(
    state: (Seq<(Seq<char>, Seq<char>)>, Seq<(Seq<char>, Seq<char>)>),
    nav_path: Seq<char>,
    mkdocs_dir: Seq<char>,
    url_prefix: Seq<char>,
) -> (Seq<(Seq<char>, Seq<char>)>, Seq<(Seq<char>, Seq<char>)>) {
    let fs_path = page_path(mkdocs_dir, nav_path);
    let rendered = rendered_for(nav_path, url_prefix);
    (assoc_insert(state.0, rendered, fs_path), assoc_insert(state.1, fs_path, rendered))
}

/// The stem of a nav path, executable side.
pub fn nav_stem_exec(nav_path: &str) -> (r: String)
    ensures
        r@ == nav_stem(nav_path@),
{
    match crate::paths::file_name_of(nav_path) {
        Option::Some(f) => seg_stem(f.as_str()),
        Option::None => String::from_str(nav_path),
    }
}

/// Record one leaf entry in both maps.
pub fn insert_mapping(nav_path: &str, mkdocs_dir: &str, url_prefix: &str, maps: &mut LinkMaps)
    ensures
        (final(maps).url_to_src@, final(maps).src_to_url@) == maps_after_insert(
            (old(maps).url_to_src@, old(maps).src_to_url@),
            nav_path@,
            mkdocs_dir@,
            url_prefix@,
        ),
{
    let fs_path = crate::nav::leaf_page_path(mkdocs_dir, nav_path);
    let rendered = if url_prefix.unicode_len() == 0 {
        normalise_url(drop_ext(nav_path).as_str())
    } else {
        let stem = nav_stem_exec(nav_path);
        normalise_url(join_path(url_prefix, stem.as_str()).as_str())
    };
    let fs2 = fs_path.clone();
    let r2 = rendered.clone();
    maps.url_to_src.insert(rendered, fs_path);
    maps.src_to_url.insert(fs2, r2);
}

/// The maps a nav list contributes, threaded through `state` in order.
pub open spec fn maps_of_items(
    items: Seq<NavItem>,
    mkdocs_dir: Seq<char>,
    site_root: Seq<char>,
    url_prefix: Seq<char>,
    state: (Seq<(Seq<char>, Seq<char>)>, Seq<(Seq<char>, Seq<char>)>),
) -> (Seq<(Seq<char>, Seq<char>)>, Seq<(Seq<char>, Seq<char>)>)
    decreases items, 1int,
{
    if items.len() == 0 {
        state
    } else {
        maps_of_items(
            items.drop_first(),
            mkdocs_dir,
            site_root,
            url_prefix,
            maps_of_item(items[0], mkdocs_dir, site_root, url_prefix, state),
        )
    }
}

/// The subsite URL prefix: the spliced directory's path relative to the
/// site root, appended to the current prefix; an unrelated directory leaves
/// the prefix alone.
pub open spec fn subsite_prefix(
    url_prefix: Seq<char>,
    dir: Seq<char>,
    site_root: Seq<char>,
) -> Seq<char> {
    match strip_prefix_spec(dir, site_root) {
        Option::Some(rel) => clean_path_spec(join_spec(url_prefix, rel)),
        Option::None => url_prefix,
    }
}

/// `dir` relative to `root`, when `root`'s components lead `dir`'s.
pub open spec fn strip_prefix_spec(dir: Seq<char>, root: Seq<char>) -> Option<Seq<char>> {
    let dp = crate::paths::path_segs(dir);
    let rp = crate::paths::path_segs(root);
    if is_abs(dir) == is_abs(root) && rp.len() <= dp.len() && dp.take(rp.len() as int) == rp {
        Option::Some(crate::paths::render(false, dp.skip(rp.len() as int)))
    } else {
        Option::None
    }
}

/// The maps one nav entry contributes.
pub open spec fn maps_of_item(
    item: NavItem,
    mkdocs_dir: Seq<char>,
    site_root: Seq<char>,
    url_prefix: Seq<char>,
    state: (Seq<(Seq<char>, Seq<char>)>, Seq<(Seq<char>, Seq<char>)>),
) -> (Seq<(Seq<char>, Seq<char>)>, Seq<(Seq<char>, Seq<char>)>)
    decreases item, 0int,
{
    match item {
        NavItem::Page { title, target } => if is_directive(target@) {
            state
        } else {
            maps_after_insert(state, target@, mkdocs_dir, url_prefix)
        },
        NavItem::Section { title, children } => maps_of_items(
            children@,
            mkdocs_dir,
            site_root,
            clean_path_spec(join_spec(url_prefix, slug_spec(title@))),
            state,
        ),
        NavItem::PlainPath(target) => maps_after_insert(state, target@, mkdocs_dir, url_prefix),
        NavItem::Subsite { dir, children } => maps_of_items(
            children@,
            dir@,
            site_root,
            subsite_prefix(url_prefix, dir@, site_root),
            state,
        ),
    }
}

/// `dir` relative to `root`, executable side.
pub fn strip_prefix_of(dir: &str, root: &str) -> (r: Option<String>)
    ensures
        match r {
            Option::Some(rel) => strip_prefix_spec(dir@, root@) == Option::Some(rel@),
            Option::None => strip_prefix_spec(dir@, root@) == Option::<Seq<char>>::None,
        },
{
    let dp = crate::paths::path_parts(dir);
    let rp = crate::paths::path_parts(root);
    let da = crate::paths::path_is_abs(dir);
    let ra = crate::paths::path_is_abs(root);
    if da != ra || rp.len() > dp.len() {
        return Option::None;
    }
    let mut i: usize = 0;
    while i < rp.len()
        invariant
            i <= rp.len(),
            rp.len() <= dp.len(),
            dp.deep_view() == crate::paths::path_segs(dir@),
            rp.deep_view() == crate::paths::path_segs(root@),
            forall|j: int| 0 <= j < i ==> dp.deep_view()[j] == rp.deep_view()[j],
        decreases rp.len() - i,
    {
        if !str_eq(dp[i].as_str(), rp[i].as_str()) {
            proof {
                assert(dp.deep_view()[i as int] == dp@[i as int]@);
                assert(rp.deep_view()[i as int] == rp@[i as int]@);
                assert(dp.deep_view().take(rp.deep_view().len() as int)[i as int]
                    != rp.deep_view()[i as int]);
            }
            return Option::None;
        }
        proof {
            assert(dp.deep_view()[i as int] == dp@[i as int]@);
            assert(rp.deep_view()[i as int] == rp@[i as int]@);
        }
        i = i + 1;
    }
    proof {
        assert(dp.deep_view().take(rp.len() as int) =~= rp.deep_view());
    }
    let mut rest: Vec<String> = Vec::new();
    let mut k: usize = rp.len();
    proof {
        assert(rest.deep_view() =~= dp.deep_view().skip(rp.len() as int).take(0));
    }
    while k < dp.len()
        invariant
            rp.len() <= k <= dp.len(),
            dp.deep_view() == crate::paths::path_segs(dir@),
            rest.deep_view() =~= dp.deep_view().skip(rp.len() as int).take(k - rp.len()),
        decreases dp.len() - k,
    {
        let ghost before = rest.deep_view();
        rest.push(dp[k].clone());
        proof {
            assert(rest.deep_view() =~= before.push(dp.deep_view()[k as int]));
            assert(rest.deep_view() =~= dp.deep_view().skip(rp.len() as int).take(
                k + 1 - rp.len(),
            ));
        }
        k = k + 1;
    }
    proof {
        assert(dp.deep_view().skip(rp.len() as int).take(dp.len() - rp.len()) =~= dp.deep_view()
            .skip(rp.len() as int));
    }
    Option::Some(crate::paths::render_path(false, &rest))
}

/// Walk the nav list, recording every leaf in both maps. Section titles
/// become slug URL segments; a spliced subsite extends the prefix by its
/// directory's path relative to the site root.
pub fn build_maps_items(
    items: &Vec<NavItem>,
    mkdocs_dir: &str,
    site_root: &str,
    url_prefix: &str,
    maps: &mut LinkMaps,
)
    ensures
        (final(maps).url_to_src@, final(maps).src_to_url@) == maps_of_items(
            items@,
            mkdocs_dir@,
            site_root@,
            url_prefix@,
            (old(maps).url_to_src@, old(maps).src_to_url@),
        ),
    decreases items@, 1int,
{
    let ghost all = items@;
    let ghost st0 = (maps.url_to_src@, maps.src_to_url@);
    let mut i: usize = 0;
    proof {
        assert(all.skip(0) =~= all);
    }
    while i < items.len()
        invariant
            i <= items.len(),
            all == items@,
            maps_of_items(all, mkdocs_dir@, site_root@, url_prefix@, st0) == maps_of_items(
                all.skip(i as int),
                mkdocs_dir@,
                site_root@,
                url_prefix@,
                (maps.url_to_src@, maps.src_to_url@),
            ),
        decreases items.len() - i,
    {
        proof {
            assert(all.skip(i as int)[0] == all[i as int]);
            assert(all.skip(i as int).drop_first() =~= all.skip(i + 1));
        }
        build_maps_item(&items[i], mkdocs_dir, site_root, url_prefix, maps);
        i = i + 1;
    }
    proof {
        assert(all.skip(items.len() as int) =~= Seq::<NavItem>::empty());
    }
}

/// Record one nav entry in both maps.
pub fn build_maps_item(
    item: &NavItem,
    mkdocs_dir: &str,
    site_root: &str,
    url_prefix: &str,
    maps: &mut LinkMaps,
)
    ensures
        (final(maps).url_to_src@, final(maps).src_to_url@) == maps_of_item(
            *item,
            mkdocs_dir@,
            site_root@,
            url_prefix@,
            (old(maps).url_to_src@, old(maps).src_to_url@),
        ),
    decreases *item, 0int,
{
    match item {
        NavItem::Page { title: _, target } => {
            match parse_splice_target(target.as_str()) {
                Option::Some(_) => {
                },
                Option::None => {
                    insert_mapping(target.as_str(), mkdocs_dir, url_prefix, maps);
                },
            }
        },
        NavItem::Section { title, children } => {
            let slug = slugify(title.as_str());
            let new_prefix = crate::paths::clean_path(
                join_path(url_prefix, slug.as_str()).as_str(),
            );
            build_maps_items(children, mkdocs_dir, site_root, new_prefix.as_str(), maps);
        },
        NavItem::PlainPath(target) => {
            insert_mapping(target.as_str(), mkdocs_dir, url_prefix, maps);
        },
        NavItem::Subsite { dir, children } => {
            let child_prefix = match strip_prefix_of(dir.as_str(), site_root) {
                Option::Some(rel) => crate::paths::clean_path(
                    join_path(url_prefix, rel.as_str()).as_str(),
                ),
                Option::None => String::from_str(url_prefix),
            };
            build_maps_items(children, dir.as_str(), site_root, child_prefix.as_str(), maps);
        },
    }
}

/// Map the virtual hierarchy the nav defines onto the filesystem, so links
/// can be checked for validity: rendered URL to source path and back.
pub fn build_link_maps(nav: &Vec<NavItem>, mkdocs_dir: &str) -> (maps: LinkMaps)
    ensures
        (maps.url_to_src@, maps.src_to_url@) == maps_of_items(
            nav@,
            mkdocs_dir@,
            mkdocs_dir@,
            Seq::<char>::empty(),
            (Seq::<(Seq<char>, Seq<char>)>::empty(), Seq::<(Seq<char>, Seq<char>)>::empty()),
        ),
{
    let mut maps = LinkMaps { url_to_src: PathMap::new(), src_to_url: PathMap::new() };
    build_maps_items(nav, mkdocs_dir, mkdocs_dir, "", &mut maps);
    proof {
        reveal_strlit("");
        assert(""@ =~= Seq::<char>::empty());
    }
    maps
}

} // verus!
