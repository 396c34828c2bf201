//! The navigation tree: a hierarchy of pages, sections and spliced-in
//! subsite trees, and the walks that collect the filesystem paths its leaf
//! entries name and the subsite directories that bound the on-disk scan.
//!
//! Splice directives (a page target starting with the `!`-prefixed token)
//! name another nav config file. Reading and decoding that file is the
//! caller's work; a loaded tree carries each spliced subtree as a
//! `Subsite` node together with the directory the spliced config sits in.

use vstd::prelude::*;
use vstd::string::*;
use crate::paths::{
    clean_path, clean_path_spec, join_path, join_spec, substring, trim_quotes, trim_quotes_spec,
    trim_spec, trim_ws,
};
use crate::sets::{seq_set_insert, PathSet};

verus! {

/// One entry of a navigation list.
pub enum NavItem {
    /// A titled page naming a content path.
    Page { title: String, target: String },
    /// A titled group of nested entries.
    Section { title: String, children: Vec<NavItem> },
    /// A bare content path.
    PlainPath(String),
    /// A subtree spliced in from another subsite's nav config; `dir` is the
    /// directory holding that config.
    Subsite { dir: String, children: Vec<NavItem> },
}

/// A decoded nav configuration.
pub struct MkDocsConfig {
    pub nav: Vec<NavItem>,
}

// ---------------------------------------------------------------------------
// Splice directives
// ---------------------------------------------------------------------------

/// The token that marks a splice directive.
pub open spec fn directive_token() -> Seq<char> {
    seq!['!', 'i', 'n', 'c', 'l', 'u', 'd', 'e']
}

/// Is this target string a splice directive?
pub open spec fn is_directive(v: Seq<char>) -> bool {
    let t = trim_spec(v);
    t.len() >= 8 && t.take(8) == directive_token()
}

/// The config path a directive names: what follows the token, whitespace
/// and quotes trimmed.
pub open spec fn directive_target(v: Seq<char>) -> Seq<char> {
    trim_quotes_spec(trim_spec(trim_spec(v).skip(8)))
}

/// Recognize a splice directive and extract the config path it names.
pub fn parse_splice_target(v: &str) -> (r: Option<String>)
    ensures
        match r {
            Option::Some(t) => is_directive(v@) && t@ == directive_target(v@),
            Option::None => !is_directive(v@),
        },
{
    let t = trim_ws(v);
    let n = t.as_str().unicode_len();
    if n < 8 {
        return Option::None;
    }
    let m = t.as_str().get_char(0) == '!' && t.as_str().get_char(1) == 'i' && t.as_str().get_char(
        2,
    ) == 'n' && t.as_str().get_char(3) == 'c' && t.as_str().get_char(4) == 'l'
        && t.as_str().get_char(5) == 'u' && t.as_str().get_char(6) == 'd' && t.as_str().get_char(7)
        == 'e';
    if !m {
        proof {
            assert(trim_spec(v@).take(8)[0] == trim_spec(v@)[0]);
            assert(!(trim_spec(v@).take(8) == directive_token())) by {
                if trim_spec(v@).take(8) == directive_token() {
                    assert(trim_spec(v@)[0] == '!');
                    assert(trim_spec(v@)[1] == 'i');
                    assert(trim_spec(v@)[2] == 'n');
                    assert(trim_spec(v@)[3] == 'c');
                    assert(trim_spec(v@)[4] == 'l');
                    assert(trim_spec(v@)[5] == 'u');
                    assert(trim_spec(v@)[6] == 'd');
                    assert(trim_spec(v@)[7] == 'e');
                }
            }
        }
        return Option::None;
    }
    proof {
        assert(trim_spec(v@).take(8) =~= directive_token());
    }
    let rest = substring(t.as_str(), 8, n);
    proof {
        assert(t@.subrange(8, n as int) =~= t@.skip(8));
    }
    Option::Some(trim_quotes(trim_ws(rest.as_str()).as_str()))
}

// ---------------------------------------------------------------------------
// Collecting pages
// ---------------------------------------------------------------------------

/// The path segment `docs`.
pub open spec fn docs_seg() -> Seq<char> {
    seq!['d', 'o', 'c', 's']
}

/// The filesystem path a leaf entry should occupy: `prefix/docs/<target>`,
/// cleaned without filesystem access.
pub open spec fn page_path(prefix: Seq<char>, target: Seq<char>) -> Seq<char> {
    clean_path_spec(join_spec(join_spec(prefix, docs_seg()), target))
}

/// The pages a nav list contributes, added onto `acc` in order.
pub open spec fn pages_of_items(items: Seq<NavItem>, prefix: Seq<char>, acc: Seq<Seq<char>>) -> Seq<
    Seq<char>,
>
    decreases items, 1int,
{
    if items.len() == 0 {
        acc
    } else {
        pages_of_items(items.drop_first(), prefix, pages_of_item(items[0], prefix, acc))
    }
}

/// The pages one nav entry contributes.
pub open spec fn pages_of_item(item: NavItem, prefix: Seq<char>, acc: Seq<Seq<char>>) -> Seq<
    Seq<char>,
>
    decreases item, 0int,
{
    match item {
        NavItem::Page { title, target } => if is_directive(target@) {
            acc
        } else {
            seq_set_insert(acc, page_path(prefix, target@))
        },
        NavItem::Section { title, children } => pages_of_items(children@, prefix, acc),
        NavItem::PlainPath(target) => seq_set_insert(acc, page_path(prefix, target@)),
        NavItem::Subsite { dir, children } => pages_of_items(children@, dir@, acc),
    }
}

/// Compute the filesystem path a leaf entry should occupy.
pub fn leaf_page_path(prefix: &str, target: &str) -> (r: String)
    ensures
        r@ == page_path(prefix@, target@),
{
    let with_docs = join_path(prefix, "docs");
    proof {
        reveal_strlit("docs");
        assert("docs"@ =~= docs_seg());
    }
    let full = join_path(with_docs.as_str(), target);
    clean_path(full.as_str())
}

/// Walk a nav list and add the normalized filesystem path of every leaf
/// entry to `pages`. A directive target that was never spliced contributes
/// nothing: it names a config, not a content path.
pub fn collect_pages(items: &Vec<NavItem>, pages: &mut PathSet, prefix: &str)
    ensures
        final(pages)@ == pages_of_items(items@, prefix@, old(pages)@),
    decreases items@, 1int,
{
    let ghost all = items@;
    let ghost acc0 = pages@;
    let mut i: usize = 0;
    proof {
        assert(all.skip(0) =~= all);
    }
    while i < items.len()
        invariant
            i <= items.len(),
            all == items@,
            pages_of_items(all, prefix@, acc0) == pages_of_items(
                all.skip(i as int),
                prefix@,
                pages@,
            ),
        decreases items.len() - i,
    {
        proof {
            assert(all.skip(i as int)[0] == all[i as int]);
            assert(all.skip(i as int).drop_first() =~= all.skip(i + 1));
        }
        collect_page_item(&items[i], pages, prefix);
        i = i + 1;
    }
    proof {
        assert(all.skip(items.len() as int) =~= Seq::<NavItem>::empty());
    }
}

/// Add the pages of one nav entry.
pub fn collect_page_item(item: &NavItem, pages: &mut PathSet, prefix: &str)
    ensures
        final(pages)@ == pages_of_item(*item, prefix@, old(pages)@),
    decreases *item, 0int,
{
    match item {
        NavItem::Page { title: _, target } => {
            match parse_splice_target(target.as_str()) {
                Option::Some(_) => {
                },
                Option::None => {
                    pages.insert(leaf_page_path(prefix, target.as_str()));
                },
            }
        },
        NavItem::Section { title: _, children } => {
            collect_pages(children, pages, prefix);
        },
        NavItem::PlainPath(target) => {
            pages.insert(leaf_page_path(prefix, target.as_str()));
        },
        NavItem::Subsite { dir, children } => {
            collect_pages(children, pages, dir.as_str());
        },
    }
}

// ---------------------------------------------------------------------------
// Subsite roots
// ---------------------------------------------------------------------------

/// The subsite directories a nav list names, added onto `acc`.
pub open spec fn roots_of_items(items: Seq<NavItem>, acc: Seq<Seq<char>>) -> Seq<Seq<char>>
    decreases items, 1int,
{
    if items.len() == 0 {
        acc
    } else {
        roots_of_items(items.drop_first(), roots_of_item(items[0], acc))
    }
}

/// The subsite directories one nav entry names.
pub open spec fn roots_of_item(item: NavItem, acc: Seq<Seq<char>>) -> Seq<Seq<char>>
    decreases item, 0int,
{
    match item {
        NavItem::Page { title, target } => acc,
        NavItem::Section { title, children } => roots_of_items(children@, acc),
        NavItem::PlainPath(target) => acc,
        NavItem::Subsite { dir, children } => seq_set_insert(acc, dir@),
    }
}

/// Collect the directory of every subsite the tree splices in directly:
/// these bound the on-disk markdown walk, which must never start at the
/// monorepo root itself. A subsite nested inside another lies under its
/// parent's directory and needs no root of its own.
pub fn subsite_roots(items: &Vec<NavItem>, roots: &mut PathSet)
    ensures
        final(roots)@ == roots_of_items(items@, old(roots)@),
    decreases items@, 1int,
{
    let ghost all = items@;
    let ghost acc0 = roots@;
    let mut i: usize = 0;
    proof {
        assert(all.skip(0) =~= all);
    }
    while i < items.len()
        invariant
            i <= items.len(),
            all == items@,
            roots_of_items(all, acc0) == roots_of_items(all.skip(i as int), roots@),
        decreases items.len() - i,
    {
        proof {
            assert(all.skip(i as int)[0] == all[i as int]);
            assert(all.skip(i as int).drop_first() =~= all.skip(i + 1));
        }
        subsite_root_item(&items[i], roots);
        i = i + 1;
    }
    proof {
        assert(all.skip(items.len() as int) =~= Seq::<NavItem>::empty());
    }
}

/// Collect the subsite directories of one nav entry.
pub fn subsite_root_item(item: &NavItem, roots: &mut PathSet)
    ensures
        final(roots)@ == roots_of_item(*item, old(roots)@),
    decreases *item, 0int,
{
    match item {
        NavItem::Page { title: _, target: _ } => {
        },
        NavItem::Section { title: _, children } => {
            subsite_roots(children, roots);
        },
        NavItem::PlainPath(_) => {
        },
        NavItem::Subsite { dir, children: _ } => {
            roots.insert(dir.clone());
        },
    }
}

} // verus!
