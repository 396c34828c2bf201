//! The audit engine: missing nav entries, ghost files, broken links,
//! image checks and the transitive link scan, all as pure functions of the
//! navigation tree, the walked file lists, the known-to-exist sets and the
//! file contents the caller gathered.

use vstd::prelude::*;
use vstd::string::*;
use crate::content::{
    extract_image_refs, extract_links, has_footnote, has_footnotes, images_of, links_of,
};
use crate::links::LinkMaps;
use crate::nav::{docs_seg, NavItem};
use crate::paths::{
    clean_path, clean_path_spec, is_abs, join_path, join_spec, norm_path_spec, normalize_path,
    parent_of, parent_spec, path_is_abs, path_parts, path_segs, str_eq, str_ends_with,
};
use crate::resolve::{cascade_spec, normalise_links, normalise_list, resolve_target};
use crate::sets::{assoc_lookup, seq_set_insert, PathMap, PathSet};

verus! {

/// A link that resolved nowhere: the file it stands in, the normalized
/// link text, and whether that file was reached through the help index.
#[derive(Debug, PartialEq, Eq)]
pub struct BrokenLink {
    pub from: String,
    pub link: String,
    pub from_help_url: bool,
}

/// An image reference that resolved nowhere.
#[derive(Debug, PartialEq, Eq)]
pub struct BrokenImage {
    pub from: String,
    pub image: String,
}

/// Everything one audit run reports.
#[derive(Debug)]
pub struct AuditResult {
    pub nav_missing: Vec<String>,
    pub ghost_files: Vec<String>,
    pub help_missing: Vec<String>,
    pub broken_links: Vec<BrokenLink>,
    pub missing_images: Vec<BrokenImage>,
    pub orphan_images: Vec<String>,
    pub pages_with_footnotes: Vec<String>,
}

/// The value of a broken link record.
pub open spec fn bl_view(b: BrokenLink) -> (Seq<char>, Seq<char>, bool) {
    (b.from@, b.link@, b.from_help_url)
}

/// The values of a list of broken link records.
pub open spec fn bls_view(s: Seq<BrokenLink>) -> Seq<(Seq<char>, Seq<char>, bool)> {
    s.map_values(|b: BrokenLink| bl_view(b))
}

/// The value of a broken image record.
pub open spec fn bi_view(b: BrokenImage) -> (Seq<char>, Seq<char>) {
    (b.from@, b.image@)
}

/// The values of a list of broken image records.
pub open spec fn bis_view(s: Seq<BrokenImage>) -> Seq<(Seq<char>, Seq<char>)> {
    s.map_values(|b: BrokenImage| bi_view(b))
}

// ---------------------------------------------------------------------------
// Missing files and orphans
// ---------------------------------------------------------------------------

/// The members of `pages`, in order, that the existence set does not hold.
pub open spec fn missing_spec(pages: Seq<Seq<char>>, existing: Seq<Seq<char>>) -> Seq<Seq<char>>
    decreases pages.len(),
{
    if pages.len() == 0 {
        Seq::<Seq<char>>::empty()
    } else {
        let rest = missing_spec(pages.drop_first(), existing);
        if !existing.contains(pages[0]) {
            seq![pages[0]] + rest
        } else {
            rest
        }
    }
}

/// A path is missing exactly when it is expected and does not exist.
pub proof fn lemma_missing_iff(pages: Seq<Seq<char>>, existing: Seq<Seq<char>>, p: Seq<char>)
    ensures
        missing_spec(pages, existing).contains(p) <==> (pages.contains(p) && !existing.contains(
            p,
        )),
    decreases pages.len(),
{
    if pages.len() > 0 {
        lemma_missing_iff(pages.drop_first(), existing, p);
        assert(pages.contains(p) <==> (pages[0] == p || pages.drop_first().contains(p))) by {
            if pages.contains(p) {
                let i = choose|i: int| 0 <= i < pages.len() && pages[i] == p;
                if i > 0 {
                    assert(pages.drop_first()[i - 1] == p);
                }
            }
            if pages.drop_first().contains(p) {
                let i = choose|i: int| 0 <= i < pages.drop_first().len() && pages.drop_first()[i]
                    == p;
                assert(pages[i + 1] == p);
            }
        }
        let rest = missing_spec(pages.drop_first(), existing);
        if !existing.contains(pages[0]) {
            assert(missing_spec(pages, existing) == seq![pages[0]] + rest);
            assert(missing_spec(pages, existing).contains(p) <==> (pages[0] == p || rest.contains(
                p,
            ))) by {
                if missing_spec(pages, existing).contains(p) {
                    let i = choose|i: int|
                        0 <= i < missing_spec(pages, existing).len() && missing_spec(
                            pages,
                            existing,
                        )[i] == p;
                    if i > 0 {
                        assert(rest[i - 1] == p);
                    }
                }
                if rest.contains(p) {
                    let i = choose|i: int| 0 <= i < rest.len() && rest[i] == p;
                    assert((seq![pages[0]] + rest)[i + 1] == p);
                }
                if pages[0] == p {
                    assert((seq![pages[0]] + rest)[0] == p);
                }
            }
        }
    }
}

/// The expected pages that do not exist. `existing` stands for what is a
/// file at audit time: a path is reported exactly when it is expected and
/// not in that set.
pub fn missing_files(pages: &PathSet, existing: &PathSet) -> (r: Vec<String>)
    ensures
        r.deep_view() == missing_spec(pages@, existing@),
        forall|p: Seq<char>| #[trigger]
            r.deep_view().contains(p) <==> (pages@.contains(p) && !existing@.contains(p)),
{
    let ghost all = pages@;
    let mut out: Vec<String> = Vec::new();
    let mut i: usize = 0;
    proof {
        assert(all.skip(0) =~= all);
        assert(out.deep_view() =~= Seq::<Seq<char>>::empty());
        assert(Seq::<Seq<char>>::empty() + missing_spec(all, existing@) =~= missing_spec(
            all,
            existing@,
        ));
    }
    while i < pages.len()
        invariant
            i <= all.len(),
            all == pages@,
            missing_spec(all, existing@) == out.deep_view() + missing_spec(
                all.skip(i as int),
                existing@,
            ),
        decreases all.len() - i,
    {
        proof {
            assert(all.skip(i as int)[0] == all[i as int]);
            assert(all.skip(i as int).drop_first() =~= all.skip(i + 1));
        }
        let p = pages.get(i);
        if !existing.contains(p.as_str()) {
            let x = p.clone();
            let ghost gx = x@;
            let ghost old_out = out.deep_view();
            out.push(x);
            proof {
                assert(out.deep_view() =~= old_out.push(gx));
                assert(old_out.push(gx) + missing_spec(all.skip(i + 1), existing@) =~= old_out + (
                seq![gx] + missing_spec(all.skip(i + 1), existing@)));
            }
        }
        i = i + 1;
    }
    proof {
        assert(all.skip(all.len() as int) =~= Seq::<Seq<char>>::empty());
        assert(out.deep_view() + Seq::<Seq<char>>::empty() =~= out.deep_view());
        assert forall|p: Seq<char>| #[trigger]
            out.deep_view().contains(p) <==> (all.contains(p) && !existing@.contains(p)) by {
            lemma_missing_iff(all, existing@, p);
        }
    }
    out
}

/// Does the path end in `-print.md`?
pub open spec fn is_print_variant(f: Seq<char>) -> bool {
    f.len() >= 9 && f.skip(f.len() - 9) == seq!['-', 'p', 'r', 'i', 'n', 't', '.', 'm', 'd']
}

/// The on-disk files, in order, that the nav does not name, print
/// variants excluded.
pub open spec fn orphans_spec(nav: Seq<Seq<char>>, files: Seq<Seq<char>>) -> Seq<Seq<char>>
    decreases files.len(),
{
    if files.len() == 0 {
        Seq::<Seq<char>>::empty()
    } else {
        let rest = orphans_spec(nav, files.drop_first());
        if !nav.contains(files[0]) && !is_print_variant(files[0]) {
            seq![files[0]] + rest
        } else {
            rest
        }
    }
}

/// A file is an orphan candidate exactly when it is on disk, not in the
/// nav, and not a print variant.
pub proof fn lemma_orphans_iff(nav: Seq<Seq<char>>, files: Seq<Seq<char>>, f: Seq<char>)
    ensures
        orphans_spec(nav, files).contains(f) <==> (files.contains(f) && !nav.contains(f)
            && !is_print_variant(f)),
    decreases files.len(),
{
    if files.len() > 0 {
        lemma_orphans_iff(nav, files.drop_first(), f);
        assert(files.contains(f) <==> (files[0] == f || files.drop_first().contains(f))) by {
            if files.contains(f) {
                let i = choose|i: int| 0 <= i < files.len() && files[i] == f;
                if i > 0 {
                    assert(files.drop_first()[i - 1] == f);
                }
            }
            if files.drop_first().contains(f) {
                let i = choose|i: int| 0 <= i < files.drop_first().len() && files.drop_first()[i]
                    == f;
                assert(files[i + 1] == f);
            }
        }
        let rest = orphans_spec(nav, files.drop_first());
        if !nav.contains(files[0]) && !is_print_variant(files[0]) {
            assert(orphans_spec(nav, files).contains(f) <==> (files[0] == f || rest.contains(f)))
                by {
                if orphans_spec(nav, files).contains(f) {
                    let i = choose|i: int|
                        0 <= i < orphans_spec(nav, files).len() && orphans_spec(nav, files)[i]
                            == f;
                    if i > 0 {
                        assert(rest[i - 1] == f);
                    }
                }
                if rest.contains(f) {
                    let i = choose|i: int| 0 <= i < rest.len() && rest[i] == f;
                    assert((seq![files[0]] + rest)[i + 1] == f);
                }
                if files[0] == f {
                    assert((seq![files[0]] + rest)[0] == f);
                }
            }
        }
    }
}

/// The markdown files the navigation does not reference, print variants
/// (`*-print.md`) never among them.
#[verifier::loop_isolation(false)]
pub fn orphans(nav: &PathSet, files: &Vec<String>) -> (r: Vec<String>)
    ensures
        r.deep_view() == orphans_spec(nav@, files.deep_view()),
{
    let ghost all = files.deep_view();
    let mut out: Vec<String> = Vec::new();
    let mut i: usize = 0;
    proof {
        assert(all.skip(0) =~= all);
        assert(out.deep_view() =~= Seq::<Seq<char>>::empty());
        assert(Seq::<Seq<char>>::empty() + orphans_spec(nav@, all) =~= orphans_spec(nav@, all));
        reveal_strlit("-print.md");
        assert("-print.md"@ =~= seq!['-', 'p', 'r', 'i', 'n', 't', '.', 'm', 'd']);
    }
    while i < files.len()
        invariant
            i <= files.len(),
            all == files.deep_view(),
            orphans_spec(nav@, all) == out.deep_view() + orphans_spec(nav@, all.skip(i as int)),
        decreases files.len() - i,
    {
        proof {
            assert(all.skip(i as int)[0] == all[i as int]);
            assert(all.skip(i as int).drop_first() =~= all.skip(i + 1));
            assert(files.deep_view()[i as int] == files@[i as int]@);
        }
        let f = &files[i];
        let print_variant = str_ends_with(f.as_str(), "-print.md");
        proof {
            assert(f@.len() >= 9 ==> f@.subrange(f@.len() - 9, f@.len() as int) =~= f@.skip(
                f@.len() - 9,
            ));
        }
        if !nav.contains(f.as_str()) && !print_variant {
            let x = f.clone();
            let ghost gx = x@;
            let ghost old_out = out.deep_view();
            out.push(x);
            proof {
                assert(out.deep_view() =~= old_out.push(gx));
                assert(old_out.push(gx) + orphans_spec(nav@, all.skip(i + 1)) =~= old_out + (
                seq![gx] + orphans_spec(nav@, all.skip(i + 1))));
            }
        }
        i = i + 1;
    }
    proof {
        assert(all.skip(files.len() as int) =~= Seq::<Seq<char>>::empty());
        assert(out.deep_view() + Seq::<Seq<char>>::empty() =~= out.deep_view());
    }
    out
}

// ---------------------------------------------------------------------------
// Link analysis
// ---------------------------------------------------------------------------

/// Fold a list of paths into a set, in order.
pub open spec fn set_insert_all(s: Seq<Seq<char>>, xs: Seq<Seq<char>>) -> Seq<Seq<char>>
    decreases xs.len(),
{
    if xs.len() == 0 {
        s
    } else {
        set_insert_all(seq_set_insert(s, xs[0]), xs.drop_first())
    }
}

/// Insert every member of `other`.
pub fn insert_all(target: &mut PathSet, other: &PathSet)
    ensures
        final(target)@ == set_insert_all(old(target)@, other@),
{
    let ghost xs = other@;
    let mut i: usize = 0;
    proof {
        assert(xs.skip(0) =~= xs);
    }
    while i < other.len()
        invariant
            i <= xs.len(),
            xs == other@,
            set_insert_all(old(target)@, xs) == set_insert_all(target@, xs.skip(i as int)),
        decreases xs.len() - i,
    {
        proof {
            assert(xs.skip(i as int)[0] == xs[i as int]);
            assert(xs.skip(i as int).drop_first() =~= xs.skip(i + 1));
        }
        target.insert(other.get(i).clone());
        i = i + 1;
    }
    proof {
        assert(xs.skip(xs.len() as int) =~= Seq::<Seq<char>>::empty());
    }
}

/// One page's links analysed in order: each resolved target joins the
/// referenced set, each failure becomes a broken-link record.
pub open spec fn analyse_one_spec(
    src: Seq<char>,
    links: Seq<Seq<char>>,
    state: (Seq<Seq<char>>, Seq<(Seq<char>, Seq<char>, bool)>),
    u2s: Seq<(Seq<char>, Seq<char>)>,
    s2u: Seq<(Seq<char>, Seq<char>)>,
    root: Seq<char>,
    roots: Seq<Seq<char>>,
    existing: Seq<Seq<char>>,
    dirs: Seq<Seq<char>>,
    help: Seq<Seq<char>>,
) -> (Seq<Seq<char>>, Seq<(Seq<char>, Seq<char>, bool)>)
    decreases links.len(),
{
    if links.len() == 0 {
        state
    } else {
        let next = match cascade_spec(u2s, s2u, src, links[0], root, roots, existing, dirs) {
            Option::Some(t) => (seq_set_insert(state.0, t), state.1),
            Option::None => (state.0, state.1.push((src, links[0], help.contains(src)))),
        };
        analyse_one_spec(
            src,
            links.drop_first(),
            next,
            u2s,
            s2u,
            root,
            roots,
            existing,
            dirs,
            help,
        )
    }
}

/// A batch of pages analysed in order.
pub open spec fn analyse_files_spec(
    files: Seq<(Seq<char>, Seq<char>)>,
    state: (Seq<Seq<char>>, Seq<(Seq<char>, Seq<char>, bool)>),
    u2s: Seq<(Seq<char>, Seq<char>)>,
    s2u: Seq<(Seq<char>, Seq<char>)>,
    root: Seq<char>,
    roots: Seq<Seq<char>>,
    existing: Seq<Seq<char>>,
    dirs: Seq<Seq<char>>,
    help: Seq<Seq<char>>,
) -> (Seq<Seq<char>>, Seq<(Seq<char>, Seq<char>, bool)>)
    decreases files.len(),
{
    if files.len() == 0 {
        state
    } else {
        analyse_files_spec(
            files.drop_first(),
            analyse_one_spec(
                files[0].0,
                normalise_list(links_of(files[0].1)),
                state,
                u2s,
                s2u,
                root,
                roots,
                existing,
                dirs,
                help,
            ),
            u2s,
            s2u,
            root,
            roots,
            existing,
            dirs,
            help,
        )
    }
}

/// Run the resolution cascade over every link of every page in the batch.
/// Returns the referenced targets and the broken links, `from_help_url`
/// marking pages reached through the help index.
#[verifier::loop_isolation(false)]
pub fn analyse_links(
    files: &Vec<(String, String)>,
    maps: &LinkMaps,
    root: &str,
    roots: &PathSet,
    existing: &PathSet,
    dirs: &PathSet,
    help: &PathSet,
) -> (r: (PathSet, Vec<BrokenLink>))
    ensures
        (r.0@, bls_view(r.1@)) == analyse_files_spec(
            files.deep_view(),
            (Seq::<Seq<char>>::empty(), Seq::<(Seq<char>, Seq<char>, bool)>::empty()),
            maps.url_to_src@,
            maps.src_to_url@,
            root@,
            roots@,
            existing@,
            dirs@,
            help@,
        ),
{
    let ghost all = files.deep_view();
    let ghost goal = analyse_files_spec(
        all,
        (Seq::<Seq<char>>::empty(), Seq::<(Seq<char>, Seq<char>, bool)>::empty()),
        maps.url_to_src@,
        maps.src_to_url@,
        root@,
        roots@,
        existing@,
        dirs@,
        help@,
    );
    let mut referenced = PathSet::new();
    let mut broken: Vec<BrokenLink> = Vec::new();
    let mut i: usize = 0;
    proof {
        assert(all.skip(0) =~= all);
        assert(bls_view(broken@) =~= Seq::<(Seq<char>, Seq<char>, bool)>::empty());
    }
    while i < files.len()
        invariant
            i <= files.len(),
            goal == analyse_files_spec(
                all.skip(i as int),
                (referenced@, bls_view(broken@)),
                maps.url_to_src@,
                maps.src_to_url@,
                root@,
                roots@,
                existing@,
                dirs@,
                help@,
            ),
        decreases files.len() - i,
    {
        proof {
            assert(all.skip(i as int)[0] == all[i as int]);
            assert(all.skip(i as int).drop_first() =~= all.skip(i + 1));
            assert(files.deep_view()[i as int] == (files@[i as int].0@, files@[i as int].1@));
        }
        let src = files[i].0.clone();
        let from_help = help.contains(src.as_str());
        let links = normalise_links(extract_links(files[i].1.as_str()));
        let ghost lseq = links.deep_view();
        let mut k: usize = 0;
        proof {
            assert(lseq.skip(0) =~= lseq);
        }
        while k < links.len()
            invariant
                k <= links.len(),
                lseq == links.deep_view(),
                src@ == all[i as int].0,
                from_help == help@.contains(src@),
                goal == analyse_files_spec(
                    all.skip(i + 1),
                    analyse_one_spec(
                        src@,
                        lseq.skip(k as int),
                        (referenced@, bls_view(broken@)),
                        maps.url_to_src@,
                        maps.src_to_url@,
                        root@,
                        roots@,
                        existing@,
                        dirs@,
                        help@,
                    ),
                    maps.url_to_src@,
                    maps.src_to_url@,
                    root@,
                    roots@,
                    existing@,
                    dirs@,
                    help@,
                ),
            decreases links.len() - k,
        {
            proof {
                assert(lseq.skip(k as int)[0] == lseq[k as int]);
                assert(lseq.skip(k as int).drop_first() =~= lseq.skip(k + 1));
                assert(links.deep_view()[k as int] == links@[k as int]@);
            }
            let link = &links[k];
            match resolve_target(src.as_str(), link.as_str(), maps, root, roots, existing, dirs) {
                Option::Some(t) => {
                    referenced.insert(t);
                },
                Option::None => {
                    let ghost old_bls = bls_view(broken@);
                    broken.push(
                        BrokenLink {
                            from: src.clone(),
                            link: link.clone(),
                            from_help_url: from_help,
                        },
                    );
                    proof {
                        assert(bls_view(broken@) =~= old_bls.push(
                            (src@, lseq[k as int], from_help),
                        ));
                    }
                },
            }
            k = k + 1;
        }
        proof {
            assert(lseq.skip(links.len() as int) =~= Seq::<Seq<char>>::empty());
        }
        i = i + 1;
    }
    proof {
        assert(all.skip(files.len() as int) =~= Seq::<(Seq<char>, Seq<char>)>::empty());
    }
    (referenced, broken)
}

// ---------------------------------------------------------------------------
// The transitive scan
// ---------------------------------------------------------------------------

/// One read pass: the files of `to_scan` not yet scanned whose content is
/// at hand, paired with their contents, and the scanned set grown by them.
pub open spec fn batch_spec(
    to_scan: Seq<Seq<char>>,
    scanned: Seq<Seq<char>>,
    contents: Seq<(Seq<char>, Seq<char>)>,
) -> (Seq<(Seq<char>, Seq<char>)>, Seq<Seq<char>>)
    decreases to_scan.len(),
{
    if to_scan.len() == 0 {
        (Seq::<(Seq<char>, Seq<char>)>::empty(), scanned)
    } else {
        let p = to_scan[0];
        if !scanned.contains(p) && assoc_lookup(contents, p) is Some {
            let rest = batch_spec(to_scan.drop_first(), seq_set_insert(scanned, p), contents);
            (seq![(p, assoc_lookup(contents, p)->Some_0)] + rest.0, rest.1)
        } else {
            batch_spec(to_scan.drop_first(), scanned, contents)
        }
    }
}

/// The next frontier: referenced targets that exist and are not yet
/// scanned.
pub open spec fn next_scan_spec(
    referenced: Seq<Seq<char>>,
    scanned: Seq<Seq<char>>,
    existing: Seq<Seq<char>>,
) -> Seq<Seq<char>>
    decreases referenced.len(),
{
    if referenced.len() == 0 {
        Seq::<Seq<char>>::empty()
    } else {
        let rest = next_scan_spec(referenced.drop_first(), scanned, existing);
        if !scanned.contains(referenced[0]) && existing.contains(referenced[0]) {
            seq![referenced[0]] + rest
        } else {
            rest
        }
    }
}

/// The worklist scan: read every frontier file once, analyse its links,
/// accumulate referenced targets and broken links, and continue with the
/// newly referenced files until a pass reads nothing new. Every productive
/// pass scans at least one new file, so passes are bounded by the file
/// count; `fuel` carries that bound.
pub open spec fn scan_spec(
    fuel: nat,
    to_scan: Seq<Seq<char>>,
    scanned: Seq<Seq<char>>,
    referenced: Seq<Seq<char>>,
    broken: Seq<(Seq<char>, Seq<char>, bool)>,
    contents: Seq<(Seq<char>, Seq<char>)>,
    u2s: Seq<(Seq<char>, Seq<char>)>,
    s2u: Seq<(Seq<char>, Seq<char>)>,
    root: Seq<char>,
    roots: Seq<Seq<char>>,
    existing: Seq<Seq<char>>,
    dirs: Seq<Seq<char>>,
    help: Seq<Seq<char>>,
) -> (Seq<Seq<char>>, Seq<(Seq<char>, Seq<char>, bool)>, Seq<Seq<char>>)
    decreases fuel,
{
    if fuel == 0 {
        (referenced, broken, scanned)
    } else {
        let b = batch_spec(to_scan, scanned, contents);
        if b.0.len() == 0 {
            (referenced, broken, b.1)
        } else {
            let fresh = analyse_files_spec(
                b.0,
                (Seq::<Seq<char>>::empty(), Seq::<(Seq<char>, Seq<char>, bool)>::empty()),
                u2s,
                s2u,
                root,
                roots,
                existing,
                dirs,
                help,
            );
            scan_spec(
                (fuel - 1) as nat,
                next_scan_spec(fresh.0, b.1, existing),
                b.1,
                set_insert_all(referenced, fresh.0),
                broken + fresh.1,
                contents,
                u2s,
                s2u,
                root,
                roots,
                existing,
                dirs,
                help,
            )
        }
    }
}

/// Read one batch: take each frontier file not yet scanned whose content
/// is at hand, and mark it scanned.
#[verifier::loop_isolation(false)]
pub fn collect_batch(to_scan: &Vec<String>, scanned: &mut PathSet, contents: &PathMap) -> (r: Vec<
    (String, String),
>)
    ensures
        (r.deep_view(), final(scanned)@) == batch_spec(
            to_scan.deep_view(),
            old(scanned)@,
            contents@,
        ),
{
    let ghost all = to_scan.deep_view();
    let mut out: Vec<(String, String)> = Vec::new();
    let mut i: usize = 0;
    let ghost goal = batch_spec(all, scanned@, contents@);
    proof {
        assert(all.skip(0) =~= all);
        assert(out.deep_view() =~= Seq::<(Seq<char>, Seq<char>)>::empty());
    }
    while i < to_scan.len()
        invariant
            i <= to_scan.len(),
            all == to_scan.deep_view(),
            goal == {
                let rest = batch_spec(all.skip(i as int), scanned@, contents@);
                (out.deep_view() + rest.0, rest.1)
            },
        decreases to_scan.len() - i,
    {
        proof {
            assert(all.skip(i as int)[0] == all[i as int]);
            assert(all.skip(i as int).drop_first() =~= all.skip(i + 1));
            assert(to_scan.deep_view()[i as int] == to_scan@[i as int]@);
        }
        let p = &to_scan[i];
        if !scanned.contains(p.as_str()) {
            match contents.get(p.as_str()) {
                Option::Some(c) => {
                    let ghost old_out = out.deep_view();
                    let ghost gp = p@;
                    let ghost gc = c@;
                    let pair = (p.clone(), c.clone());
                    scanned.insert(p.clone());
                    out.push(pair);
                    proof {
                        assert(out.deep_view() =~= old_out.push((gp, gc)));
                        let rest = batch_spec(all.skip(i + 1), scanned@, contents@);
                        assert(old_out.push((gp, gc)) + rest.0 =~= old_out + (seq![(gp, gc)]
                            + rest.0));
                    }
                },
                Option::None => {
                },
            }
        }
        i = i + 1;
    }
    proof {
        assert(all.skip(to_scan.len() as int) =~= Seq::<Seq<char>>::empty());
        assert(out.deep_view() + Seq::<(Seq<char>, Seq<char>)>::empty() =~= out.deep_view());
    }
    out
}

/// Compute the next frontier from freshly referenced targets.
#[verifier::loop_isolation(false)]
pub fn next_frontier(referenced: &PathSet, scanned: &PathSet, existing: &PathSet) -> (r: Vec<
    String,
>)
    ensures
        r.deep_view() == next_scan_spec(referenced@, scanned@, existing@),
{
    let ghost all = referenced@;
    let mut out: Vec<String> = Vec::new();
    let mut i: usize = 0;
    proof {
        assert(all.skip(0) =~= all);
        assert(out.deep_view() =~= Seq::<Seq<char>>::empty());
        assert(Seq::<Seq<char>>::empty() + next_scan_spec(all, scanned@, existing@)
            =~= next_scan_spec(all, scanned@, existing@));
    }
    while i < referenced.len()
        invariant
            i <= all.len(),
            all == referenced@,
            next_scan_spec(all, scanned@, existing@) == out.deep_view() + next_scan_spec(
                all.skip(i as int),
                scanned@,
                existing@,
            ),
        decreases all.len() - i,
    {
        proof {
            assert(all.skip(i as int)[0] == all[i as int]);
            assert(all.skip(i as int).drop_first() =~= all.skip(i + 1));
        }
        let p = referenced.get(i);
        if !scanned.contains(p.as_str()) && existing.contains(p.as_str()) {
            let x = p.clone();
            let ghost gx = x@;
            let ghost old_out = out.deep_view();
            out.push(x);
            proof {
                assert(out.deep_view() =~= old_out.push(gx));
                assert(old_out.push(gx) + next_scan_spec(all.skip(i + 1), scanned@, existing@)
                    =~= old_out + (seq![gx] + next_scan_spec(all.skip(i + 1), scanned@, existing@)));
            }
        }
        i = i + 1;
    }
    proof {
        assert(all.skip(all.len() as int) =~= Seq::<Seq<char>>::empty());
        assert(out.deep_view() + Seq::<Seq<char>>::empty() =~= out.deep_view());
    }
    out
}

/// Run the transitive scan from the seed files.
#[verifier::loop_isolation(false)]
pub fn scan_links(
    seeds: Vec<String>,
    referenced0: PathSet,
    contents: &PathMap,
    maps: &LinkMaps,
    root: &str,
    roots: &PathSet,
    existing: &PathSet,
    dirs: &PathSet,
    help: &PathSet,
) -> (r: (PathSet, Vec<BrokenLink>, PathSet))
    ensures
        (r.0@, bls_view(r.1@), r.2@) == scan_spec(
            (contents@.len() + 1) as nat,
            seeds.deep_view(),
            Seq::<Seq<char>>::empty(),
            referenced0@,
            Seq::<(Seq<char>, Seq<char>, bool)>::empty(),
            contents@,
            maps.url_to_src@,
            maps.src_to_url@,
            root@,
            roots@,
            existing@,
            dirs@,
            help@,
        ),
{
    let mut to_scan = seeds;
    let mut scanned = PathSet::new();
    let mut referenced = referenced0;
    let mut broken: Vec<BrokenLink> = Vec::new();
    let mut fuel: usize = contents.len();
    let mut done = false;
    let ghost goal = scan_spec(
        (contents@.len() + 1) as nat,
        to_scan.deep_view(),
        Seq::<Seq<char>>::empty(),
        referenced@,
        Seq::<(Seq<char>, Seq<char>, bool)>::empty(),
        contents@,
        maps.url_to_src@,
        maps.src_to_url@,
        root@,
        roots@,
        existing@,
        dirs@,
        help@,
    );
    proof {
        assert(scanned@ =~= Seq::<Seq<char>>::empty());
        assert(bls_view(broken@) =~= Seq::<(Seq<char>, Seq<char>, bool)>::empty());
    }
    while !done
        invariant
            !done ==> goal == scan_spec(
                (fuel + 1) as nat,
                to_scan.deep_view(),
                scanned@,
                referenced@,
                bls_view(broken@),
                contents@,
                maps.url_to_src@,
                maps.src_to_url@,
                root@,
                roots@,
                existing@,
                dirs@,
                help@,
            ),
            done ==> goal == (referenced@, bls_view(broken@), scanned@),
        decreases fuel, (if done {
            0int
        } else {
            1int
        }),
    {
        let batch = collect_batch(&to_scan, &mut scanned, contents);
        if batch.len() == 0 {
            proof {
                assert(batch.deep_view() =~= Seq::<(Seq<char>, Seq<char>)>::empty());
                assert(goal == (referenced@, bls_view(broken@), scanned@));
            }
            done = true;
        } else {
            let fresh = analyse_links(&batch, maps, root, roots, existing, dirs, help);
            insert_all(&mut referenced, &fresh.0);
            let ghost old_bls = bls_view(broken@);
            let ghost fresh_bls = bls_view(fresh.1@);
            let mut fresh_broken = fresh.1;
            let ghost fb0 = broken@;
            let ghost fb1 = fresh_broken@;
            broken.append(&mut fresh_broken);
            proof {
                assert(broken@ =~= fb0 + fb1);
                assert(bls_view(fb0 + fb1) =~= old_bls + fresh_bls);
            }
            to_scan = next_frontier(&fresh.0, &scanned, existing);
            proof {
                assert(goal == scan_spec(
                    fuel as nat,
                    to_scan.deep_view(),
                    scanned@,
                    referenced@,
                    bls_view(broken@),
                    contents@,
                    maps.url_to_src@,
                    maps.src_to_url@,
                    root@,
                    roots@,
                    existing@,
                    dirs@,
                    help@,
                ));
            }
            if fuel == 0 {
                done = true;
            } else {
                fuel = fuel - 1;
            }
        }
    }
    (referenced, broken, scanned)
}

// ---------------------------------------------------------------------------
// Images
// ---------------------------------------------------------------------------

/// An absolute image reference tried under each subsite root: under the
/// root's `docs/` directory when that exists, else under the root itself.
pub open spec fn image_abs_lookup(
    roots: Seq<Seq<char>>,
    rel: Seq<char>,
    images: Seq<Seq<char>>,
    dirs: Seq<Seq<char>>,
) -> Option<Seq<char>>
    decreases roots.len(),
{
    if roots.len() == 0 {
        Option::<Seq<char>>::None
    } else {
        let docs_dir = clean_path_spec(join_spec(roots[0], docs_seg()));
        let cand = if dirs.contains(docs_dir) {
            norm_path_spec(join_spec(docs_dir, rel))
        } else {
            norm_path_spec(join_spec(roots[0], rel))
        };
        if images.contains(cand) {
            Option::Some(cand)
        } else {
            image_abs_lookup(roots.drop_first(), rel, images, dirs)
        }
    }
}

/// A relative image reference tried under each subsite root's `docs/`.
pub open spec fn image_docs_lookup(
    roots: Seq<Seq<char>>,
    img: Seq<char>,
    images: Seq<Seq<char>>,
    dirs: Seq<Seq<char>>,
) -> Option<Seq<char>>
    decreases roots.len(),
{
    if roots.len() == 0 {
        Option::<Seq<char>>::None
    } else {
        let docs_dir = clean_path_spec(join_spec(roots[0], docs_seg()));
        if dirs.contains(docs_dir) {
            let cand = norm_path_spec(join_spec(docs_dir, img));
            if images.contains(cand) {
                Option::Some(cand)
            } else {
                image_docs_lookup(roots.drop_first(), img, images, dirs)
            }
        } else {
            image_docs_lookup(roots.drop_first(), img, images, dirs)
        }
    }
}

/// Resolve one image reference: an absolute one under each root, a
/// relative one against the referencing file's parent and then under each
/// root's `docs/`.
pub open spec fn resolve_image_spec(
    src: Seq<char>,
    img: Seq<char>,
    images: Seq<Seq<char>>,
    roots: Seq<Seq<char>>,
    dirs: Seq<Seq<char>>,
    exist_all: Seq<Seq<char>>,
) -> Option<Seq<char>> {
    if is_abs(img) {
        image_abs_lookup(roots, img.skip(1), images, dirs)
    } else {
        let own = if path_segs(src).len() == 0 {
            Option::<Seq<char>>::None
        } else {
            let cand = norm_path_spec(join_spec(parent_spec(src), img));
            if images.contains(cand) || exist_all.contains(cand) {
                Option::Some(cand)
            } else {
                Option::<Seq<char>>::None
            }
        };
        match own {
            Option::Some(c) => Option::Some(c),
            Option::None => image_docs_lookup(roots, img, images, dirs),
        }
    }
}

/// Resolve an image reference to the file it names, if that is known.
#[verifier::loop_isolation(false)]
pub fn resolve_image_ref(
    src: &str,
    img: &str,
    images: &PathSet,
    roots: &PathSet,
    dirs: &PathSet,
    exist_all: &PathSet,
) -> (r: Option<String>)
    ensures
        match r {
            Option::Some(c) => resolve_image_spec(src@, img@, images@, roots@, dirs@, exist_all@)
                == Option::Some(c@),
            Option::None => resolve_image_spec(src@, img@, images@, roots@, dirs@, exist_all@)
                is None,
        },
{
    proof {
        reveal_strlit("docs");
        assert("docs"@ =~= docs_seg());
    }
    let ghost rseq = roots@;
    if path_is_abs(img) {
        let n = img.unicode_len();
        let rel = crate::paths::substring(img, 1, n);
        proof {
            assert(img@.subrange(1, n as int) =~= img@.skip(1));
        }
        let mut i: usize = 0;
        proof {
            assert(rseq.skip(0) =~= rseq);
        }
        while i < roots.len()
            invariant
                i <= rseq.len(),
                rel@ == img@.skip(1),
                image_abs_lookup(rseq, img@.skip(1), images@, dirs@) == image_abs_lookup(
                    rseq.skip(i as int),
                    img@.skip(1),
                    images@,
                    dirs@,
                ),
            decreases rseq.len() - i,
        {
            proof {
                assert(rseq.skip(i as int)[0] == rseq[i as int]);
                assert(rseq.skip(i as int).drop_first() =~= rseq.skip(i + 1));
            }
            let dir = roots.get(i);
            let docs_dir = clean_path(join_path(dir.as_str(), "docs").as_str());
            let cand = if dirs.contains(docs_dir.as_str()) {
                normalize_path(join_path(docs_dir.as_str(), rel.as_str()).as_str())
            } else {
                normalize_path(join_path(dir.as_str(), rel.as_str()).as_str())
            };
            if images.contains(cand.as_str()) {
                return Option::Some(cand);
            }
            i = i + 1;
        }
        proof {
            assert(rseq.skip(rseq.len() as int) =~= Seq::<Seq<char>>::empty());
        }
        return Option::None;
    }
    let parts = path_parts(src);
    if parts.len() > 0 {
        let cand = normalize_path(join_path(parent_of(src).as_str(), img).as_str());
        if images.contains(cand.as_str()) || exist_all.contains(cand.as_str()) {
            return Option::Some(cand);
        }
    }
    let mut i: usize = 0;
    proof {
        assert(rseq.skip(0) =~= rseq);
    }
    while i < roots.len()
        invariant
            i <= rseq.len(),
            image_docs_lookup(rseq, img@, images@, dirs@) == image_docs_lookup(
                rseq.skip(i as int),
                img@,
                images@,
                dirs@,
            ),
        decreases rseq.len() - i,
    {
        proof {
            assert(rseq.skip(i as int)[0] == rseq[i as int]);
            assert(rseq.skip(i as int).drop_first() =~= rseq.skip(i + 1));
        }
        let dir = roots.get(i);
        let docs_dir = clean_path(join_path(dir.as_str(), "docs").as_str());
        if dirs.contains(docs_dir.as_str()) {
            let cand = normalize_path(join_path(docs_dir.as_str(), img).as_str());
            if images.contains(cand.as_str()) {
                return Option::Some(cand);
            }
        }
        i = i + 1;
    }
    proof {
        assert(rseq.skip(rseq.len() as int) =~= Seq::<Seq<char>>::empty());
    }
    Option::None
}

/// One file's image references analysed in order: resolved ones join the
/// referenced set; when `report` holds, unresolved ones become records.
pub open spec fn analyse_image_list_spec(
    src: Seq<char>,
    refs: Seq<Seq<char>>,
    state: (Seq<(Seq<char>, Seq<char>)>, Seq<Seq<char>>),
    report: bool,
    images: Seq<Seq<char>>,
    roots: Seq<Seq<char>>,
    dirs: Seq<Seq<char>>,
    exist_all: Seq<Seq<char>>,
) -> (Seq<(Seq<char>, Seq<char>)>, Seq<Seq<char>>)
    decreases refs.len(),
{
    if refs.len() == 0 {
        state
    } else {
        let next = match resolve_image_spec(src, refs[0], images, roots, dirs, exist_all) {
            Option::Some(c) => (state.0, seq_set_insert(state.1, c)),
            Option::None => if report {
                (state.0.push((src, refs[0])), state.1)
            } else {
                state
            },
        };
        analyse_image_list_spec(
            src,
            refs.drop_first(),
            next,
            report,
            images,
            roots,
            dirs,
            exist_all,
        )
    }
}

/// The image references of every scanned markdown file, analysed in order;
/// files whose content is not at hand contribute nothing.
pub open spec fn analyse_md_images_spec(
    scanned: Seq<Seq<char>>,
    contents: Seq<(Seq<char>, Seq<char>)>,
    state: (Seq<(Seq<char>, Seq<char>)>, Seq<Seq<char>>),
    images: Seq<Seq<char>>,
    roots: Seq<Seq<char>>,
    dirs: Seq<Seq<char>>,
    exist_all: Seq<Seq<char>>,
) -> (Seq<(Seq<char>, Seq<char>)>, Seq<Seq<char>>)
    decreases scanned.len(),
{
    if scanned.len() == 0 {
        state
    } else {
        let next = match assoc_lookup(contents, scanned[0]) {
            Option::Some(c) => analyse_image_list_spec(
                scanned[0],
                crate::content::local_image_refs(images_of(c)),
                state,
                true,
                images,
                roots,
                dirs,
                exist_all,
            ),
            Option::None => state,
        };
        analyse_md_images_spec(
            scanned.drop_first(),
            contents,
            next,
            images,
            roots,
            dirs,
            exist_all,
        )
    }
}

/// The `url(...)` references of every CSS file, analysed in order; CSS
/// references are never reported broken.
pub open spec fn analyse_css_images_spec(
    css: Seq<(Seq<char>, Seq<char>)>,
    state: (Seq<(Seq<char>, Seq<char>)>, Seq<Seq<char>>),
    images: Seq<Seq<char>>,
    roots: Seq<Seq<char>>,
    dirs: Seq<Seq<char>>,
    exist_all: Seq<Seq<char>>,
) -> (Seq<(Seq<char>, Seq<char>)>, Seq<Seq<char>>)
    decreases css.len(),
{
    if css.len() == 0 {
        state
    } else {
        analyse_css_images_spec(
            css.drop_first(),
            analyse_image_list_spec(
                css[0].0,
                crate::content::css_refs(css[0].1, 0),
                state,
                false,
                images,
                roots,
                dirs,
                exist_all,
            ),
            images,
            roots,
            dirs,
            exist_all,
        )
    }
}

/// Analyse one file's image reference list.
#[verifier::loop_isolation(false)]
fn analyse_image_list(
    src: &str,
    refs: &Vec<String>,
    missing: &mut Vec<BrokenImage>,
    referenced: &mut PathSet,
    report: bool,
    images: &PathSet,
    roots: &PathSet,
    dirs: &PathSet,
    exist_all: &PathSet,
)
    ensures
        (bis_view(final(missing)@), final(referenced)@) == analyse_image_list_spec(
            src@,
            refs.deep_view(),
            (bis_view(old(missing)@), old(referenced)@),
            report,
            images@,
            roots@,
            dirs@,
            exist_all@,
        ),
{
    let ghost all = refs.deep_view();
    let ghost goal = analyse_image_list_spec(
        src@,
        all,
        (bis_view(missing@), referenced@),
        report,
        images@,
        roots@,
        dirs@,
        exist_all@,
    );
    let mut k: usize = 0;
    proof {
        assert(all.skip(0) =~= all);
    }
    while k < refs.len()
        invariant
            k <= refs.len(),
            all == refs.deep_view(),
            goal == analyse_image_list_spec(
                src@,
                all.skip(k as int),
                (bis_view(missing@), referenced@),
                report,
                images@,
                roots@,
                dirs@,
                exist_all@,
            ),
        decreases refs.len() - k,
    {
        proof {
            assert(all.skip(k as int)[0] == all[k as int]);
            assert(all.skip(k as int).drop_first() =~= all.skip(k + 1));
            assert(refs.deep_view()[k as int] == refs@[k as int]@);
        }
        match resolve_image_ref(src, refs[k].as_str(), images, roots, dirs, exist_all) {
            Option::Some(c) => {
                referenced.insert(c);
            },
            Option::None => {
                if report {
                    let ghost old_bis = bis_view(missing@);
                    missing.push(BrokenImage { from: String::from_str(src), image: refs[k].clone() });
                    proof {
                        assert(bis_view(missing@) =~= old_bis.push((src@, all[k as int])));
                    }
                }
            },
        }
        k = k + 1;
    }
    proof {
        assert(all.skip(refs.len() as int) =~= Seq::<Seq<char>>::empty());
    }
}

// ---------------------------------------------------------------------------
// Footnotes and filtering
// ---------------------------------------------------------------------------

/// The scanned pages, in order, whose content holds a footnote marker.
pub open spec fn footnotes_spec(
    scanned: Seq<Seq<char>>,
    contents: Seq<(Seq<char>, Seq<char>)>,
) -> Seq<Seq<char>>
    decreases scanned.len(),
{
    if scanned.len() == 0 {
        Seq::<Seq<char>>::empty()
    } else {
        let rest = footnotes_spec(scanned.drop_first(), contents);
        match assoc_lookup(contents, scanned[0]) {
            Option::Some(c) => if has_footnote(c) {
                seq![scanned[0]] + rest
            } else {
                rest
            },
            Option::None => rest,
        }
    }
}

/// The members of `xs`, in order, that `s` does not hold.
pub open spec fn retain_not_in(xs: Seq<Seq<char>>, s: Seq<Seq<char>>) -> Seq<Seq<char>>
    decreases xs.len(),
{
    if xs.len() == 0 {
        Seq::<Seq<char>>::empty()
    } else {
        let rest = retain_not_in(xs.drop_first(), s);
        if !s.contains(xs[0]) {
            seq![xs[0]] + rest
        } else {
            rest
        }
    }
}

/// Drop from `xs` everything the set holds.
#[verifier::loop_isolation(false)]
pub fn filter_not_in(xs: &Vec<String>, s: &PathSet) -> (r: Vec<String>)
    ensures
        r.deep_view() == retain_not_in(xs.deep_view(), s@),
{
    let ghost all = xs.deep_view();
    let mut out: Vec<String> = Vec::new();
    let mut i: usize = 0;
    proof {
        assert(all.skip(0) =~= all);
        assert(out.deep_view() =~= Seq::<Seq<char>>::empty());
        assert(Seq::<Seq<char>>::empty() + retain_not_in(all, s@) =~= retain_not_in(all, s@));
    }
    while i < xs.len()
        invariant
            i <= xs.len(),
            all == xs.deep_view(),
            retain_not_in(all, s@) == out.deep_view() + retain_not_in(all.skip(i as int), s@),
        decreases xs.len() - i,
    {
        proof {
            assert(all.skip(i as int)[0] == all[i as int]);
            assert(all.skip(i as int).drop_first() =~= all.skip(i + 1));
            assert(xs.deep_view()[i as int] == xs@[i as int]@);
        }
        if !s.contains(xs[i].as_str()) {
            let x = xs[i].clone();
            let ghost gx = x@;
            let ghost old_out = out.deep_view();
            out.push(x);
            proof {
                assert(out.deep_view() =~= old_out.push(gx));
                assert(old_out.push(gx) + retain_not_in(all.skip(i + 1), s@) =~= old_out + (
                seq![gx] + retain_not_in(all.skip(i + 1), s@)));
            }
        }
        i = i + 1;
    }
    proof {
        assert(all.skip(xs.len() as int) =~= Seq::<Seq<char>>::empty());
        assert(out.deep_view() + Seq::<Seq<char>>::empty() =~= out.deep_view());
    }
    out
}

/// The members of `xs`, in order, that `s` holds.
pub open spec fn retain_in(xs: Seq<Seq<char>>, s: Seq<Seq<char>>) -> Seq<Seq<char>>
    decreases xs.len(),
{
    if xs.len() == 0 {
        Seq::<Seq<char>>::empty()
    } else {
        let rest = retain_in(xs.drop_first(), s);
        if s.contains(xs[0]) {
            seq![xs[0]] + rest
        } else {
            rest
        }
    }
}

/// Keep from `xs` exactly what the set holds.
#[verifier::loop_isolation(false)]
pub fn filter_in(xs: &Vec<String>, s: &PathSet) -> (r: Vec<String>)
    ensures
        r.deep_view() == retain_in(xs.deep_view(), s@),
{
    let ghost all = xs.deep_view();
    let mut out: Vec<String> = Vec::new();
    let mut i: usize = 0;
    proof {
        assert(all.skip(0) =~= all);
        assert(out.deep_view() =~= Seq::<Seq<char>>::empty());
        assert(Seq::<Seq<char>>::empty() + retain_in(all, s@) =~= retain_in(all, s@));
    }
    while i < xs.len()
        invariant
            i <= xs.len(),
            all == xs.deep_view(),
            retain_in(all, s@) == out.deep_view() + retain_in(all.skip(i as int), s@),
        decreases xs.len() - i,
    {
        proof {
            assert(all.skip(i as int)[0] == all[i as int]);
            assert(all.skip(i as int).drop_first() =~= all.skip(i + 1));
            assert(xs.deep_view()[i as int] == xs@[i as int]@);
        }
        if s.contains(xs[i].as_str()) {
            let x = xs[i].clone();
            let ghost gx = x@;
            let ghost old_out = out.deep_view();
            out.push(x);
            proof {
                assert(out.deep_view() =~= old_out.push(gx));
                assert(old_out.push(gx) + retain_in(all.skip(i + 1), s@) =~= old_out + (seq![gx]
                    + retain_in(all.skip(i + 1), s@)));
            }
        }
        i = i + 1;
    }
    proof {
        assert(all.skip(xs.len() as int) =~= Seq::<Seq<char>>::empty());
        assert(out.deep_view() + Seq::<Seq<char>>::empty() =~= out.deep_view());
    }
    out
}

// ---------------------------------------------------------------------------
// Reporting helpers
// ---------------------------------------------------------------------------

/// A path shown relative to the monorepo root, or as it is when it does
/// not lie under the root.
pub open spec fn relative_path_spec(p: Seq<char>, root: Option<Seq<char>>) -> Seq<char> {
    match root {
        Option::Some(r) => match crate::links::strip_prefix_spec(p, r) {
            Option::Some(rel) => rel,
            Option::None => p,
        },
        Option::None => p,
    }
}

/// Show a path relative to the monorepo root where possible.
pub fn relative_path(p: &str, root: Option<&str>) -> (r: String)
    ensures
        match root {
            Option::Some(rt) => r@ == relative_path_spec(p@, Option::Some(rt@)),
            Option::None => r@ == relative_path_spec(p@, Option::<Seq<char>>::None),
        },
{
    match root {
        Option::Some(rt) => {
            match crate::links::strip_prefix_of(p, rt) {
                Option::Some(rel) => rel,
                Option::None => String::from_str(p),
            }
        },
        Option::None => String::from_str(p),
    }
}

/// Is the path's first component under the root one of the excluded
/// subsite names?
pub open spec fn is_excluded_spec(
    p: Seq<char>,
    root: Option<Seq<char>>,
    excluded: Seq<Seq<char>>,
) -> bool {
    match root {
        Option::Some(r) => match crate::links::strip_prefix_spec(p, r) {
            Option::Some(rel) => path_segs(rel).len() > 0 && excluded.contains(path_segs(rel)[0]),
            Option::None => false,
        },
        Option::None => false,
    }
}

/// Test whether a finding lies in an excluded subsite.
#[verifier::loop_isolation(false)]
pub fn is_excluded(p: &str, root: Option<&str>, excluded: &Vec<String>) -> (r: bool)
    ensures
        match root {
            Option::Some(rt) => r == is_excluded_spec(p@, Option::Some(rt@), excluded.deep_view()),
            Option::None => r == is_excluded_spec(p@, Option::<Seq<char>>::None, excluded.deep_view()),
        },
{
    let rt = match root {
        Option::Some(rt) => rt,
        Option::None => {
            return false;
        },
    };
    let rel = match crate::links::strip_prefix_of(p, rt) {
        Option::Some(rel) => rel,
        Option::None => {
            return false;
        },
    };
    let parts = path_parts(rel.as_str());
    if parts.len() == 0 {
        return false;
    }
    let first = &parts[0];
    proof {
        assert(parts.deep_view()[0] == parts@[0]@);
    }
    let mut i: usize = 0;
    while i < excluded.len()
        invariant
            i <= excluded.len(),
            parts.deep_view() == path_segs(rel@),
            parts.deep_view().len() > 0,
            first@ == path_segs(rel@)[0],
            forall|j: int| 0 <= j < i ==> excluded.deep_view()[j] != first@,
        decreases excluded.len() - i,
    {
        proof {
            assert(excluded.deep_view()[i as int] == excluded@[i as int]@);
        }
        if str_eq(excluded[i].as_str(), first.as_str()) {
            proof {
                assert(excluded.deep_view()[i as int] == first@);
                assert(excluded.deep_view().contains(first@));
            }
            return true;
        }
        i = i + 1;
    }
    proof {
        assert(!excluded.deep_view().contains(path_segs(rel@)[0]));
    }
    false
}

// ---------------------------------------------------------------------------
// The whole audit
// ---------------------------------------------------------------------------

/// The filesystem paths the nav's leaf entries should occupy.
pub open spec fn audit_pages_spec(nav: Seq<NavItem>, parent: Seq<char>) -> Seq<Seq<char>> {
    crate::nav::pages_of_items(nav, parent, Seq::<Seq<char>>::empty())
}

/// Everything known to exist: the caller's existence set plus the walked
/// markdown files.
pub open spec fn audit_exist_spec(
    existing: Seq<Seq<char>>,
    files: Seq<Seq<char>>,
) -> Seq<Seq<char>> {
    set_insert_all(existing, files)
}

/// The subsite roots of the nav.
pub open spec fn audit_roots_spec(nav: Seq<NavItem>) -> Seq<Seq<char>> {
    crate::nav::roots_of_items(nav, Seq::<Seq<char>>::empty())
}

/// The link maps of the nav.
pub open spec fn audit_maps_spec(nav: Seq<NavItem>, parent: Seq<char>) -> (
    Seq<(Seq<char>, Seq<char>)>,
    Seq<(Seq<char>, Seq<char>)>,
) {
    crate::links::maps_of_items(
        nav,
        parent,
        parent,
        Seq::<char>::empty(),
        (Seq::<(Seq<char>, Seq<char>)>::empty(), Seq::<(Seq<char>, Seq<char>)>::empty()),
    )
}

/// The help-index paths.
pub open spec fn audit_help_spec(helpc: Seq<char>, parent: Seq<char>) -> Seq<Seq<char>> {
    crate::help::extract_help_urls_spec(helpc, parent)
}

/// The help-index paths as a set.
pub open spec fn audit_helpset_spec(helpc: Seq<char>, parent: Seq<char>) -> Seq<Seq<char>> {
    set_insert_all(Seq::<Seq<char>>::empty(), audit_help_spec(helpc, parent))
}

/// The scan seeds: nav pages, then help pages, those that exist.
pub open spec fn audit_seeds_spec(
    nav: Seq<NavItem>,
    parent: Seq<char>,
    helpc: Seq<char>,
    existing: Seq<Seq<char>>,
    files: Seq<Seq<char>>,
) -> Seq<Seq<char>> {
    retain_in(
        audit_pages_spec(nav, parent) + audit_help_spec(helpc, parent),
        audit_exist_spec(existing, files),
    )
}

/// The transitive scan's result: referenced set, broken links, scanned
/// set.
pub open spec fn audit_scan_spec(
    nav: Seq<NavItem>,
    parent: Seq<char>,
    files: Seq<Seq<char>>,
    existing: Seq<Seq<char>>,
    dirs: Seq<Seq<char>>,
    contents: Seq<(Seq<char>, Seq<char>)>,
    helpc: Seq<char>,
) -> (Seq<Seq<char>>, Seq<(Seq<char>, Seq<char>, bool)>, Seq<Seq<char>>) {
    scan_spec(
        (contents.len() + 1) as nat,
        audit_seeds_spec(nav, parent, helpc, existing, files),
        Seq::<Seq<char>>::empty(),
        audit_helpset_spec(helpc, parent),
        Seq::<(Seq<char>, Seq<char>, bool)>::empty(),
        contents,
        audit_maps_spec(nav, parent).0,
        audit_maps_spec(nav, parent).1,
        parent,
        audit_roots_spec(nav),
        audit_exist_spec(existing, files),
        dirs,
        audit_helpset_spec(helpc, parent),
    )
}

/// The image analysis over the scanned pages and the CSS files.
pub open spec fn audit_images_spec(
    nav: Seq<NavItem>,
    parent: Seq<char>,
    files: Seq<Seq<char>>,
    existing: Seq<Seq<char>>,
    dirs: Seq<Seq<char>>,
    contents: Seq<(Seq<char>, Seq<char>)>,
    helpc: Seq<char>,
    images: Seq<Seq<char>>,
    css: Seq<(Seq<char>, Seq<char>)>,
) -> (Seq<(Seq<char>, Seq<char>)>, Seq<Seq<char>>) {
    analyse_css_images_spec(
        css,
        analyse_md_images_spec(
            audit_scan_spec(nav, parent, files, existing, dirs, contents, helpc).2,
            contents,
            (Seq::<(Seq<char>, Seq<char>)>::empty(), Seq::<Seq<char>>::empty()),
            images,
            audit_roots_spec(nav),
            dirs,
            audit_exist_spec(existing, files),
        ),
        images,
        audit_roots_spec(nav),
        dirs,
        audit_exist_spec(existing, files),
    )
}

/// Audit a documentation tree. `nav` is the loaded navigation with every
/// splice resolved; `parent` the directory of the root config; `files`
/// the markdown walked under the subsite roots; `existing` every path the
/// caller knows to be a file; `dirs` every directory known to exist;
/// `contents` the text of each readable markdown file; `help_content` the
/// help index header; `images` the image files walked; `css` the CSS
/// files with their text.
#[verifier::loop_isolation(false)]
pub fn audit(
    nav: &Vec<NavItem>,
    parent: &str,
    files: &Vec<String>,
    existing: &PathSet,
    dirs: &PathSet,
    contents: &PathMap,
    help_content: &str,
    images: &PathSet,
    css: &Vec<(String, String)>,
) -> (r: AuditResult)
    ensures
        r.nav_missing.deep_view() == missing_spec(
            audit_pages_spec(nav@, parent@),
            audit_exist_spec(existing@, files.deep_view()),
        ),
        r.ghost_files.deep_view() == retain_not_in(
            orphans_spec(audit_pages_spec(nav@, parent@), files.deep_view()),
            audit_scan_spec(
                nav@,
                parent@,
                files.deep_view(),
                existing@,
                dirs@,
                contents@,
                help_content@,
            ).0,
        ),
        r.help_missing.deep_view() == missing_spec(
            audit_help_spec(help_content@, parent@),
            audit_exist_spec(existing@, files.deep_view()),
        ),
        bls_view(r.broken_links@) == audit_scan_spec(
            nav@,
            parent@,
            files.deep_view(),
            existing@,
            dirs@,
            contents@,
            help_content@,
        ).1,
        bis_view(r.missing_images@) == audit_images_spec(
            nav@,
            parent@,
            files.deep_view(),
            existing@,
            dirs@,
            contents@,
            help_content@,
            images@,
            css.deep_view(),
        ).0,
        r.orphan_images.deep_view() == retain_not_in(
            images@,
            audit_images_spec(
                nav@,
                parent@,
                files.deep_view(),
                existing@,
                dirs@,
                contents@,
                help_content@,
                images@,
                css.deep_view(),
            ).1,
        ),
        r.pages_with_footnotes.deep_view() == footnotes_spec(
            audit_scan_spec(
                nav@,
                parent@,
                files.deep_view(),
                existing@,
                dirs@,
                contents@,
                help_content@,
            ).2,
            contents@,
        ),
{
    // expected pages and what exists
    let mut pages = PathSet::new();
    crate::nav::collect_pages(nav, &mut pages, parent);
    let mut exist_all = PathSet::from_vec(existing.to_vec());
    let mut k: usize = 0;
    let ghost fseq = files.deep_view();
    proof {
        assert(fseq.skip(0) =~= fseq);
    }
    while k < files.len()
        invariant
            k <= files.len(),
            fseq == files.deep_view(),
            set_insert_all(existing@, fseq) == set_insert_all(exist_all@, fseq.skip(k as int)),
        decreases files.len() - k,
    {
        proof {
            assert(fseq.skip(k as int)[0] == fseq[k as int]);
            assert(fseq.skip(k as int).drop_first() =~= fseq.skip(k + 1));
            assert(files.deep_view()[k as int] == files@[k as int]@);
        }
        exist_all.insert(files[k].clone());
        k = k + 1;
    }
    proof {
        assert(fseq.skip(files.len() as int) =~= Seq::<Seq<char>>::empty());
    }
    let nav_missing = missing_files(&pages, &exist_all);
    // the on-disk walk's orphan candidates
    let ghost0 = orphans(&pages, files);
    // resolution structures
    let mut roots = PathSet::new();
    crate::nav::subsite_roots(nav, &mut roots);
    let maps = crate::links::build_link_maps(nav, parent);
    // the help index
    let help_vec = crate::help::extract_help_urls(help_content, parent);
    let help_missing = missing_files(&PathSet::from_vec(crate::sets::clone_paths(&help_vec)), &exist_all);
    let mut help_set = PathSet::new();
    let mut h: usize = 0;
    let ghost hseq = help_vec.deep_view();
    proof {
        assert(hseq.skip(0) =~= hseq);
    }
    while h < help_vec.len()
        invariant
            h <= help_vec.len(),
            hseq == help_vec.deep_view(),
            set_insert_all(Seq::<Seq<char>>::empty(), hseq) == set_insert_all(
                help_set@,
                hseq.skip(h as int),
            ),
        decreases help_vec.len() - h,
    {
        proof {
            assert(hseq.skip(h as int)[0] == hseq[h as int]);
            assert(hseq.skip(h as int).drop_first() =~= hseq.skip(h + 1));
            assert(help_vec.deep_view()[h as int] == help_vec@[h as int]@);
        }
        help_set.insert(help_vec[h].clone());
        h = h + 1;
    }
    proof {
        assert(hseq.skip(help_vec.len() as int) =~= Seq::<Seq<char>>::empty());
    }
    // the transitive scan
    let mut combined = pages.to_vec();
    let mut hv = crate::sets::clone_paths(&help_vec);
    let ghost c0 = combined.deep_view();
    let ghost c1 = hv.deep_view();
    combined.append(&mut hv);
    proof {
        assert(combined.deep_view() =~= c0 + c1);
    }
    let seeds = filter_in(&combined, &exist_all);
    let referenced0 = PathSet::from_vec(help_set.to_vec());
    let scan = scan_links(
        seeds,
        referenced0,
        contents,
        &maps,
        parent,
        &roots,
        &exist_all,
        dirs,
        &help_set,
    );
    let ghost_files = filter_not_in(&ghost0, &scan.0);
    // images
    let mut missing_images: Vec<BrokenImage> = Vec::new();
    let mut referenced_images = PathSet::new();
    let ghost sseq = scan.2@;
    let mut m: usize = 0;
    proof {
        assert(sseq.skip(0) =~= sseq);
        assert(bis_view(missing_images@) =~= Seq::<(Seq<char>, Seq<char>)>::empty());
    }
    while m < scan.2.len()
        invariant
            m <= sseq.len(),
            sseq == scan.2@,
            analyse_md_images_spec(
                sseq,
                contents@,
                (Seq::<(Seq<char>, Seq<char>)>::empty(), Seq::<Seq<char>>::empty()),
                images@,
                roots@,
                dirs@,
                exist_all@,
            ) == analyse_md_images_spec(
                sseq.skip(m as int),
                contents@,
                (bis_view(missing_images@), referenced_images@),
                images@,
                roots@,
                dirs@,
                exist_all@,
            ),
        decreases sseq.len() - m,
    {
        proof {
            assert(sseq.skip(m as int)[0] == sseq[m as int]);
            assert(sseq.skip(m as int).drop_first() =~= sseq.skip(m + 1));
        }
        let p = scan.2.get(m).clone();
        match contents.get(p.as_str()) {
            Option::Some(c) => {
                let refs = crate::content::normalise_image_refs(
                    extract_image_refs(c.as_str()),
                );
                analyse_image_list(
                    p.as_str(),
                    &refs,
                    &mut missing_images,
                    &mut referenced_images,
                    true,
                    images,
                    &roots,
                    dirs,
                    &exist_all,
                );
            },
            Option::None => {
            },
        }
        m = m + 1;
    }
    proof {
        assert(sseq.skip(sseq.len() as int) =~= Seq::<Seq<char>>::empty());
    }
    let ghost cssseq = css.deep_view();
    let mut q: usize = 0;
    proof {
        assert(cssseq.skip(0) =~= cssseq);
    }
    while q < css.len()
        invariant
            q <= css.len(),
            cssseq == css.deep_view(),
            analyse_css_images_spec(
                cssseq,
                analyse_md_images_spec(
                    sseq,
                    contents@,
                    (Seq::<(Seq<char>, Seq<char>)>::empty(), Seq::<Seq<char>>::empty()),
                    images@,
                    roots@,
                    dirs@,
                    exist_all@,
                ),
                images@,
                roots@,
                dirs@,
                exist_all@,
            ) == analyse_css_images_spec(
                cssseq.skip(q as int),
                (bis_view(missing_images@), referenced_images@),
                images@,
                roots@,
                dirs@,
                exist_all@,
            ),
        decreases css.len() - q,
    {
        proof {
            assert(cssseq.skip(q as int)[0] == cssseq[q as int]);
            assert(cssseq.skip(q as int).drop_first() =~= cssseq.skip(q + 1));
            assert(css.deep_view()[q as int] == (css@[q as int].0@, css@[q as int].1@));
        }
        let refs = crate::content::extract_css_image_refs(css[q].1.as_str());
        analyse_image_list(
            css[q].0.as_str(),
            &refs,
            &mut missing_images,
            &mut referenced_images,
            false,
            images,
            &roots,
            dirs,
            &exist_all,
        );
        q = q + 1;
    }
    proof {
        assert(cssseq.skip(css.len() as int) =~= Seq::<(Seq<char>, Seq<char>)>::empty());
    }
    let orphan_images = filter_not_in(&images.to_vec(), &referenced_images);
    // footnotes
    let mut pages_with_footnotes: Vec<String> = Vec::new();
    let mut f: usize = 0;
    proof {
        assert(pages_with_footnotes.deep_view() =~= Seq::<Seq<char>>::empty());
        assert(Seq::<Seq<char>>::empty() + footnotes_spec(sseq, contents@) =~= footnotes_spec(
            sseq,
            contents@,
        ));
    }
    while f < scan.2.len()
        invariant
            f <= sseq.len(),
            sseq == scan.2@,
            footnotes_spec(sseq, contents@) == pages_with_footnotes.deep_view() + footnotes_spec(
                sseq.skip(f as int),
                contents@,
            ),
        decreases sseq.len() - f,
    {
        proof {
            assert(sseq.skip(f as int)[0] == sseq[f as int]);
            assert(sseq.skip(f as int).drop_first() =~= sseq.skip(f + 1));
        }
        let p = scan.2.get(f);
        match contents.get(p.as_str()) {
            Option::Some(c) => {
                if has_footnotes(c.as_str()) {
                    let x = p.clone();
                    let ghost gx = x@;
                    let ghost old_out = pages_with_footnotes.deep_view();
                    pages_with_footnotes.push(x);
                    proof {
                        assert(pages_with_footnotes.deep_view() =~= old_out.push(gx));
                        assert(old_out.push(gx) + footnotes_spec(sseq.skip(f + 1), contents@)
                            =~= old_out + (seq![gx] + footnotes_spec(sseq.skip(f + 1), contents@)));
                    }
                }
            },
            Option::None => {
            },
        }
        f = f + 1;
    }
    proof {
        assert(sseq.skip(sseq.len() as int) =~= Seq::<Seq<char>>::empty());
        assert(pages_with_footnotes.deep_view() + Seq::<Seq<char>>::empty()
            =~= pages_with_footnotes.deep_view());
    }
    AuditResult {
        nav_missing,
        ghost_files,
        help_missing,
        broken_links: scan.1,
        missing_images,
        orphan_images,
        pages_with_footnotes,
    }
}

} // verus!
