use ghost_lib::engine::{audit, resolve_image_ref, BrokenLink};
use ghost_lib::links::LinkMaps;
use ghost_lib::nav::NavItem;
use ghost_lib::resolve::resolve_target;
use ghost_lib::sets::{PathMap, PathSet};

fn path_set(paths: &[&str]) -> PathSet {
    let mut s = PathSet::new();
    for p in paths {
        s.insert(p.to_string());
    }
    s
}

fn path_map(entries: &[(&str, &str)]) -> PathMap {
    let mut m = PathMap::new();
    for (k, v) in entries {
        m.insert(k.to_string(), v.to_string());
    }
    m
}

#[test]
fn test_linked_page_not_ghost_and_no_broken_links() {
    // nav {A: a.md}; docs/a.md links orphan.md; docs/orphan.md exists
    let nav = vec![NavItem::Page {
        title: "A".to_string(),
        target: "a.md".to_string(),
    }];
    let files: Vec<String> = vec![];
    let existing = path_set(&["/site/docs/a.md", "/site/docs/orphan.md"]);
    let dirs = path_set(&["/site/docs"]);
    let contents = path_map(&[
        ("/site/docs/a.md", "[x](orphan.md)"),
        ("/site/docs/orphan.md", "# Orphan"),
    ]);
    let images = PathSet::new();
    let css: Vec<(String, String)> = vec![];

    let result = audit(&nav, "/site", &files, &existing, &dirs, &contents, "", &images, &css);

    assert!(result.ghost_files.is_empty(), "{:?}", result.ghost_files);
    assert!(result.broken_links.is_empty(), "{:?}", result.broken_links);
}

#[test]
fn test_broken_link_reported_with_md_appended() {
    // nav {A: a.md}; docs/a.md links a target that exists nowhere
    let nav = vec![NavItem::Page {
        title: "A".to_string(),
        target: "a.md".to_string(),
    }];
    let files: Vec<String> = vec![];
    let existing = path_set(&["/site/docs/a.md"]);
    let dirs = path_set(&["/site/docs"]);
    let contents = path_map(&[("/site/docs/a.md", "[Missing](missing)")]);
    let images = PathSet::new();
    let css: Vec<(String, String)> = vec![];

    let result = audit(&nav, "/site", &files, &existing, &dirs, &contents, "", &images, &css);

    assert_eq!(
        result.broken_links,
        vec![BrokenLink {
            from: "/site/docs/a.md".to_string(),
            link: "missing.md".to_string(),
            from_help_url: false,
        }]
    );
}

#[test]
fn test_index_fallback_resolves_directory_page() {
    // primitive-functions/ravel.md is absent, but ravel/index.md exists and
    // the link still resolves through the index fallback
    let nav = vec![NavItem::Page {
        title: "Structuring".to_string(),
        target: "primitive-functions/structuring.md".to_string(),
    }];
    let files: Vec<String> = vec![];
    let existing = path_set(&[
        "/site/docs/primitive-functions/structuring.md",
        "/site/docs/primitive-functions/ravel/index.md",
    ]);
    let dirs = path_set(&["/site/docs"]);
    let contents = path_map(&[
        (
            "/site/docs/primitive-functions/structuring.md",
            "see [Ravel](ravel.md)",
        ),
        ("/site/docs/primitive-functions/ravel/index.md", "# Ravel"),
    ]);
    let images = PathSet::new();
    let css: Vec<(String, String)> = vec![];

    let result = audit(&nav, "/site", &files, &existing, &dirs, &contents, "", &images, &css);

    assert!(result.broken_links.is_empty(), "{:?}", result.broken_links);
}

#[test]
fn test_cross_subsite_link_resolves() {
    // from release-notes/docs/new-enhanced.md, a ../../ link crosses into
    // the programming-reference-guide subsite, whose docs/ gets inserted
    let maps = LinkMaps {
        url_to_src: PathMap::new(),
        src_to_url: PathMap::new(),
    };
    let roots = PathSet::new();
    let existing = path_set(&[
        "/r/programming-reference-guide/docs/introduction/arrays/array-notation.md",
    ]);
    let dirs = path_set(&["/r/programming-reference-guide/docs", "/r/release-notes/docs"]);

    let target = resolve_target(
        "/r/release-notes/docs/new-enhanced.md",
        "../../programming-reference-guide/introduction/arrays/array-notation.md",
        &maps,
        "/r",
        &roots,
        &existing,
        &dirs,
    );

    assert_eq!(
        target.as_deref(),
        Some("/r/programming-reference-guide/docs/introduction/arrays/array-notation.md")
    );
}

#[test]
fn test_sibling_link_prefers_page_as_directory_reading() {
    // from windows-guide/docs/config-params/aplan-for-output.md the link
    // ../aplan-for-editor.md means the sibling of the rendered directory,
    // not the plain filesystem parent
    let maps = LinkMaps {
        url_to_src: PathMap::new(),
        src_to_url: PathMap::new(),
    };
    let roots = PathSet::new();
    let existing = path_set(&[
        "/r/windows-guide/docs/config-params/aplan-for-editor.md",
    ]);
    let dirs = path_set(&["/r/windows-guide/docs"]);

    let target = resolve_target(
        "/r/windows-guide/docs/config-params/aplan-for-output.md",
        "../aplan-for-editor.md",
        &maps,
        "/r",
        &roots,
        &existing,
        &dirs,
    );

    assert_eq!(
        target.as_deref(),
        Some("/r/windows-guide/docs/config-params/aplan-for-editor.md")
    );
}

#[test]
fn test_ghost_files_subsite_walk() {
    // a subsite's walked markdown minus nav pages minus linked pages,
    // with print variants never reported
    let nav = vec![NavItem::Subsite {
        dir: "/m/guide".to_string(),
        children: vec![NavItem::Page {
            title: "A".to_string(),
            target: "a.md".to_string(),
        }],
    }];
    let files = vec![
        "/m/guide/docs/a.md".to_string(),
        "/m/guide/docs/linked.md".to_string(),
        "/m/guide/docs/ghosty.md".to_string(),
        "/m/guide/docs/ghosty-print.md".to_string(),
    ];
    let existing = path_set(&[]);
    let dirs = path_set(&["/m/guide/docs"]);
    let contents = path_map(&[
        ("/m/guide/docs/a.md", "[L](linked.md)"),
        ("/m/guide/docs/linked.md", ""),
        ("/m/guide/docs/ghosty.md", ""),
        ("/m/guide/docs/ghosty-print.md", ""),
    ]);
    let images = PathSet::new();
    let css: Vec<(String, String)> = vec![];

    let result = audit(&nav, "/m", &files, &existing, &dirs, &contents, "", &images, &css);

    assert_eq!(result.ghost_files, vec!["/m/guide/docs/ghosty.md".to_string()]);
    assert!(result.broken_links.is_empty(), "{:?}", result.broken_links);
}

#[test]
fn test_transitive_scan_follows_links_over_several_hops() {
    // a.md -> b.md -> c.md: pages two hops from the nav are still reached,
    // while an untouched page stays a ghost
    let nav = vec![NavItem::Subsite {
        dir: "/m/guide".to_string(),
        children: vec![NavItem::Page {
            title: "A".to_string(),
            target: "a.md".to_string(),
        }],
    }];
    let files = vec![
        "/m/guide/docs/a.md".to_string(),
        "/m/guide/docs/b.md".to_string(),
        "/m/guide/docs/c.md".to_string(),
        "/m/guide/docs/d.md".to_string(),
    ];
    let existing = path_set(&[]);
    let dirs = path_set(&["/m/guide/docs"]);
    let contents = path_map(&[
        ("/m/guide/docs/a.md", "[B](b.md)"),
        ("/m/guide/docs/b.md", "[C](c.md)"),
        ("/m/guide/docs/c.md", "# C"),
        ("/m/guide/docs/d.md", "# D"),
    ]);
    let images = PathSet::new();
    let css: Vec<(String, String)> = vec![];

    let result = audit(&nav, "/m", &files, &existing, &dirs, &contents, "", &images, &css);

    assert_eq!(result.ghost_files, vec!["/m/guide/docs/d.md".to_string()]);
    assert!(result.broken_links.is_empty(), "{:?}", result.broken_links);
}

#[test]
fn test_help_index_drives_missing_and_seeds() {
    let nav: Vec<NavItem> = vec![];
    let files: Vec<String> = vec![];
    let help = "HELP_URL(\"k\", \"guide/page\")\nHELP_URL(\"m\", \"guide/absent\")\n";
    let existing = path_set(&["/m/guide/docs/page.md"]);
    let dirs = path_set(&["/m/guide/docs"]);
    let contents = path_map(&[("/m/guide/docs/page.md", "[x](nowhere)")]);
    let images = PathSet::new();
    let css: Vec<(String, String)> = vec![];

    let result = audit(&nav, "/m", &files, &existing, &dirs, &contents, help, &images, &css);

    // the absent help page is reported, the existing one is scanned and
    // its broken link carries the help mark
    assert_eq!(result.help_missing, vec!["/m/guide/docs/absent.md".to_string()]);
    assert_eq!(result.broken_links.len(), 1);
    assert!(result.broken_links[0].from_help_url);
    assert_eq!(result.broken_links[0].link, "nowhere.md");
}

#[test]
fn test_missing_and_orphan_images() {
    let nav = vec![NavItem::Subsite {
        dir: "/m/guide".to_string(),
        children: vec![NavItem::Page {
            title: "A".to_string(),
            target: "a.md".to_string(),
        }],
    }];
    let files = vec!["/m/guide/docs/a.md".to_string()];
    let existing = path_set(&[]);
    let dirs = path_set(&["/m/guide/docs"]);
    let contents = path_map(&[(
        "/m/guide/docs/a.md",
        "![one](img/one.png) and ![two](img/two.png)",
    )]);
    let images = path_set(&[
        "/m/guide/docs/img/one.png",
        "/m/guide/docs/img/unused.png",
    ]);
    let css: Vec<(String, String)> = vec![];

    let result = audit(&nav, "/m", &files, &existing, &dirs, &contents, "", &images, &css);

    assert_eq!(result.missing_images.len(), 1);
    assert_eq!(result.missing_images[0].image, "img/two.png");
    assert_eq!(result.orphan_images, vec!["/m/guide/docs/img/unused.png".to_string()]);
}

#[test]
fn test_css_references_keep_images_alive_but_never_break() {
    let nav: Vec<NavItem> = vec![];
    let files: Vec<String> = vec![];
    let existing = path_set(&[]);
    let dirs = path_set(&[]);
    let contents = path_map(&[]);
    let images = path_set(&["/m/assets/bg.png"]);
    let css = vec![(
        "/m/assets/site.css".to_string(),
        ".x { background: url('bg.png'); } .y { background: url(gone.png); }".to_string(),
    )];

    let result = audit(&nav, "/m", &files, &existing, &dirs, &contents, "", &images, &css);

    // bg.png is referenced, gone.png is not reported: CSS references are
    // never broken images
    assert!(result.missing_images.is_empty(), "{:?}", result.missing_images);
    assert!(result.orphan_images.is_empty(), "{:?}", result.orphan_images);
}

#[test]
fn test_pages_with_footnotes_collected_from_scanned() {
    let nav = vec![NavItem::Page {
        title: "A".to_string(),
        target: "a.md".to_string(),
    }];
    let files: Vec<String> = vec![];
    let existing = path_set(&["/m/docs/a.md"]);
    let dirs = path_set(&[]);
    let contents = path_map(&[("/m/docs/a.md", "text [^1]\n\n[^1]: note")]);
    let images = PathSet::new();
    let css: Vec<(String, String)> = vec![];

    let result = audit(&nav, "/m", &files, &existing, &dirs, &contents, "", &images, &css);

    assert_eq!(result.pages_with_footnotes, vec!["/m/docs/a.md".to_string()]);
}

#[test]
fn test_deep_relative_link_within_one_subsite() {
    // a ../../ link that stays inside one subsite must not be read as
    // crossing into another
    let nav = vec![NavItem::Subsite {
        dir: "/r/language-reference-guide".to_string(),
        children: vec![
            NavItem::Section {
                title: "System Functions".to_string(),
                children: vec![NavItem::Page {
                    title: "Shell".to_string(),
                    target: "system-functions/shell.md".to_string(),
                }],
            },
            NavItem::Section {
                title: "Primitive Operators".to_string(),
                children: vec![NavItem::Section {
                    title: "I-Beam".to_string(),
                    children: vec![NavItem::Page {
                        title: "Shell Process Control".to_string(),
                        target: "primitive-operators/i-beam/shell-process-control.md".to_string(),
                    }],
                }],
            },
        ],
    }];
    let files = vec![
        "/r/language-reference-guide/docs/system-functions/shell.md".to_string(),
        "/r/language-reference-guide/docs/primitive-operators/i-beam/shell-process-control.md"
            .to_string(),
    ];
    let existing = path_set(&[]);
    let dirs = path_set(&["/r/language-reference-guide/docs"]);
    let contents = path_map(&[
        (
            "/r/language-reference-guide/docs/system-functions/shell.md",
            "see [SPC](../../primitive-operators/i-beam/shell-process-control.md)",
        ),
        (
            "/r/language-reference-guide/docs/primitive-operators/i-beam/shell-process-control.md",
            "# Shell Process Control",
        ),
    ]);
    let images = PathSet::new();
    let css: Vec<(String, String)> = vec![];

    let result = audit(&nav, "/r", &files, &existing, &dirs, &contents, "", &images, &css);

    assert!(result.broken_links.is_empty(), "{:?}", result.broken_links);
    assert!(result.ghost_files.is_empty(), "{:?}", result.ghost_files);
}

#[test]
fn test_absolute_link_resolves_from_site_root() {
    let nav = vec![NavItem::Subsite {
        dir: "/r/guide".to_string(),
        children: vec![
            NavItem::Page {
                title: "Home".to_string(),
                target: "index.md".to_string(),
            },
            NavItem::Section {
                title: "Nested".to_string(),
                children: vec![NavItem::Section {
                    title: "Deep".to_string(),
                    children: vec![NavItem::Page {
                        title: "Page".to_string(),
                        target: "nested/deep/page.md".to_string(),
                    }],
                }],
            },
        ],
    }];
    let files = vec![
        "/r/guide/docs/index.md".to_string(),
        "/r/guide/docs/nested/deep/page.md".to_string(),
    ];
    let existing = path_set(&[]);
    let dirs = path_set(&["/r/guide/docs"]);
    let contents = path_map(&[
        ("/r/guide/docs/nested/deep/page.md", "see [Home](/guide/index.md)"),
        ("/r/guide/docs/index.md", "# Home"),
    ]);
    let images = PathSet::new();
    let css: Vec<(String, String)> = vec![];

    let result = audit(&nav, "/r", &files, &existing, &dirs, &contents, "", &images, &css);

    assert!(result.broken_links.is_empty(), "{:?}", result.broken_links);
}

#[test]
fn test_resolve_image_ref_absolute_under_root_docs() {
    let images = path_set(&["/m/guide/docs/img/logo.png"]);
    let roots = path_set(&["/m/guide"]);
    let dirs = path_set(&["/m/guide/docs"]);
    let exist_all = PathSet::new();

    let r = resolve_image_ref(
        "/m/guide/docs/deep/page.md",
        "/img/logo.png",
        &images,
        &roots,
        &dirs,
        &exist_all,
    );
    assert_eq!(r.as_deref(), Some("/m/guide/docs/img/logo.png"));
}
