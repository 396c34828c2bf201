use ghost_lib::engine::{missing_files, orphans};
use ghost_lib::nav::{collect_pages, NavItem};
use ghost_lib::sets::PathSet;

#[test]
fn lib_test_collect_pages_with_page() {
    let nav = vec![NavItem::Page {
        title: "Title".to_string(),
        target: "path/to/file.md".to_string(),
    }];

    let mut pages = PathSet::new();
    collect_pages(&nav, &mut pages, "/tmp/docs");

    assert_eq!(pages.len(), 1);
    assert!(pages.contains("/tmp/docs/docs/path/to/file.md"));
}

#[test]
fn lib_test_collect_pages_with_plain_path() {
    let nav = vec![NavItem::PlainPath("example.md".to_string())];

    let mut pages = PathSet::new();
    collect_pages(&nav, &mut pages, "/tmp/docs");

    assert_eq!(pages.len(), 1);
    assert!(pages.contains("/tmp/docs/docs/example.md"));
}

#[test]
fn lib_test_collect_pages_with_section() {
    let nav = vec![NavItem::Section {
        title: "Section".to_string(),
        children: vec![NavItem::Page {
            title: "Page1".to_string(),
            target: "page1.md".to_string(),
        }],
    }];

    let mut pages = PathSet::new();
    collect_pages(&nav, &mut pages, "/tmp/docs");

    assert_eq!(pages.len(), 1);
    assert!(pages.contains("/tmp/docs/docs/page1.md"));
}

#[test]
fn lib_test_collect_pages_nested_sections() {
    let nav = vec![NavItem::Section {
        title: "Outer".to_string(),
        children: vec![NavItem::Section {
            title: "Inner".to_string(),
            children: vec![NavItem::PlainPath("nested/file.md".to_string())],
        }],
    }];

    let mut pages = PathSet::new();
    collect_pages(&nav, &mut pages, "/base");

    assert_eq!(pages.len(), 1);
    assert!(pages.contains("/base/docs/nested/file.md"));
}

#[test]
fn lib_test_collect_pages_multiple_items() {
    let nav = vec![
        NavItem::PlainPath("first.md".to_string()),
        NavItem::Page {
            title: "Second".to_string(),
            target: "second.md".to_string(),
        },
        NavItem::Section {
            title: "Section".to_string(),
            children: vec![NavItem::PlainPath("third.md".to_string())],
        },
    ];

    let mut pages = PathSet::new();
    collect_pages(&nav, &mut pages, "/root");

    assert_eq!(pages.len(), 3);
    assert!(pages.contains("/root/docs/first.md"));
    assert!(pages.contains("/root/docs/second.md"));
    assert!(pages.contains("/root/docs/third.md"));
}

#[test]
fn lib_test_collect_pages_empty_nav() {
    let nav = vec![];

    let mut pages = PathSet::new();
    collect_pages(&nav, &mut pages, "/tmp");

    assert_eq!(pages.len(), 0);
}

#[test]
fn lib_test_missing_files_all_exist() {
    let mut pages = PathSet::new();
    pages.insert("src/lib.rs".to_string());

    let mut existing = PathSet::new();
    existing.insert("src/lib.rs".to_string());

    let missing = missing_files(&pages, &existing);

    assert!(missing.is_empty());
}

#[test]
fn lib_test_missing_files_detects_missing() {
    let mut pages = PathSet::new();
    pages.insert("/nonexistent/file.md".to_string());

    let existing = PathSet::new();

    let missing = missing_files(&pages, &existing);

    assert_eq!(missing.len(), 1);
    assert_eq!(missing[0], "/nonexistent/file.md");
}

#[test]
fn lib_test_orphans_no_orphans() {
    let mut nav = PathSet::new();
    nav.insert("/docs/file1.md".to_string());
    nav.insert("/docs/file2.md".to_string());

    let files = vec!["/docs/file1.md".to_string(), "/docs/file2.md".to_string()];

    let orphan_files = orphans(&nav, &files);

    assert_eq!(orphan_files.len(), 0);
}

#[test]
fn lib_test_orphans_some_orphans() {
    let mut nav = PathSet::new();
    nav.insert("/docs/included.md".to_string());

    let files = vec![
        "/docs/included.md".to_string(),
        "/docs/orphan1.md".to_string(),
        "/docs/orphan2.md".to_string(),
    ];

    let orphan_files = orphans(&nav, &files);

    assert_eq!(orphan_files.len(), 2);
    assert!(orphan_files.contains(&"/docs/orphan1.md".to_string()));
    assert!(orphan_files.contains(&"/docs/orphan2.md".to_string()));
}

#[test]
fn lib_test_orphans_all_orphans() {
    let nav = PathSet::new();

    let files = vec!["/docs/orphan1.md".to_string(), "/docs/orphan2.md".to_string()];

    let orphan_files = orphans(&nav, &files);

    assert_eq!(orphan_files.len(), 2);
}

#[test]
fn lib_test_orphans_empty_files() {
    let mut nav = PathSet::new();
    nav.insert("/docs/file.md".to_string());

    let files = vec![];

    let orphan_files = orphans(&nav, &files);

    assert!(orphan_files.is_empty());
}
