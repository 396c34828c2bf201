use ghost_lib::engine::{audit, is_excluded, relative_path};
use ghost_lib::links::slugify;
use ghost_lib::nav::NavItem;
use ghost_lib::paths::{
    clean_path, drop_ext, ext_of, file_name_of, join_path, normalise_url, normalize_path,
    parent_of,
};
use ghost_lib::sets::{PathMap, PathSet};

#[test]
fn test_clean_path_drops_dot_and_empty_segments() {
    assert_eq!(clean_path("/a/./b//c/"), "/a/b/c");
    assert_eq!(clean_path("a/./b"), "a/b");
    assert_eq!(clean_path(""), "");
    assert_eq!(clean_path("/"), "/");
}

#[test]
fn test_normalize_path_resolves_parents() {
    assert_eq!(normalize_path("a/b/../c"), "a/c");
    assert_eq!(normalize_path("/base/x/../../y"), "/y");
    assert_eq!(normalize_path("../a"), "../a");
    assert_eq!(normalize_path("/.."), "/..");
}

#[test]
fn test_normalise_url_pops_unconditionally() {
    assert_eq!(normalise_url("a/b/../c"), "a/c");
    assert_eq!(normalise_url("../a"), "a");
    assert_eq!(normalise_url("a/./b"), "a/b");
}

#[test]
fn test_join_path_absolute_replaces() {
    assert_eq!(join_path("/a/b", "/c"), "/c");
    assert_eq!(join_path("/a/b", "c.md"), "/a/b/c.md");
    assert_eq!(join_path("", "c.md"), "c.md");
}

#[test]
fn test_extension_handling() {
    assert_eq!(ext_of("a/ravel.md"), Some("md".to_string()));
    assert_eq!(ext_of("a/archive.tar.gz"), Some("gz".to_string()));
    assert_eq!(ext_of("a/.hidden"), None);
    assert_eq!(ext_of("a/plain"), None);
    assert_eq!(drop_ext("a/ravel.md"), "a/ravel");
    assert_eq!(drop_ext("a/plain"), "a/plain");
}

#[test]
fn test_parent_and_file_name() {
    assert_eq!(parent_of("/a/b/c.md"), "/a/b");
    assert_eq!(parent_of("a"), "");
    assert_eq!(file_name_of("/a/b/c.md"), Some("c.md".to_string()));
    assert_eq!(file_name_of("a/.."), None);
}

#[test]
fn test_slugify_sections() {
    assert_eq!(slugify("My Title!"), "my-title");
    assert_eq!(slugify("  A  &  B  "), "a-b");
    assert_eq!(slugify("Release-Notes 2024"), "release-notes-2024");
    assert_eq!(slugify("!!!"), "");
}

#[test]
fn test_relative_path_strips_the_root() {
    assert_eq!(relative_path("/m/guide/docs/a.md", Some("/m")), "guide/docs/a.md");
    assert_eq!(relative_path("/elsewhere/a.md", Some("/m")), "/elsewhere/a.md");
    assert_eq!(relative_path("/m/a.md", None), "/m/a.md");
}

#[test]
fn test_is_excluded_matches_first_component() {
    let excluded = vec!["release-notes".to_string()];
    assert!(is_excluded("/m/release-notes/docs/a.md", Some("/m"), &excluded));
    assert!(!is_excluded("/m/guide/docs/a.md", Some("/m"), &excluded));
    assert!(!is_excluded("/m/release-notes/docs/a.md", None, &excluded));
}

#[test]
fn test_nav_missing_reports_exactly_the_absent_pages() {
    // a nav page is reported missing exactly when nothing says it exists
    let nav = vec![
        NavItem::Page {
            title: "A".to_string(),
            target: "a.md".to_string(),
        },
        NavItem::Page {
            title: "B".to_string(),
            target: "b.md".to_string(),
        },
    ];
    let files: Vec<String> = vec![];
    let existing = {
        let mut s = PathSet::new();
        s.insert("/m/docs/a.md".to_string());
        s
    };
    let dirs = PathSet::new();
    let contents = {
        let mut m = PathMap::new();
        m.insert("/m/docs/a.md".to_string(), "".to_string());
        m
    };
    let images = PathSet::new();
    let css: Vec<(String, String)> = vec![];

    let result = audit(&nav, "/m", &files, &existing, &dirs, &contents, "", &images, &css);

    assert_eq!(result.nav_missing, vec!["/m/docs/b.md".to_string()]);
}
