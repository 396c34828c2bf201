use ghost_lib::content::{extract_image_refs, extract_links, has_footnotes};
use ghost_lib::links::build_link_maps;
use ghost_lib::nav::NavItem;
use ghost_lib::resolve::{normalise_links, resolve_link};

#[test]
fn test_normalise_links_filters_correctly() {
    let links = vec![
        "page.md".to_string(),
        "page".to_string(),
        "dir/page".to_string(),
        "page#anchor".to_string(),
        "page.md#anchor".to_string(),
        "https://example.com".to_string(),
        "mailto:test@example.com".to_string(),
        "path/to/dir/".to_string(),
        "image.png".to_string(),
        "#just-anchor".to_string(),
    ];

    let normalised = normalise_links(links);

    assert!(normalised.contains(&"page.md".to_string()));
    assert!(normalised.contains(&"page.md".to_string()));
    assert!(normalised.contains(&"dir/page.md".to_string()));
    assert!(normalised.contains(&"path/to/dir.md".to_string()));
    assert!(!normalised.iter().any(|l| l.contains('#')));
    assert!(!normalised.iter().any(|l| l.starts_with("http")));
    assert!(!normalised.iter().any(|l| l.starts_with("mailto")));
    assert!(!normalised.iter().any(|l| l.ends_with(".png")));
}

#[test]
fn test_extract_links_from_markdown_and_html() {
    let content = "\n# Test Page\n\nHere is a [markdown link](markdown-target.md).\n\nAnd here is <a href=\"html-target.md\">an HTML link</a>.\n\nAnd an inline <a href=\"inline.md\">inline link</a> in text.\n";

    let links = extract_links(content);

    assert!(links.contains(&"markdown-target.md".to_string()));
    assert!(links.contains(&"html-target.md".to_string()));
    assert!(links.contains(&"inline.md".to_string()));
}

#[test]
fn test_extract_links_with_bold_text() {
    let content = "[**Applies To**](../propertyapplies/accelerator.md)";
    let links = extract_links(content);
    println!("Links found: {:?}", links);
    assert!(links.contains(&"../propertyapplies/accelerator.md".to_string()));
}

#[test]
fn test_extract_links_from_markdown_table() {
    let content = "\n|----------------------------------------------|----------------------------------------|\n|[ActiveXControl](../objects/activexcontrol.md)|[Bitmap](../objects/bitmap.md)          |\n|[ButtonEdit](../objects/buttonedit.md)        |[Calendar](../objects/calendar.md)      |\n";
    let links = extract_links(content);
    println!("Table links found: {:?}", links);
    assert!(links.contains(&"../objects/activexcontrol.md".to_string()));
    assert!(links.contains(&"../objects/bitmap.md".to_string()));
    assert!(links.contains(&"../objects/buttonedit.md".to_string()));
    assert!(links.contains(&"../objects/calendar.md".to_string()));
}

#[test]
fn test_extract_image_refs_from_markdown_and_html() {
    let content = "![alt](pic/one.png)\n\nraw <img src=\"pic/two.png\"> here\n";
    let images = extract_image_refs(content);
    assert!(images.contains(&"pic/one.png".to_string()));
    assert!(images.contains(&"pic/two.png".to_string()));
}

#[test]
fn test_has_footnotes_finds_reference_and_definition() {
    assert!(has_footnotes("text [^1] more\n[^1]: the note"));
    assert!(has_footnotes("only a definition [^note-a]: x"));
    assert!(!has_footnotes("no [footnote] here"));
    assert!(!has_footnotes("empty [^] marker"));
    assert!(!has_footnotes(""));
}

#[test]
fn test_normalise_links_is_idempotent_on_samples() {
    let links = vec![
        "page.md".to_string(),
        "page".to_string(),
        "dir/page#anchor".to_string(),
        "path/to/dir/".to_string(),
        "  spaced ".to_string(),
        "a.b.c".to_string(),
    ];
    let once = normalise_links(links);
    let twice = normalise_links(once.clone());
    assert_eq!(once, twice);
}

#[test]
fn test_build_link_maps_section_slug_and_lookup() {
    let nav = vec![NavItem::Section {
        title: "My Title!".to_string(),
        children: vec![NavItem::Page {
            title: "X".to_string(),
            target: "sub/x.md".to_string(),
        }],
    }];
    let maps = build_link_maps(&nav, "/site");
    assert_eq!(
        maps.url_to_src.get("my-title/x").map(|s| s.as_str()),
        Some("/site/docs/sub/x.md")
    );
    assert_eq!(
        maps.src_to_url.get("/site/docs/sub/x.md").map(|s| s.as_str()),
        Some("my-title/x")
    );
}

#[test]
fn test_resolve_link_round_trip_through_maps() {
    let nav = vec![
        NavItem::Page {
            title: "A".to_string(),
            target: "a.md".to_string(),
        },
        NavItem::Page {
            title: "B".to_string(),
            target: "dir/b.md".to_string(),
        },
    ];
    let maps = build_link_maps(&nav, "/site");
    let target = resolve_link("/site/docs/dir/b.md", "../a.md", &maps).unwrap();
    assert_eq!(target, "/site/docs/a.md");
    // mapping the target back gives the URL the resolution used
    assert_eq!(maps.src_to_url.get(&target).map(|s| s.as_str()), Some("a"));
}

#[test]
fn test_resolve_link_index_retry() {
    let nav = vec![
        NavItem::Page {
            title: "Home".to_string(),
            target: "guide/index.md".to_string(),
        },
        NavItem::Page {
            title: "A".to_string(),
            target: "a.md".to_string(),
        },
    ];
    let maps = build_link_maps(&nav, "/site");
    // the link names the directory; the lookup retries with /index
    let target = resolve_link("/site/docs/a.md", "guide.md", &maps).unwrap();
    assert_eq!(target, "/site/docs/guide/index.md");
}

#[test]
fn test_first_insertion_wins_in_link_maps() {
    let nav = vec![
        NavItem::Page {
            title: "One".to_string(),
            target: "x.md".to_string(),
        },
        NavItem::Page {
            title: "Two".to_string(),
            target: "./x.md".to_string(),
        },
    ];
    let maps = build_link_maps(&nav, "/site");
    // both entries render to the same URL and path; the first write stays
    assert_eq!(maps.url_to_src.len(), 1);
    assert_eq!(
        maps.url_to_src.get("x").map(|s| s.as_str()),
        Some("/site/docs/x.md")
    );
}
