use ghost_lib::help::{expand_url, extract_help_urls, inject_docs, strip_c_comments};

#[test]
fn lib_test_strip_c_comments_line_comment() {
    let input = "line1\n// this is a comment\nline2";
    let result = strip_c_comments(input);
    assert_eq!(result, "line1\n\nline2");
}

#[test]
fn lib_test_strip_c_comments_block_comment() {
    let input = "line1\n/* block comment */line2";
    let result = strip_c_comments(input);
    assert_eq!(result, "line1\nline2");
}

#[test]
fn mkdocs_utils_test_strip_c_comments_line_comment() {
    let input = "line1\n// this is a comment\nline2";
    let result = strip_c_comments(input);
    assert_eq!(result, "line1\n\nline2");
}

#[test]
fn mkdocs_utils_test_strip_c_comments_block_comment() {
    let input = "line1\n/* block comment */line2";
    let result = strip_c_comments(input);
    assert_eq!(result, "line1\nline2");
}

#[test]
fn lib_test_expand_url_simple_string() {
    let macros: Vec<(String, String)> = Vec::new();
    let result = expand_url("path/to/file", &macros);
    assert_eq!(result, "path/to/file");
}

#[test]
fn lib_test_expand_url_with_macro() {
    let macros = vec![(
        "SY".to_string(),
        "language-reference-guide/symbols".to_string(),
    )];
    let result = expand_url("SY\"/comma\"", &macros);
    assert_eq!(result, "language-reference-guide/symbols/comma");
}

#[test]
fn mkdocs_utils_test_expand_url_simple_string() {
    let macros: Vec<(String, String)> = Vec::new();
    let result = expand_url("path/to/file", &macros);
    assert_eq!(result, "path/to/file");
}

#[test]
fn mkdocs_utils_test_expand_url_with_macro() {
    let macros = vec![(
        "SY".to_string(),
        "language-reference-guide/symbols".to_string(),
    )];
    let result = expand_url("SY\"/comma\"", &macros);
    assert_eq!(result, "language-reference-guide/symbols/comma");
}

#[test]
fn lib_test_inject_docs() {
    let result = inject_docs("language-reference-guide/symbols/comma");
    assert_eq!(result, "language-reference-guide/docs/symbols/comma");
}

#[test]
fn lib_test_inject_docs_single_component() {
    let result = inject_docs("file");
    assert_eq!(result, "file/docs");
}

#[test]
fn mkdocs_utils_test_inject_docs() {
    let result = inject_docs("language-reference-guide/symbols/comma");
    assert_eq!(result, "language-reference-guide/docs/symbols/comma");
}

#[test]
fn mkdocs_utils_test_inject_docs_single_component() {
    let result = inject_docs("file");
    assert_eq!(result, "file/docs");
}

#[test]
fn lib_test_extract_help_urls_ignores_comments() {
    let content = "\n// This is a comment with HELP_URL(\"test\", \"fake/path\")\n#define SY \"language-reference-guide/symbols\"\nHELP_URL(\",\", SY\"/comma\")\n";
    let result = extract_help_urls(content, "/doc-root");

    // one URL (the comma one), not two: the commented-out call never matches
    assert_eq!(result.len(), 1);
    assert!(result[0].contains("language-reference-guide/docs/symbols/comma.md"));
}

#[test]
fn lib_test_extract_help_urls_expands_macros() {
    let content = "\n#define SY \"language-reference-guide/symbols\"\nHELP_URL(\",\", SY\"/comma\")\n";
    let result = extract_help_urls(content, "/doc-root");

    assert_eq!(result.len(), 1);
    assert!(result[0].contains("language-reference-guide/docs/symbols/comma.md"));
}

#[test]
fn lib_test_extract_help_urls_injects_docs() {
    let content = "\nHELP_URL(\":if\", \"programming-reference-guide/defined-functions-and-operators/traditional-functions-and-operators/control-structures/if\")\n";
    let result = extract_help_urls(content, "/doc-root");

    assert_eq!(result.len(), 1);
    assert!(result[0].contains("/docs/"));
    assert!(result[0].contains("programming-reference-guide/docs/defined-functions-and-operators"));
}

#[test]
fn mkdocs_utils_test_extract_help_urls_ignores_comments() {
    let content = "\n// This is a comment with HELP_URL(\"test\", \"fake/path\")\n#define SY \"language-reference-guide/symbols\"\nHELP_URL(\",\", SY\"/comma\")\n";
    let result = extract_help_urls(content, "/doc-root");

    assert_eq!(result.len(), 1);
    assert!(result[0].contains("language-reference-guide/docs/symbols/comma.md"));
}

#[test]
fn mkdocs_utils_test_extract_help_urls_expands_macros() {
    let content = "\n#define SY \"language-reference-guide/symbols\"\nHELP_URL(\",\", SY\"/comma\")\n";
    let result = extract_help_urls(content, "/doc-root");

    assert_eq!(result.len(), 1);
    assert!(result[0].contains("language-reference-guide/docs/symbols/comma.md"));
}

#[test]
fn mkdocs_utils_test_extract_help_urls_injects_docs() {
    let content = "\nHELP_URL(\":if\", \"programming-reference-guide/defined-functions-and-operators/traditional-functions-and-operators/control-structures/if\")\n";
    let result = extract_help_urls(content, "/doc-root");

    assert_eq!(result.len(), 1);
    assert!(result[0].contains("/docs/"));
    assert!(result[0].contains("programming-reference-guide/docs/defined-functions-and-operators"));
}

#[test]
fn test_strip_c_comments_keeps_strings_with_slashes() {
    let input = "HELP_URL(\"a\", \"x/y\") /* gone */ tail";
    let result = strip_c_comments(input);
    assert_eq!(result, "HELP_URL(\"a\", \"x/y\")  tail");
}

#[test]
fn test_extract_help_urls_last_define_wins() {
    let content = "#define P \"first\"\n#define P \"second\"\nHELP_URL(\"k\", P)\n";
    let result = extract_help_urls(content, "/r");
    assert_eq!(result.len(), 1);
    assert_eq!(result[0], "/r/second/docs.md");
}
