//! The link resolver: rewriting, dangling links, external links.

use sitegen::discovery::SourceSet;
use sitegen::links::{is_external, is_md_link, resolve_link, rewrite_dest};
use sitegen::path::parse_rel_path;

fn set_of(paths: &[&str]) -> SourceSet {
    let mut set = SourceSet::new();
    for p in paths {
        set.insert(parse_rel_path(p).unwrap());
    }
    set
}

#[test]
fn sibling_link_is_rewritten() {
    let set = set_of(&["a.md", "b.md"]);
    let cur = parse_rel_path("a.md").unwrap();
    assert_eq!(resolve_link(&cur, "b.md", &set), "b.html");
}

#[test]
fn dangling_link_is_left_unchanged() {
    let set = set_of(&["a.md"]);
    let cur = parse_rel_path("a.md").unwrap();
    assert_eq!(resolve_link(&cur, "missing.md", &set), "missing.md");
}

#[test]
fn dotted_link_keeps_its_authored_prefix() {
    let set = set_of(&["README.md", "docs/readme.md"]);
    let cur = parse_rel_path("README.md").unwrap();
    assert_eq!(resolve_link(&cur, "./docs/readme.md", &set), "./docs/index.html");
}

#[test]
fn parent_link_resolves_against_the_linking_directory() {
    let set = set_of(&["docs/a.md", "notes.md"]);
    let cur = parse_rel_path("docs/a.md").unwrap();
    assert_eq!(resolve_link(&cur, "../notes.md", &set), "../notes.html");
}

#[test]
fn link_escaping_the_root_is_left_unchanged() {
    let set = set_of(&["a.md"]);
    let cur = parse_rel_path("a.md").unwrap();
    assert_eq!(resolve_link(&cur, "../../elsewhere.md", &set), "../../elsewhere.md");
}

#[test]
fn non_markdown_destination_is_never_rewritten() {
    let set = set_of(&["a.md", "b.md"]);
    let cur = parse_rel_path("a.md").unwrap();
    assert_eq!(resolve_link(&cur, "https://example.com", &set), "https://example.com");
    assert_eq!(resolve_link(&cur, "image.png", &set), "image.png");
}

#[test]
fn web_markdown_link_is_left_unchanged() {
    let set = set_of(&["a.md", "b.md"]);
    let cur = parse_rel_path("a.md").unwrap();
    assert_eq!(
        resolve_link(&cur, "https://example.com/b.md", &set),
        "https://example.com/b.md"
    );
}

#[test]
fn external_test_requires_a_web_scheme() {
    assert!(is_external("http://example.com"));
    assert!(is_external("https://example.com/x"));
    assert!(!is_external("httpsx://example.com"));
    assert!(!is_external("docs/a.md"));
}

#[test]
fn markdown_link_test_is_a_suffix_test() {
    assert!(is_md_link("a.md"));
    assert!(is_md_link("../x/y.md"));
    assert!(!is_md_link("a.md5"));
    assert!(!is_md_link("a.html"));
}

#[test]
fn rewrite_keeps_everything_up_to_the_last_separator() {
    assert_eq!(rewrite_dest("b.md"), "b.html");
    assert_eq!(rewrite_dest("./docs/readme.md"), "./docs/index.html");
    assert_eq!(rewrite_dest("../a/B.md"), "../a/B.html");
}
