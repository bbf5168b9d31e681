//! Path mapping and path parsing.

use sitegen::path::{make_html_path, parse_rel_path, RelPath};

fn path_of(s: &str) -> RelPath {
    parse_rel_path(s).expect("path should parse")
}

#[test]
fn map_is_deterministic() {
    let p = path_of("docs/notes.md");
    let a = make_html_path(&p).to_string();
    let b = make_html_path(&p).to_string();
    assert_eq!(a, b);
    assert_eq!(a, "docs/notes.html");
}

#[test]
fn readme_maps_to_index_at_root() {
    let p = path_of("README.md");
    assert_eq!(make_html_path(&p).to_string(), "index.html");
}

#[test]
fn readme_any_letter_case_maps_to_index() {
    assert_eq!(make_html_path(&path_of("docs/README.md")).to_string(), "docs/index.html");
    assert_eq!(make_html_path(&path_of("docs/readme.md")).to_string(), "docs/index.html");
    assert_eq!(make_html_path(&path_of("docs/ReadMe.mD")).to_string(), "docs/index.html");
}

#[test]
fn regular_file_keeps_its_stem() {
    assert_eq!(make_html_path(&path_of("foo.md")).to_string(), "foo.html");
    assert_eq!(make_html_path(&path_of("docs/foo.md")).to_string(), "docs/foo.html");
    assert_eq!(make_html_path(&path_of("a/b/c.md")).to_string(), "a/b/c.html");
}

#[test]
fn multi_dot_name_replaces_only_the_extension() {
    assert_eq!(make_html_path(&path_of("notes.tar.md")).to_string(), "notes.tar.html");
}

#[test]
fn readme_prefix_but_not_readme_is_regular() {
    assert_eq!(make_html_path(&path_of("readme2.md")).to_string(), "readme2.html");
    assert_eq!(make_html_path(&path_of("xreadme.md")).to_string(), "xreadme.html");
}

#[test]
fn parse_normalizes_dot_and_double_slash() {
    assert_eq!(path_of("./docs//a.md").to_string(), "docs/a.md");
    assert_eq!(path_of("a/./b.md").to_string(), "a/b.md");
}

#[test]
fn parse_collapses_parent_components() {
    assert_eq!(path_of("a/../b.md").to_string(), "b.md");
    assert_eq!(path_of("docs/sub/../other/x.md").to_string(), "docs/other/x.md");
}

#[test]
fn parse_rejects_paths_escaping_the_root() {
    assert!(parse_rel_path("../x.md").is_none());
    assert!(parse_rel_path("a/../../x.md").is_none());
}

#[test]
fn parse_rejects_paths_naming_no_file() {
    assert!(parse_rel_path(".").is_none());
    assert!(parse_rel_path("").is_none());
    assert!(parse_rel_path("a/..").is_none());
}

#[test]
fn paths_compare_by_segments() {
    let a = path_of("./docs/a.md");
    let b = path_of("docs//a.md");
    let c = path_of("docs/b.md");
    assert!(a.eq_path(&b));
    assert!(!a.eq_path(&c));
}
