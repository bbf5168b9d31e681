//! Discovery decisions: exclusion prefixes, the markdown extension, and the
//! discovered set.

use sitegen::discovery::{collect_sources, has_md_extension, is_excluded, SourceSet};
use sitegen::path::parse_rel_path;

fn prefixes() -> Vec<String> {
    vec![
        String::from("./target"),
        String::from("./.git"),
        String::from("./static"),
        String::from("./build"),
    ]
}

#[test]
fn excluded_prefixes_cover_their_subtrees() {
    let pre = prefixes();
    assert!(is_excluded("./target", &pre));
    assert!(is_excluded("./target/debug/x.md", &pre));
    assert!(is_excluded("./.git/config", &pre));
    assert!(is_excluded("./static/fonts/a.woff2", &pre));
    assert!(is_excluded("./build/index.html", &pre));
}

#[test]
fn exclusion_matches_whole_components_only() {
    let pre = prefixes();
    assert!(!is_excluded("./targets/x.md", &pre));
    assert!(!is_excluded("./staticfile.md", &pre));
    assert!(!is_excluded("./docs/a.md", &pre));
    assert!(!is_excluded("./README.md", &pre));
}

#[test]
fn markdown_extension_is_exact_and_case_sensitive() {
    assert!(has_md_extension("a.md"));
    assert!(has_md_extension("./docs/b.md"));
    assert!(has_md_extension("x.tar.md"));
    assert!(!has_md_extension("a.MD"));
    assert!(!has_md_extension("a.txt"));
    assert!(!has_md_extension("md"));
    assert!(!has_md_extension(".md"));
    assert!(!has_md_extension("docs/.md"));
}

#[test]
fn source_set_membership_and_deduplication() {
    let mut set = SourceSet::new();
    let a = parse_rel_path("docs/a.md").unwrap();
    let a2 = parse_rel_path("./docs//a.md").unwrap();
    let b = parse_rel_path("b.md").unwrap();
    assert!(!set.contains_path(&a));
    set.insert(a);
    set.insert(a2);
    let a3 = parse_rel_path("docs/a.md").unwrap();
    assert!(set.contains_path(&a3));
    assert!(!set.contains_path(&b));
    assert_eq!(set.paths.len(), 1);
}

#[test]
fn collect_sources_selects_and_normalizes() {
    let pre = prefixes();
    let entries: Vec<String> = vec![
        String::from("./"),
        String::from("./README.md"),
        String::from("./docs"),
        String::from("./docs/a.md"),
        String::from("./static/styles.md"),
        String::from("./notes.txt"),
        String::from("./build/old.md"),
    ];
    let set = collect_sources(&entries, &pre).expect("collection should succeed");
    assert_eq!(set.paths.len(), 2);
    assert!(set.contains_path(&parse_rel_path("README.md").unwrap()));
    assert!(set.contains_path(&parse_rel_path("docs/a.md").unwrap()));
    assert!(!set.contains_path(&parse_rel_path("static/styles.md").unwrap()));
}

#[test]
fn collect_sources_reports_the_offending_entry() {
    let pre = prefixes();
    let entries: Vec<String> = vec![String::from("./a.md"), String::from("../escape.md")];
    match collect_sources(&entries, &pre) {
        Err(i) => assert_eq!(i, 1),
        Ok(_) => panic!("collection should fail on a path escaping the root"),
    }
}
