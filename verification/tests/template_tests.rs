//! The page templater: classification, titles, and the fixed shell.

use sitegen::path::parse_rel_path;
use sitegen::template::{classify, html_page, PageKind, SHELL_CLOSE, SHELL_MID, SHELL_OPEN, SITE_TITLE};

#[test]
fn index_page_uses_the_site_title_alone() {
    let dest = parse_rel_path("index.html").unwrap();
    let page = html_page(&dest, String::from("<p>hi</p>"));
    assert!(page.contains(&format!("<title>{}</title>", SITE_TITLE)));
    assert!(page.contains("<main><p>hi</p></main>"));
}

#[test]
fn regular_page_title_is_stem_dash_site_title() {
    let dest = parse_rel_path("docs/guide.html").unwrap();
    let page = html_page(&dest, String::from("x"));
    assert!(page.contains(&format!("<title>guide — {}</title>", SITE_TITLE)));
}

#[test]
fn the_shell_is_identical_across_pages() {
    let a = html_page(&parse_rel_path("index.html").unwrap(), String::from("A"));
    let b = html_page(&parse_rel_path("other.html").unwrap(), String::from("B"));
    assert!(a.starts_with(SHELL_OPEN));
    assert!(b.starts_with(SHELL_OPEN));
    assert!(a.ends_with(SHELL_CLOSE));
    assert!(b.ends_with(SHELL_CLOSE));
    assert!(a.contains(SHELL_MID));
    assert!(b.contains(SHELL_MID));
}

#[test]
fn the_page_is_exactly_shell_title_and_body() {
    let dest = parse_rel_path("notes.html").unwrap();
    let page = html_page(&dest, String::from("<p>n</p>"));
    let expected = format!(
        "{}{} — {}{}{}{}",
        SHELL_OPEN, "notes", SITE_TITLE, SHELL_MID, "<p>n</p>", SHELL_CLOSE
    );
    assert_eq!(page, expected);
}

#[test]
fn classification_is_derived_from_the_stem() {
    let index = parse_rel_path("docs/index.html").unwrap();
    let regular = parse_rel_path("docs/guide.html").unwrap();
    assert!(matches!(classify(&index, None), PageKind::Index { image: None }));
    let img = String::from("<img />");
    match classify(&index, Some(&img)) {
        PageKind::Index { image: Some(i) } => assert_eq!(i, img),
        _ => panic!("expected an index page with its image"),
    }
    match classify(&regular, None) {
        PageKind::Regular { title } => assert_eq!(title, format!("guide — {}", SITE_TITLE)),
        _ => panic!("expected a regular page"),
    }
}
