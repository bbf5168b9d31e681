//! End-to-end generation through the real markdown parser and renderer.

use sitegen::path::parse_rel_path;
use sitegen::pipeline::{generate_site, Config, PageDecoration, SourceFile};
use sitegen::template::SITE_TITLE;
use sitegen::transform::{Decoration, EXTERNAL_LINK_MARKUP};

fn plain_config() -> Config {
    Config { decorated_page: None, index_image: None }
}

fn source(path: &str, contents: &str) -> SourceFile {
    SourceFile {
        path: parse_rel_path(path).unwrap(),
        contents: String::from(contents),
    }
}

fn find_output(outputs: &[sitegen::pipeline::OutputFile], path: &str) -> String {
    for o in outputs {
        if o.path.to_string() == path {
            return o.html.clone();
        }
    }
    panic!("no output at {}", path);
}

#[test]
fn known_markdown_link_is_rewritten_to_html() {
    let files = vec![source("a.md", "[x](b.md)"), source("b.md", "hello")];
    let outputs = generate_site(&files, &plain_config());
    let a = find_output(&outputs, "a.html");
    assert!(a.contains(r#"href="b.html""#));
    assert!(!a.contains(r#"href="b.md""#));
}

#[test]
fn dangling_markdown_link_is_left_unchanged() {
    let files = vec![source("a.md", "[x](missing.md)")];
    let outputs = generate_site(&files, &plain_config());
    let a = find_output(&outputs, "a.html");
    assert!(a.contains(r#"href="missing.md""#));
}

#[test]
fn external_link_is_decorated_inside_the_anchor() {
    let files = vec![source("a.md", "[site](https://example.com)")];
    let outputs = generate_site(&files, &plain_config());
    let a = find_output(&outputs, "a.html");
    assert!(a.contains(r#"href="https://example.com""#));
    assert!(a.contains(EXTERNAL_LINK_MARKUP));
    assert!(a.contains(r#"href="https://example.com">site<svg"#));
}

#[test]
fn internal_link_is_not_decorated() {
    let files = vec![source("a.md", "[x](b.md)"), source("b.md", "hello")];
    let outputs = generate_site(&files, &plain_config());
    let a = find_output(&outputs, "a.html");
    assert!(!a.contains("<svg"));
    assert!(a.contains(r#"href="b.html">x</a>"#));
}

#[test]
fn end_to_end_readme_tree() {
    let files = vec![
        source("README.md", "# Hi [docs](./docs/readme.md)"),
        source("docs/readme.md", "docs page"),
    ];
    let outputs = generate_site(&files, &plain_config());
    assert_eq!(outputs.len(), 2);
    let index = find_output(&outputs, "index.html");
    assert!(index.contains(&format!("<title>{}</title>", SITE_TITLE)));
    assert!(index.contains(r#"href="./docs/index.html""#));
    let docs = find_output(&outputs, "docs/index.html");
    assert!(docs.contains(&format!("<title>{}</title>", SITE_TITLE)));
    assert!(docs.contains("docs page"));
}

#[test]
fn regular_page_title_carries_the_stem() {
    let files = vec![source("about.md", "who am i")];
    let outputs = generate_site(&files, &plain_config());
    let about = find_output(&outputs, "about.html");
    assert!(about.contains(&format!("<title>about — {}</title>", SITE_TITLE)));
}

#[test]
fn generation_twice_is_byte_identical() {
    let files = vec![
        source("README.md", "# Hi [docs](./docs/readme.md) and [site](https://example.com)"),
        source("docs/readme.md", "docs page with [back](../README.md)"),
        source("notes.md", "some *notes*"),
    ];
    let cfg = Config {
        decorated_page: Some(PageDecoration {
            page: parse_rel_path("README.md").unwrap(),
            deco: Decoration {
                literal: String::from("Hi"),
                fragment: String::from(r#"<span class="hi">Hi</span>"#),
            },
        }),
        index_image: Some(String::from(r#"<img src="./static/me.png" alt="portrait" />"#)),
    };
    let first = generate_site(&files, &cfg);
    let second = generate_site(&files, &cfg);
    assert_eq!(first.len(), second.len());
    for (a, b) in first.iter().zip(second.iter()) {
        assert_eq!(a.path.to_string(), b.path.to_string());
        assert_eq!(a.html, b.html);
    }
}

#[test]
fn distinguished_page_text_is_decorated() {
    let fragment = r#"<span style="color: red">Google</span>"#;
    let cfg = Config {
        decorated_page: Some(PageDecoration {
            page: parse_rel_path("README.md").unwrap(),
            deco: Decoration {
                literal: String::from("Google"),
                fragment: String::from(fragment),
            },
        }),
        index_image: None,
    };
    let files = vec![
        source("README.md", "I work at Google now"),
        source("other.md", "Google elsewhere"),
    ];
    let outputs = generate_site(&files, &cfg);
    let index = find_output(&outputs, "index.html");
    assert!(index.contains(fragment));
    assert!(index.contains("I work at "));
    assert!(index.contains(" now"));
    let other = find_output(&outputs, "other.html");
    assert!(other.contains("Google elsewhere"));
    assert!(!other.contains(fragment));
}

#[test]
fn every_occurrence_in_a_text_run_is_decorated() {
    let fragment = "[G]";
    let cfg = Config {
        decorated_page: Some(PageDecoration {
            page: parse_rel_path("README.md").unwrap(),
            deco: Decoration {
                literal: String::from("Google"),
                fragment: String::from(fragment),
            },
        }),
        index_image: None,
    };
    let files = vec![source("README.md", "Google and Google again")];
    let outputs = generate_site(&files, &cfg);
    let index = find_output(&outputs, "index.html");
    assert!(index.contains("[G] and [G] again"));
}

#[test]
fn images_pass_through() {
    let files = vec![source("a.md", "![pic](x.png)")];
    let outputs = generate_site(&files, &plain_config());
    let a = find_output(&outputs, "a.html");
    assert!(a.contains(r#"<img src="x.png" alt="pic" />"#));
}

#[test]
fn decoration_inside_an_image_alt_run_is_escaped() {
    let cfg = Config {
        decorated_page: Some(PageDecoration {
            page: parse_rel_path("README.md").unwrap(),
            deco: Decoration {
                literal: String::from("Google"),
                fragment: String::from("<b>G</b>"),
            },
        }),
        index_image: None,
    };
    let files = vec![source("README.md", "![Google logo](x.png)")];
    let outputs = generate_site(&files, &cfg);
    let index = find_output(&outputs, "index.html");
    assert!(index.contains(r#"alt="&lt;b&gt;G&lt;/b&gt; logo""#));
    assert!(!index.contains(r#"alt="<b>G</b> logo""#));
}

#[test]
fn index_image_precedes_the_fragment_on_the_index_page_only() {
    let img = r#"<img src="./static/me.png" />"#;
    let cfg = Config {
        decorated_page: None,
        index_image: Some(String::from(img)),
    };
    let files = vec![source("README.md", "hello"), source("about.md", "about")];
    let outputs = generate_site(&files, &cfg);
    let index = find_output(&outputs, "index.html");
    let pos_img = index.find(img).expect("image block on the index page");
    let pos_text = index.find("hello").expect("fragment on the index page");
    assert!(pos_img < pos_text);
    let about = find_output(&outputs, "about.html");
    assert!(!about.contains(img));
}
