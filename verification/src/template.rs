//! The page templater: classifies a destination path into a page kind,
//! derives its title, and wraps a rendered fragment in the fixed document
//! shell. The shell is byte-for-byte identical across pages; only the title
//! and the body differ.

use vstd::prelude::*;
use vstd::string::StringExecFns;

use crate::path::file_stem;
use crate::path::stem_of;
use crate::path::RelPath;
use crate::strutil::ends_with_spec;
use crate::strutil::str_eq;

verus! {

/// The fixed site title, used alone on the index page and as a suffix on
/// every other page.
pub const SITE_TITLE: &'static str = "Juliette Pluto";

/// The shell up to and including the opening of the title element.
pub const SHELL_OPEN: &'static str = r#"
<!DOCTYPE html>
<html lang="en">
    <head>
        <meta charset="utf-8" />
        <meta name="viewport" content="width=device-width,initial-scale=1,shrink-to-fit=no" />
        <title>"#;

/// The shell between the title and the body content.
pub const SHELL_MID: &'static str = r##"</title>
        <meta name="description" content="Engineer at Google" />
        <link rel="stylesheet" href="./static/main.css" />
        <link rel="preload" href="./static/iosevka-julsh-curly-regular.woff2" as="font" type="font/woff2" />
        <link rel="preload" href="./static/iosevka-julsh-curly-bold.woff2" as="font" type="font/woff2" />
        <link rel="apple-touch-icon" sizes="180x180" href="./static/apple-touch-icon.png" />
        <link rel="icon" type="image/png" sizes="32x32" href="./static/favicon-32x32.png" />
        <meta name="theme-color" content="#11161d" />
    </head>
    <body>
        <main>"##;

/// The shell after the body content.
pub const SHELL_CLOSE: &'static str = r#"</main>
    </body>
    <!-- 🗽 -->
</html>
"#;

/// The kind of a destination page, derived from its file stem and never
/// stored: the distinguished index page, which may carry an illustrative
/// image block, or a regular page carrying its display title.
pub enum PageKind {
    Index { image: Option<String> },
    Regular { title: String },
}

/// A destination is the distinguished index page exactly when its stem is
/// `index`.
pub open spec fn is_index_spec(stem: Seq<char>) -> bool {
    stem == "index"@
}

/// The page title: the site title alone on the index page, and the stem
/// followed by an em dash and the site title on every other page.
pub open spec fn title_spec(stem: Seq<char>) -> Seq<char> {
    if is_index_spec(stem) {
        SITE_TITLE@
    } else {
        stem + " — "@ + SITE_TITLE@
    }
}

/// The complete document for a destination stem and rendered body.
pub open spec fn page_spec(stem: Seq<char>, body: Seq<char>) -> Seq<char> {
    SHELL_OPEN@ + title_spec(stem) + SHELL_MID@ + body + SHELL_CLOSE@
}

/// Classifies a destination path, recomputing the kind from its file stem.
pub fn classify(html_path: &RelPath, index_image: Option<&String>) -> (k: PageKind)
    requires
        html_path.wf(),
        ends_with_spec(html_path@.last(), ".html"@),
    ensures
        match k {
            PageKind::Index { image } => is_index_spec(stem_of(html_path@.last())) && match (
                image,
                index_image,
            ) {
                (Some(img), Some(cfg)) => img@ == cfg@,
                (None, None) => true,
                _ => false,
            },
            PageKind::Regular { title } => !is_index_spec(stem_of(html_path@.last())) && title@
                == title_spec(stem_of(html_path@.last())),
        },
{
    let n = html_path.segments.len();
    proof {
        assert(html_path@.len() == n);
        assert(html_path@.last() == html_path.segments@[n - 1].deep_view());
    }
    let name = html_path.segments[n - 1].as_str();
    let stem = file_stem(name);
    if str_eq(stem, "index") {
        match index_image {
            Some(img) => PageKind::Index { image: Some(img.clone()) },
            None => PageKind::Index { image: None },
        }
    } else {
        let title = String::from_str(stem).concat(" — ").concat(SITE_TITLE);
        PageKind::Regular { title }
    }
}

/// Wraps a rendered HTML body in the fixed document shell, with the title
/// derived from the destination's file stem.
pub fn html_page(html_path: &RelPath, html_fragment: String) -> (r: String)
    requires
        html_path.wf(),
        ends_with_spec(html_path@.last(), ".html"@),
    ensures
        r@ == page_spec(stem_of(html_path@.last()), html_fragment@),
{
    let n = html_path.segments.len();
    proof {
        assert(html_path@.len() == n);
        assert(html_path@.last() == html_path.segments@[n - 1].deep_view());
    }
    let name = html_path.segments[n - 1].as_str();
    let stem = file_stem(name);
    let title: String = if str_eq(stem, "index") {
        String::from_str(SITE_TITLE)
    } else {
        String::from_str(stem).concat(" — ").concat(SITE_TITLE)
    };
    let r = String::from_str(SHELL_OPEN)
        .concat(title.as_str())
        .concat(SHELL_MID)
        .concat(html_fragment.as_str())
        .concat(SHELL_CLOSE);
    r
}

} // verus!
