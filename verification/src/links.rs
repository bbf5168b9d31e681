//! The link resolver: decides whether a markdown link destination refers to
//! another discovered source file and, if so, rewrites it to the mapped HTML
//! destination, rendered relative to the directory the link was authored in.

use vstd::prelude::*;
use vstd::string::StrSliceExecFns;
use vstd::string::StringExecFns;

use crate::discovery::SourceSet;
use crate::path::apply_segments;
use crate::path::html_name_spec;
use crate::path::html_file_name;
use crate::path::normalize_spec;
use crate::path::split_slash;
use crate::path::split_slash_exec;
use crate::path::RelPath;
use crate::strutil::ends_with_spec;
use crate::strutil::last_index_of;
use crate::strutil::lemma_last_index_in_range;
use crate::strutil::starts_with_spec;
use crate::strutil::str_ends_with;
use crate::strutil::str_rfind;
use crate::strutil::str_starts_with;

verus! {

/// The destination names an absolute web resource.
pub open spec fn is_external_spec(dest: Seq<char>) -> bool {
    starts_with_spec(dest, "http://"@) || starts_with_spec(dest, "https://"@)
}

/// The destination looks like a markdown file reference.
pub open spec fn is_md_link_spec(dest: Seq<char>) -> bool {
    ends_with_spec(dest, ".md"@)
}

/// The authored destination with only its file name rewritten by the path
/// mapping: the text up to and including the last separator is kept, so the
/// result stays relative to the directory the link was authored in.
pub open spec fn rewrite_dest_spec(dest: Seq<char>) -> Seq<char> {
    match last_index_of(dest, '/') {
        Some(i) => dest.take(i + 1) + html_name_spec(dest.skip(i + 1)),
        None => html_name_spec(dest),
    }
}

/// The destination resolved against the linking file's directory: parsed,
/// joined and normalized. `None` when it escapes the project root or names
/// no file.
pub open spec fn resolve_target_spec(cur: Seq<Seq<char>>, dest: Seq<char>) -> Option<
    Seq<Seq<char>>,
> {
    match normalize_spec(cur.drop_last(), split_slash(dest)) {
        Some(p) => if p.len() >= 1 {
            Some(p)
        } else {
            None
        },
        None => None,
    }
}

/// What the resolver returns for one destination: the rewritten string
/// exactly when the destination is markdown-suffixed and resolves to a
/// discovered source; otherwise the destination unchanged.
pub open spec fn resolve_spec(
    cur: Seq<Seq<char>>,
    dest: Seq<char>,
    sources: Set<Seq<Seq<char>>>,
) -> Seq<char> {
    if is_md_link_spec(dest) && (resolve_target_spec(cur, dest) matches Some(p)
        && sources.contains(p)) {
        rewrite_dest_spec(dest)
    } else {
        dest
    }
}

/// Whether the destination names an absolute web resource.
pub fn is_external(dest: &str) -> (r: bool)
    ensures
        r == is_external_spec(dest@),
{
    str_starts_with(dest, "http://") || str_starts_with(dest, "https://")
}

/// Whether the destination looks like a markdown file reference.
pub fn is_md_link(dest: &str) -> (r: bool)
    ensures
        r == is_md_link_spec(dest@),
{
    str_ends_with(dest, ".md")
}

/// Rewrites the file-name part of an authored destination through the path
/// mapping, keeping everything up to the last separator.
pub fn rewrite_dest(dest: &str) -> (r: String)
    ensures
        r@ == rewrite_dest_spec(dest@),
{
    let len = dest.unicode_len();
    match str_rfind(dest, '/') {
        Some(i) => {
            let prefix = dest.substring_char(0, i + 1);
            let name = dest.substring_char(i + 1, len);
            proof {
                lemma_last_index_in_range(dest@, '/');
                assert(prefix@ =~= dest@.take(i + 1));
                assert(name@ =~= dest@.skip(i + 1));
            }
            let mapped = html_file_name(name);
            let r = String::from_str(prefix);
            let r = r.concat(mapped.as_str());
            r
        },
        None => html_file_name(dest),
    }
}

/// Resolves a destination against the linking file's directory. `None`
/// when the destination escapes the project root or names no file.
pub fn resolve_target(cur: &RelPath, dest: &str) -> (r: Option<RelPath>)
    requires
        cur.wf(),
    ensures
        match r {
            Some(p) => resolve_target_spec(cur@, dest@) == Some(p@),
            None => resolve_target_spec(cur@, dest@) is None,
        },
{
    let n = cur.segments.len();
    proof {
        assert(cur@.len() == n);
    }
    let mut dir: Vec<String> = Vec::new();
    let mut i: usize = 0;
    while i < n - 1
        invariant
            n == cur.segments.len(),
            n >= 1,
            i <= n - 1,
            dir@ == cur.segments@.take(i as int),
        decreases n - 1 - i,
    {
        let seg = cur.segments[i].clone();
        dir.push(seg);
        proof {
            assert(dir@ =~= cur.segments@.take(i + 1));
        }
        i += 1;
    }
    proof {
        assert(dir.deep_view() =~= cur@.drop_last()) by {
            assert(dir@.len() == n - 1);
            assert forall|j: int| 0 <= j < n - 1 implies dir.deep_view()[j] == cur@.drop_last()[
                j
            ] by {
                assert(dir@[j] == cur.segments@[j]);
                assert(cur@[j] == cur.segments@[j].deep_view());
            }
        }
    }
    let parts = split_slash_exec(dest);
    match apply_segments(&dir, &parts) {
        None => None,
        Some(v) => {
            if v.len() == 0 {
                proof {
                    assert(v.deep_view().len() == 0);
                }
                None
            } else {
                proof {
                    assert(v.deep_view().len() >= 1);
                }
                Some(RelPath { segments: v })
            }
        },
    }
}

/// A markdown-suffixed link whose destination, resolved against the
/// linking file's directory, names a discovered source is rewritten to the
/// mapped HTML destination, relative to the directory it was authored in.
pub proof fn lemma_known_link_rewritten(
    cur: Seq<Seq<char>>,
    dest: Seq<char>,
    sources: Set<Seq<Seq<char>>>,
)
    requires
        is_md_link_spec(dest),
        resolve_target_spec(cur, dest) matches Some(p) && sources.contains(p),
    ensures
        resolve_spec(cur, dest, sources) == rewrite_dest_spec(dest),
{
}

/// A markdown-suffixed link whose destination does not resolve to a
/// discovered source — dangling, out of tree, or deliberately external — is
/// left exactly as authored.
pub proof fn lemma_unknown_link_unchanged(
    cur: Seq<Seq<char>>,
    dest: Seq<char>,
    sources: Set<Seq<Seq<char>>>,
)
    requires
        match resolve_target_spec(cur, dest) {
            Some(p) => !sources.contains(p),
            None => true,
        },
    ensures
        resolve_spec(cur, dest, sources) == dest,
{
}

/// A destination that is not markdown-suffixed is never rewritten.
pub proof fn lemma_non_md_link_unchanged(
    cur: Seq<Seq<char>>,
    dest: Seq<char>,
    sources: Set<Seq<Seq<char>>>,
)
    requires
        !is_md_link_spec(dest),
    ensures
        resolve_spec(cur, dest, sources) == dest,
{
}

/// Resolves one authored link destination: rewritten to the mapped HTML
/// path exactly when it is markdown-suffixed and, resolved against the
/// linking file's directory, names a discovered source; otherwise returned
/// unchanged.
pub fn resolve_link(cur: &RelPath, dest: &str, sources: &SourceSet) -> (r: String)
    requires
        cur.wf(),
    ensures
        r@ == resolve_spec(cur@, dest@, sources@),
{
    if is_md_link(dest) {
        match resolve_target(cur, dest) {
            Some(target) => {
                if sources.contains_path(&target) {
                    return rewrite_dest(dest);
                }
            },
            None => {},
        }
    }
    String::from_str(dest)
}

} // verus!
