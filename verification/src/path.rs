//! Project-relative, normalized paths and the source-to-destination path
//! mapping: a markdown source path maps to the HTML destination path with the
//! same directory, where a file named `readme.md` (compared
//! case-insensitively) becomes `index.html` and any other file keeps its stem.

use vstd::prelude::*;
use vstd::string::StrSliceExecFns;
use vstd::string::StringExecFns;

use crate::strutil::ascii_lower;
use crate::strutil::last_index_of;
use crate::strutil::lemma_last_index_in_range;
use crate::strutil::str_eq;
use crate::strutil::str_lower_eq;
use crate::strutil::str_rfind;

verus! {

/// A well-formed path segment: nonempty, no separator, and not one of the
/// relative components `.` or `..`.
pub open spec fn seg_wf(seg: Seq<char>) -> bool {
    &&& seg.len() > 0
    &&& !seg.contains('/')
    &&& seg != seq!['.']
    &&& seg != seq!['.', '.']
}

/// A well-formed relative file path: at least one segment, all well-formed.
/// The last segment is the file name.
pub open spec fn path_wf(p: Seq<Seq<char>>) -> bool {
    &&& p.len() >= 1
    &&& forall|i: int| 0 <= i < p.len() ==> seg_wf(#[trigger] p[i])
}

/// The file stem of a file name: everything before the last dot, unless the
/// last dot leads the name (or there is none), in which case the whole name.
pub open spec fn stem_of(name: Seq<char>) -> Seq<char> {
    match last_index_of(name, '.') {
        Some(i) => if i > 0 {
            name.take(i)
        } else {
            name
        },
        None => name,
    }
}

/// The destination file name for a source file name: `readme.md` in any
/// letter case becomes `index.html`; anything else keeps its stem and takes
/// the HTML extension.
pub open spec fn html_name_spec(name: Seq<char>) -> Seq<char> {
    if ascii_lower(name) == "readme.md"@ {
        "index.html"@
    } else {
        stem_of(name) + ".html"@
    }
}

/// The destination path for a source path: same directory, mapped file name.
pub open spec fn html_path_spec(p: Seq<Seq<char>>) -> Seq<Seq<char>> {
    p.drop_last().push(html_name_spec(p.last()))
}

/// A project-relative, normalized path: a nonempty sequence of well-formed
/// segments, the last of which is the file name.
pub struct RelPath {
    pub segments: Vec<String>,
}

impl View for RelPath {
    type V = Seq<Seq<char>>;

    open spec fn view(&self) -> Seq<Seq<char>> {
        self.segments.deep_view()
    }
}

impl DeepView for RelPath {
    type V = Seq<Seq<char>>;

    open spec fn deep_view(&self) -> Seq<Seq<char>> {
        self.view()
    }
}

impl RelPath {
    /// Well-formedness of the represented path.
    pub open spec fn wf(&self) -> bool {
        path_wf(self@)
    }

    /// Structural equality of two paths.
    pub fn eq_path(&self, other: &RelPath) -> (r: bool)
        ensures
            r == (self@ == other@),
    {
        let n = self.segments.len();
        if n != other.segments.len() {
            proof {
                assert(self@.len() == n);
                assert(other@.len() == other.segments.len());
            }
            return false;
        }
        let mut i: usize = 0;
        while i < n
            invariant
                n == self.segments.len(),
                n == other.segments.len(),
                i <= n,
                forall|j: int| 0 <= j < i ==> self@[j] == other@[j],
            decreases n - i,
        {
            if !str_eq(self.segments[i].as_str(), other.segments[i].as_str()) {
                proof {
                    assert(self@[i as int] != other@[i as int]);
                }
                return false;
            }
            i += 1;
        }
        proof {
            assert(self@ =~= other@);
        }
        true
    }

    /// Renders the path with `/` separators.
    pub fn to_string(&self) -> (r: String)
        requires
            self.wf(),
        ensures
            r@ == join_spec(self@),
    {
        let mut out = String::new();
        let n = self.segments.len();
        let mut i: usize = 0;
        while i < n
            invariant
                n == self.segments.len(),
                i <= n,
                out@ == join_prefix_spec(self@, i as int),
            decreases n - i,
        {
            if i > 0 {
                out.append("/");
                proof {
                    reveal_strlit("/");
                    assert("/"@ =~= seq!['/']);
                }
            }
            out.append(self.segments[i].as_str());
            i += 1;
        }
        proof {
            assert(self@.len() == n);
        }
        out
    }
}

/// The path's segments joined by `/`.
pub open spec fn join_spec(p: Seq<Seq<char>>) -> Seq<char> {
    join_prefix_spec(p, p.len() as int)
}

/// The first `n` segments joined by `/`.
pub open spec fn join_prefix_spec(p: Seq<Seq<char>>, n: int) -> Seq<char>
    decreases n,
{
    if n <= 0 {
        Seq::empty()
    } else if n == 1 {
        p[0]
    } else {
        join_prefix_spec(p, n - 1) + seq!['/'] + p[n - 1]
    }
}

/// The file stem of a file name: everything before the last dot, unless
/// the last dot leads the name or there is none.
pub fn file_stem(name: &str) -> (r: &str)
    ensures
        r@ == stem_of(name@),
{
    let dot = str_rfind(name, '.');
    match dot {
        Some(d) => if d > 0 {
            let s = name.substring_char(0, d);
            proof {
                assert(s@ =~= stem_of(name@)) by {
                    assert(name@.subrange(0, d as int) =~= name@.take(d as int));
                }
            }
            s
        } else {
            name
        },
        None => name,
    }
}

/// The destination file name for a source file name, executable form.
pub fn html_file_name(name: &str) -> (r: String)
    ensures
        r@ == html_name_spec(name@),
{
    if str_lower_eq(name, "readme.md") {
        let r = String::from_str("index.html");
        return r;
    }
    let stem = file_stem(name);
    let r = String::from_str(stem);
    let r = r.concat(".html");
    r
}

/// Every mapped file name ends in the HTML extension.
pub proof fn lemma_html_name_ends_html(name: Seq<char>)
    ensures
        crate::strutil::ends_with_spec(html_name_spec(name), ".html"@),
{
    reveal_strlit("index.html");
    reveal_strlit(".html");
    let r = html_name_spec(name);
    if ascii_lower(name) == "readme.md"@ {
        assert(r.subrange(r.len() - 5, r.len() as int) =~= ".html"@);
    } else {
        assert(r == stem_of(name) + ".html"@);
        assert(r.subrange(r.len() - 5, r.len() as int) =~= ".html"@);
    }
}

/// Maps a discovered markdown source path to its HTML destination path:
/// the directory is kept, `readme.md` (any letter case) becomes
/// `index.html`, and any other file name keeps its stem and takes the HTML
/// extension.
///
/// A directory holding both a `README.md` and a literal `index.md` collides
/// at `index.html`: the mapping claims no uniqueness of destinations, the
/// collision is deliberately left unresolved, and at write time the later
/// of the two outputs wins.
pub fn make_html_path(md_path: &RelPath) -> (r: RelPath)
    requires
        md_path.wf(),
    ensures
        r@ == html_path_spec(md_path@),
        r.wf(),
{
    let n = md_path.segments.len();
    proof {
        assert(md_path@.len() == n);
    }
    let mut segs: Vec<String> = Vec::new();
    let mut i: usize = 0;
    while i < n - 1
        invariant
            n == md_path.segments.len(),
            n == md_path@.len(),
            n >= 1,
            i <= n - 1,
            segs@ == md_path.segments@.take(i as int),
        decreases n - 1 - i,
    {
        let ghost pre = segs@;
        let seg = md_path.segments[i].clone();
        segs.push(seg);
        proof {
            assert(segs@ =~= md_path.segments@.take(i + 1));
        }
        i += 1;
    }
    let name = html_file_name(md_path.segments[n - 1].as_str());
    segs.push(name);
    let r = RelPath { segments: segs };
    proof {
        assert(segs@.len() == n);
        assert forall|j: int| 0 <= j < n implies r@[j] == html_path_spec(md_path@)[j] by {
            assert(r@[j] == segs@[j].deep_view());
            assert(md_path@[j] == md_path.segments@[j].deep_view());
            if j < n - 1 {
                assert(segs@[j] == md_path.segments@[j]);
                assert(md_path@.drop_last()[j] == md_path@[j]);
            } else {
                assert(segs@[j] == name);
                assert(md_path@.last() == md_path@[n - 1]);
            }
        }
        assert(r@ =~= html_path_spec(md_path@));
        lemma_html_name_wf(md_path@.last());
        assert forall|j: int| 0 <= j < r@.len() implies seg_wf(#[trigger] r@[j]) by {
            if j < n - 1 {
                assert(r@[j] == md_path@[j]);
            }
        }
    }
    r
}

/// The mapped file name of a well-formed segment is itself well-formed.
proof fn lemma_html_name_wf(name: Seq<char>)
    requires
        seg_wf(name),
    ensures
        seg_wf(html_name_spec(name)),
{
    reveal_strlit("index.html");
    reveal_strlit(".html");
    if ascii_lower(name) == "readme.md"@ {
        assert(seg_wf("index.html"@)) by {
            assert("index.html"@.len() == 10);
            assert(forall|i: int| 0 <= i < 10 ==> "index.html"@[i] != '/');
            assert(!"index.html"@.contains('/'));
        }
    } else {
        let stem = stem_of(name);
        let r = stem + ".html"@;
        assert(stem.len() >= 1) by {
            lemma_last_index_in_range(name, '.');
        }
        assert(r.len() >= 6);
        assert(!r.contains('/')) by {
            lemma_last_index_in_range(name, '.');
            assert(forall|i: int| 0 <= i < stem.len() ==> stem[i] == name[i]);
            assert forall|i: int| 0 <= i < r.len() implies r[i] != '/' by {
                if i < stem.len() {
                    assert(stem[i] == name[i]);
                    assert(!name.contains('/'));
                    assert(name[i] != '/') by {
                        if name[i] == '/' {
                            assert(name.contains('/'));
                        }
                    }
                } else {
                    assert(r[i] == ".html"@[i - stem.len()]);
                }
            }
            if r.contains('/') {
                let i = choose|i: int| 0 <= i < r.len() && r[i] == '/';
                assert(r[i] != '/');
            }
        }
        assert(r != seq!['.'] && r != seq!['.', '.']) by {
            assert(r.len() >= 6);
        }
    }
}

/// The pieces of `s` from `from` on, split at each `/`.
pub open spec fn split_from(s: Seq<char>, from: int) -> Seq<Seq<char>>
    decreases s.len() + 1 - from via split_from_decreases
{
    if from < 0 || from > s.len() {
        Seq::empty()
    } else {
        match crate::strutil::find_spec(s, seq!['/'], from) {
            None => seq![s.subrange(from, s.len() as int)],
            Some(i) => seq![s.subrange(from, i)] + split_from(s, i + 1),
        }
    }
}

#[via_fn]
proof fn split_from_decreases(s: Seq<char>, from: int) {
    if 0 <= from <= s.len() {
        crate::strutil::lemma_find_spec_props(s, seq!['/'], from);
    }
}

/// The pieces of `s` split at each `/`.
pub open spec fn split_slash(s: Seq<char>) -> Seq<Seq<char>> {
    split_from(s, 0)
}

/// Logical path normalization, folding raw pieces onto a base path: empty
/// and `.` pieces are dropped, `..` pops a segment (failing when there is
/// nothing left to pop, since such a path escapes the project root), and any
/// other piece is appended.
pub open spec fn normalize_spec(base: Seq<Seq<char>>, raw: Seq<Seq<char>>) -> Option<
    Seq<Seq<char>>,
>
    decreases raw.len(),
{
    if raw.len() == 0 {
        Some(base)
    } else {
        let seg = raw[0];
        let rest = raw.drop_first();
        if seg.len() == 0 || seg == seq!['.'] {
            normalize_spec(base, rest)
        } else if seg == seq!['.', '.'] {
            if base.len() == 0 {
                None
            } else {
                normalize_spec(base.drop_last(), rest)
            }
        } else {
            normalize_spec(base.push(seg), rest)
        }
    }
}

/// A relative path string parsed and normalized against an empty base; the
/// result must name a file, so an empty result is rejected too.
pub open spec fn parse_path_spec(s: Seq<char>) -> Option<Seq<Seq<char>>> {
    match normalize_spec(Seq::empty(), split_slash(s)) {
        Some(p) => if p.len() >= 1 {
            Some(p)
        } else {
            None
        },
        None => None,
    }
}

/// Splits a string at each `/`.
pub fn split_slash_exec(s: &str) -> (parts: Vec<String>)
    ensures
        parts.deep_view() == split_slash(s@),
{
    let len = s.unicode_len();
    let mut parts: Vec<String> = Vec::new();
    let mut start: usize = 0;
    proof {
        reveal_strlit("/");
        assert("/"@ =~= seq!['/']);
    }
    loop
        invariant_except_break
            len == s@.len(),
            start <= len,
            split_slash(s@) == parts.deep_view() + split_from(s@, start as int),
        ensures
            parts.deep_view() == split_slash(s@),
        decreases len + 1 - start,
    {
        proof {
            reveal_strlit("/");
            assert("/"@ =~= seq!['/']);
        }
        match crate::strutil::str_find_from(s, "/", start) {
            None => {
                let piece = s.substring_char(start, len);
                let ghost pre = parts.deep_view();
                parts.push(String::from_str(piece));
                proof {
                    assert(split_from(s@, start as int) =~= seq![
                        s@.subrange(start as int, len as int),
                    ]);
                    assert(parts.deep_view() =~= pre + split_from(s@, start as int));
                    assert(parts.deep_view() =~= split_slash(s@));
                }
                break ;
            },
            Some(i) => {
                proof {
                    crate::strutil::lemma_find_spec_props(s@, seq!['/'], start as int);
                }
                let piece = s.substring_char(start, i);
                let ghost pre = parts.deep_view();
                parts.push(String::from_str(piece));
                proof {
                    assert(parts.deep_view() =~= pre + seq![s@.subrange(start as int, i as int)]);
                    assert(split_slash(s@) == parts.deep_view() + split_from(s@, i + 1)) by {
                        assert(split_from(s@, start as int) == seq![
                            s@.subrange(start as int, i as int),
                        ] + split_from(s@, i + 1));
                        assert(pre + (seq![s@.subrange(start as int, i as int)] + split_from(
                            s@,
                            i + 1,
                        )) =~= (pre + seq![s@.subrange(start as int, i as int)]) + split_from(
                            s@,
                            i + 1,
                        ));
                    }
                }
                start = i + 1;
            },
        }
    }
    parts
}

/// Folds raw path pieces onto a base path, normalizing as it goes; `None`
/// means the path escapes the root.
pub fn apply_segments(base: &Vec<String>, parts: &Vec<String>) -> (r: Option<Vec<String>>)
    ensures
        match r {
            Some(v) => normalize_spec(base.deep_view(), parts.deep_view()) == Some(v.deep_view()),
            None => normalize_spec(base.deep_view(), parts.deep_view()) is None,
        },
{
    let ghost base0 = base.deep_view();
    let ghost raw = parts.deep_view();
    let mut acc: Vec<String> = Vec::new();
    let m = base.len();
    let mut i: usize = 0;
    while i < m
        invariant
            m == base.len(),
            i <= m,
            acc@ == base@.take(i as int),
        decreases m - i,
    {
        let seg = base[i].clone();
        acc.push(seg);
        proof {
            assert(acc@ =~= base@.take(i + 1));
        }
        i += 1;
    }
    proof {
        assert(acc@ =~= base@);
        assert(acc.deep_view() =~= base.deep_view());
    }
    let n = parts.len();
    let mut k: usize = 0;
    proof {
        assert(raw.skip(0) =~= raw);
    }
    while k < n
        invariant
            n == parts.len(),
            raw == parts.deep_view(),
            base0 == base.deep_view(),
            raw.len() == n,
            k <= n,
            normalize_spec(base0, raw) == normalize_spec(acc.deep_view(), raw.skip(k as int)),
        decreases n - k,
    {
        let ghost acc_pre = acc.deep_view();
        proof {
            assert(raw.skip(k as int)[0] == raw[k as int]);
            assert(raw.skip(k as int).drop_first() =~= raw.skip(k + 1));
            assert(parts.deep_view()[k as int] == parts@[k as int].deep_view());
        }
        let seg = &parts[k];
        let is_dot = str_eq(seg.as_str(), ".");
        let is_dotdot = str_eq(seg.as_str(), "..");
        proof {
            reveal_strlit(".");
            reveal_strlit("..");
            assert("."@ =~= seq!['.']);
            assert(".."@ =~= seq!['.', '.']);
        }
        if seg.unicode_len() == 0 || is_dot {
            proof {
                assert(normalize_spec(acc_pre, raw.skip(k as int)) == normalize_spec(
                    acc_pre,
                    raw.skip(k + 1),
                ));
            }
        } else if is_dotdot {
            if acc.len() == 0 {
                proof {
                    assert(acc.deep_view().len() == acc@.len());
                    assert(acc_pre.len() == 0);
                    assert(normalize_spec(acc_pre, raw.skip(k as int)) is None);
                }
                return None;
            }
            acc.pop();
            proof {
                assert(acc.deep_view() =~= acc_pre.drop_last());
            }
        } else {
            let s2 = seg.clone();
            acc.push(s2);
            proof {
                assert(acc.deep_view() =~= acc_pre.push(raw[k as int]));
            }
        }
        k += 1;
    }
    proof {
        assert(raw.skip(n as int) =~= Seq::<Seq<char>>::empty());
    }
    Some(acc)
}

/// Pieces produced by splitting contain no separator.
pub proof fn lemma_split_no_slash(s: Seq<char>, from: int)
    requires
        0 <= from,
    ensures
        forall|k: int|
            0 <= k < split_from(s, from).len() ==> !(#[trigger] split_from(s, from)[k]).contains(
                '/',
            ),
    decreases s.len() + 1 - from,
{
    if from > s.len() {
    } else {
        crate::strutil::lemma_find_spec_props(s, seq!['/'], from);
        match crate::strutil::find_spec(s, seq!['/'], from) {
            None => {
                let piece = s.subrange(from, s.len() as int);
                assert(!piece.contains('/')) by {
                    assert forall|j: int| 0 <= j < piece.len() implies piece[j] != '/' by {
                        assert(!crate::strutil::occurs_at(s, seq!['/'], from + j));
                        if piece[j] == '/' {
                            assert(s.subrange(from + j, from + j + 1) =~= seq!['/']);
                        }
                    }
                    if piece.contains('/') {
                        let j = choose|j: int| 0 <= j < piece.len() && piece[j] == '/';
                        assert(piece[j] != '/');
                    }
                }
            },
            Some(i) => {
                lemma_split_no_slash(s, i + 1);
                let piece = s.subrange(from, i);
                assert(!piece.contains('/')) by {
                    assert forall|j: int| 0 <= j < piece.len() implies piece[j] != '/' by {
                        assert(!crate::strutil::occurs_at(s, seq!['/'], from + j));
                        if piece[j] == '/' {
                            assert(s.subrange(from + j, from + j + 1) =~= seq!['/']);
                        }
                    }
                    if piece.contains('/') {
                        let j = choose|j: int| 0 <= j < piece.len() && piece[j] == '/';
                        assert(piece[j] != '/');
                    }
                }
                assert forall|k: int| 0 <= k < split_from(s, from).len() implies !(
                #[trigger] split_from(s, from)[k]).contains('/') by {
                    if k == 0 {
                        assert(split_from(s, from)[0] == piece);
                    } else {
                        assert(split_from(s, from)[k] == split_from(s, i + 1)[k - 1]);
                    }
                }
            },
        }
    }
}

/// Segments of a normalized path are well-formed, provided the base's are
/// and no raw piece contains a separator.
pub proof fn lemma_normalize_wf(base: Seq<Seq<char>>, raw: Seq<Seq<char>>)
    requires
        forall|i: int| 0 <= i < base.len() ==> seg_wf(#[trigger] base[i]),
        forall|k: int| 0 <= k < raw.len() ==> !(#[trigger] raw[k]).contains('/'),
    ensures
        normalize_spec(base, raw) matches Some(p) ==> forall|i: int|
            0 <= i < p.len() ==> seg_wf(#[trigger] p[i]),
    decreases raw.len(),
{
    if raw.len() == 0 {
    } else {
        let seg = raw[0];
        let rest = raw.drop_first();
        assert(forall|k: int| 0 <= k < rest.len() ==> rest[k] == raw[k + 1]);
        if seg.len() == 0 || seg == seq!['.'] {
            lemma_normalize_wf(base, rest);
        } else if seg == seq!['.', '.'] {
            if base.len() > 0 {
                assert(forall|i: int|
                    0 <= i < base.drop_last().len() ==> base.drop_last()[i] == base[i]);
                lemma_normalize_wf(base.drop_last(), rest);
            }
        } else {
            assert(seg_wf(seg));
            assert(forall|i: int| 0 <= i < base.push(seg).len() ==> seg_wf(#[trigger] base.push(
                seg,
            )[i])) by {
                assert(forall|i: int| 0 <= i < base.len() ==> base.push(seg)[i] == base[i]);
                assert(base.push(seg)[base.len() as int] == seg);
            }
            lemma_normalize_wf(base.push(seg), rest);
        }
    }
}

/// Parses a relative path string and normalizes it; `None` when the string
/// does not name a file inside the root.
pub fn parse_rel_path(s: &str) -> (r: Option<RelPath>)
    ensures
        match r {
            Some(p) => parse_path_spec(s@) == Some(p@) && p.wf(),
            None => parse_path_spec(s@) is None,
        },
{
    let parts = split_slash_exec(s);
    let base: Vec<String> = Vec::new();
    proof {
        assert(base.deep_view() =~= Seq::<Seq<char>>::empty());
    }
    match apply_segments(&base, &parts) {
        None => None,
        Some(v) => {
            if v.len() == 0 {
                proof {
                    assert(v.deep_view().len() == 0);
                }
                None
            } else {
                let p = RelPath { segments: v };
                proof {
                    lemma_split_no_slash(s@, 0);
                    lemma_normalize_wf(Seq::empty(), split_slash(s@));
                    assert(p@.len() >= 1);
                }
                Some(p)
            }
        },
    }
}

/// Path mapping is deterministic: equal source paths map to equal
/// destination paths; the mapping depends on nothing but the source path.
pub proof fn lemma_map_deterministic(p1: Seq<Seq<char>>, p2: Seq<Seq<char>>)
    requires
        p1 == p2,
    ensures
        html_path_spec(p1) == html_path_spec(p2),
{
}

/// In any directory, a file named `readme.md` in any letter case maps to
/// `index.html` in the same directory.
pub proof fn lemma_readme_maps_to_index(p: Seq<Seq<char>>)
    requires
        path_wf(p),
        ascii_lower(p.last()) == "readme.md"@,
    ensures
        html_path_spec(p) == p.drop_last().push("index.html"@),
{
}

/// In any directory, a file whose name is not `readme.md` (in any letter
/// case) maps to the same stem with the HTML extension, in the same
/// directory.
pub proof fn lemma_regular_maps_to_stem(p: Seq<Seq<char>>)
    requires
        path_wf(p),
        ascii_lower(p.last()) != "readme.md"@,
    ensures
        html_path_spec(p) == p.drop_last().push(stem_of(p.last()) + ".html"@),
{
}

} // verus!
