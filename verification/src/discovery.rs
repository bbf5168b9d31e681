//! Discovery decisions: which walked entries are excluded by a directory
//! prefix, which file names carry the markdown extension, and the set of
//! discovered source paths.

use vstd::prelude::*;
use vstd::string::StrSliceExecFns;

use crate::path::path_wf;
use crate::path::RelPath;
use crate::strutil::ends_with_spec;
use crate::strutil::last_index_of;
use crate::strutil::lemma_last_index_in_range;
use crate::strutil::str_rfind;
use crate::strutil::starts_with_spec;
use crate::strutil::str_eq;
use crate::strutil::str_ends_with;
use crate::strutil::str_starts_with;

verus! {

/// `path` lies at or under the directory `prefix`: it equals the prefix or
/// continues it across a separator.
pub open spec fn prefix_matches(path: Seq<char>, prefix: Seq<char>) -> bool {
    path == prefix || starts_with_spec(path, prefix + seq!['/'])
}

/// Some configured prefix covers `path`.
pub open spec fn excluded_spec(path: Seq<char>, prefixes: Seq<Seq<char>>) -> bool {
    exists|i: int| 0 <= i < prefixes.len() && prefix_matches(path, #[trigger] prefixes[i])
}

/// The file name of a path string: everything after the last separator.
pub open spec fn file_name_of(path: Seq<char>) -> Seq<char> {
    match last_index_of(path, '/') {
        Some(i) => path.skip(i + 1),
        None => path,
    }
}

/// The file name carries the markdown extension: it ends in `.md` with a
/// nonempty stem before the dot, matched case-sensitively.
pub open spec fn has_md_ext_spec(path: Seq<char>) -> bool {
    let name = file_name_of(path);
    name.len() > 3 && ends_with_spec(name, ".md"@)
}

/// Whether `path` lies at or under the directory `prefix`.
pub fn is_under_prefix(path: &str, prefix: &str) -> (r: bool)
    ensures
        r == prefix_matches(path@, prefix@),
{
    if str_eq(path, prefix) {
        return true;
    }
    let p_len = prefix.unicode_len();
    let len = path.unicode_len();
    if p_len >= len {
        proof {
            assert(!starts_with_spec(path@, prefix@ + seq!['/'])) by {
                assert((prefix@ + seq!['/']).len() > path@.len());
            }
        }
        return false;
    }
    let r = str_starts_with(path, prefix) && path.get_char(p_len) == '/';
    proof {
        let ext = prefix@ + seq!['/'];
        if r {
            assert(starts_with_spec(path@, ext)) by {
                assert(path@.subrange(0, prefix@.len() as int) == prefix@);
                assert forall|j: int| 0 <= j < ext.len() implies path@.subrange(
                    0,
                    ext.len() as int,
                )[j] == ext[j] by {
                    if j < prefix@.len() {
                        assert(path@.subrange(0, prefix@.len() as int)[j] == path@[j]);
                    }
                }
                assert(path@.subrange(0, ext.len() as int) =~= ext);
            }
        } else {
            if starts_with_spec(path@, ext) {
                assert(path@.subrange(0, ext.len() as int) == ext);
                assert forall|j: int| 0 <= j < prefix@.len() implies path@.subrange(
                    0,
                    prefix@.len() as int,
                )[j] == prefix@[j] by {
                    assert(path@.subrange(0, ext.len() as int)[j] == ext[j]);
                }
                assert(path@.subrange(0, prefix@.len() as int) =~= prefix@);
                assert(path@[p_len as int] == ext[p_len as int]);
                assert(false);
            }
        }
    }
    r
}

/// Whether some configured prefix covers `path`.
pub fn is_excluded(path: &str, prefixes: &Vec<String>) -> (r: bool)
    ensures
        r == excluded_spec(path@, prefixes.deep_view()),
{
    let n = prefixes.len();
    let mut i: usize = 0;
    while i < n
        invariant
            n == prefixes.len(),
            i <= n,
            forall|j: int|
                0 <= j < i ==> !prefix_matches(path@, #[trigger] prefixes.deep_view()[j]),
        decreases n - i,
    {
        proof {
            assert(prefixes.deep_view()[i as int] == prefixes@[i as int]@);
        }
        if is_under_prefix(path, prefixes[i].as_str()) {
            return true;
        }
        i += 1;
    }
    proof {
        assert(prefixes.deep_view().len() == n);
    }
    false
}

/// Whether the path's file name carries the markdown extension.
pub fn has_md_extension(path: &str) -> (r: bool)
    ensures
        r == has_md_ext_spec(path@),
{
    let len = path.unicode_len();
    let slash = str_rfind(path, '/');
    let name: &str = match slash {
        Some(d) => {
            proof {
                lemma_last_index_in_range(path@, '/');
            }
            let s = path.substring_char(d + 1, len);
            proof {
                assert(s@ =~= file_name_of(path@));
            }
            s
        },
        None => path,
    };
    let name_len = name.unicode_len();
    if name_len <= 3 {
        return false;
    }
    proof {
        reveal_strlit(".md");
    }
    str_ends_with(name, ".md")
}

/// The set of discovered markdown source paths: unique, well-formed,
/// project-relative normalized paths.
pub struct SourceSet {
    pub paths: Vec<RelPath>,
}

impl View for SourceSet {
    type V = Set<Seq<Seq<char>>>;

    open spec fn view(&self) -> Set<Seq<Seq<char>>> {
        self.paths.deep_view().to_set()
    }
}

impl SourceSet {
    /// Every member is well-formed, and no path occurs twice.
    pub open spec fn wf(&self) -> bool {
        &&& forall|i: int|
            0 <= i < self.paths.deep_view().len() ==> path_wf(#[trigger] self.paths.deep_view()[i])
        &&& forall|i: int, j: int|
            0 <= i < j < self.paths.deep_view().len() ==> self.paths.deep_view()[i]
                != self.paths.deep_view()[j]
    }

    /// The empty set.
    pub fn new() -> (r: SourceSet)
        ensures
            r@ == Set::<Seq<Seq<char>>>::empty(),
            r.wf(),
    {
        let r = SourceSet { paths: Vec::new() };
        proof {
            assert(r.paths.deep_view().len() == 0);
            assert(r@ =~= Set::<Seq<Seq<char>>>::empty());
        }
        r
    }

    /// Membership test.
    pub fn contains_path(&self, p: &RelPath) -> (r: bool)
        ensures
            r == self@.contains(p@),
    {
        let n = self.paths.len();
        let mut i: usize = 0;
        while i < n
            invariant
                n == self.paths.len(),
                i <= n,
                forall|j: int| 0 <= j < i ==> #[trigger] self.paths.deep_view()[j] != p@,
            decreases n - i,
        {
            proof {
                assert(self.paths.deep_view()[i as int] == self.paths@[i as int].deep_view());
            }
            if self.paths[i].eq_path(p) {
                proof {
                    assert(self.paths.deep_view().contains(p@)) by {
                        assert(self.paths.deep_view()[i as int] == p@);
                    }
                }
                return true;
            }
            i += 1;
        }
        proof {
            assert(self.paths.deep_view().len() == n);
            if self.paths.deep_view().contains(p@) {
                let j = choose|j: int|
                    0 <= j < self.paths.deep_view().len() && self.paths.deep_view()[j] == p@;
                assert(self.paths.deep_view()[j] != p@);
            }
        }
        false
    }

    /// Adds a path; a path already present is not duplicated.
    pub fn insert(&mut self, p: RelPath)
        requires
            old(self).wf(),
            p.wf(),
        ensures
            final(self).wf(),
            final(self)@ == old(self)@.insert(p@),
    {
        if self.contains_path(&p) {
            proof {
                assert(self@ =~= old(self)@.insert(p@));
            }
            return ;
        }
        let ghost pre = self.paths.deep_view();
        let ghost pv = p@;
        self.paths.push(p);
        proof {
            assert(self.paths.deep_view() =~= pre.push(pv)) by {
                assert(self.paths@.len() == pre.len() + 1);
                assert forall|j: int| 0 <= j < pre.len() + 1 implies self.paths.deep_view()[j]
                    == pre.push(pv)[j] by {
                    if j < pre.len() {
                        assert(self.paths@[j] == old(self).paths@[j]);
                    }
                }
            }
            assert(self@ =~= old(self)@.insert(pv)) by {
                assert forall|x: Seq<Seq<char>>| #[trigger]
                    self@.contains(x) implies old(self)@.insert(pv).contains(x) by {
                    let j = choose|j: int|
                        0 <= j < pre.push(pv).len() && pre.push(pv)[j] == x;
                    if j < pre.len() {
                        assert(pre[j] == x);
                    }
                }
                assert forall|x: Seq<Seq<char>>| #[trigger]
                    old(self)@.insert(pv).contains(x) implies self@.contains(x) by {
                    if x == pv {
                        assert(pre.push(pv)[pre.len() as int] == pv);
                    } else {
                        let j = choose|j: int| 0 <= j < pre.len() && pre[j] == x;
                        assert(pre.push(pv)[j] == x);
                    }
                }
            }
            assert(self.wf()) by {
                assert(!pre.contains(pv));
                assert forall|i: int, j: int|
                    0 <= i < j < self.paths.deep_view().len() implies self.paths.deep_view()[i]
                    != self.paths.deep_view()[j] by {
                    if j == pre.len() {
                        if self.paths.deep_view()[i] == pv {
                            assert(pre[i] == pv);
                            assert(pre.contains(pv));
                        }
                    }
                }
            }
        }
    }
}

/// A walked entry becomes a source exactly when no excluded prefix covers
/// it and its file name carries the markdown extension.
pub open spec fn selected_spec(e: Seq<char>, prefixes: Seq<Seq<char>>) -> bool {
    !excluded_spec(e, prefixes) && has_md_ext_spec(e)
}

/// Builds the discovered set from the walked entry paths: every selected
/// entry, normalized, exactly once. `Err(i)` reports the first selected
/// entry whose path cannot be normalized to a file inside the root; the
/// run aborts rather than discover a partial set.
pub fn collect_sources(entries: &Vec<String>, prefixes: &Vec<String>) -> (r: Result<
    SourceSet,
    usize,
>)
    ensures
        match r {
            Ok(s) => s.wf() && (forall|i: int|
                0 <= i < entries.deep_view().len() && selected_spec(
                    #[trigger] entries.deep_view()[i],
                    prefixes.deep_view(),
                ) ==> crate::path::parse_path_spec(entries.deep_view()[i]) is Some) && s@
                == Set::new(
                |p: Seq<Seq<char>>|
                    exists|i: int|
                        0 <= i < entries.deep_view().len() && selected_spec(
                            #[trigger] entries.deep_view()[i],
                            prefixes.deep_view(),
                        ) && crate::path::parse_path_spec(entries.deep_view()[i]) == Some(p),
            ),
            Err(i) => i < entries.deep_view().len() && selected_spec(
                entries.deep_view()[i as int],
                prefixes.deep_view(),
            ) && crate::path::parse_path_spec(entries.deep_view()[i as int]) is None,
        },
{
    let ghost es = entries.deep_view();
    let ghost pre = prefixes.deep_view();
    let n = entries.len();
    let mut sources = SourceSet::new();
    let mut i: usize = 0;
    while i < n
        invariant
            n == entries.len(),
            es == entries.deep_view(),
            pre == prefixes.deep_view(),
            es.len() == n,
            i <= n,
            sources.wf(),
            forall|j: int|
                0 <= j < i && selected_spec(#[trigger] es[j], pre)
                    ==> crate::path::parse_path_spec(es[j]) is Some,
            sources@ == Set::new(
                |p: Seq<Seq<char>>|
                    exists|j: int|
                        0 <= j < i && selected_spec(#[trigger] es[j], pre)
                            && crate::path::parse_path_spec(es[j]) == Some(p),
            ),
        decreases n - i,
    {
        let ghost set_pre = sources@;
        let entry = entries[i].as_str();
        proof {
            assert(entry@ == es[i as int]);
        }
        if !is_excluded(entry, prefixes) && has_md_extension(entry) {
            match crate::path::parse_rel_path(entry) {
                Some(p) => {
                    let ghost pv = p@;
                    sources.insert(p);
                    proof {
                        assert(sources@ =~= Set::new(
                            |q: Seq<Seq<char>>|
                                exists|j: int|
                                    0 <= j < i + 1 && selected_spec(#[trigger] es[j], pre)
                                        && crate::path::parse_path_spec(es[j]) == Some(q),
                        )) by {
                            assert forall|q: Seq<Seq<char>>| #[trigger]
                                sources@.contains(q) implies exists|j: int|
                                0 <= j < i + 1 && selected_spec(#[trigger] es[j], pre)
                                    && crate::path::parse_path_spec(es[j]) == Some(q) by {
                                if q == pv {
                                    assert(selected_spec(es[i as int], pre)
                                        && crate::path::parse_path_spec(es[i as int]) == Some(q));
                                } else {
                                    assert(set_pre.contains(q));
                                }
                            }
                            assert forall|q: Seq<Seq<char>>|
                                (exists|j: int|
                                    0 <= j < i + 1 && selected_spec(#[trigger] es[j], pre)
                                        && crate::path::parse_path_spec(es[j]) == Some(
                                        q,
                                    )) implies #[trigger] sources@.contains(q) by {
                                let j = choose|j: int|
                                    0 <= j < i + 1 && selected_spec(#[trigger] es[j], pre)
                                        && crate::path::parse_path_spec(es[j]) == Some(q);
                                if j < i {
                                    assert(set_pre.contains(q));
                                }
                            }
                        }
                    }
                },
                None => {
                    return Err(i);
                },
            }
        } else {
            proof {
                assert(sources@ =~= Set::new(
                    |q: Seq<Seq<char>>|
                        exists|j: int|
                            0 <= j < i + 1 && selected_spec(#[trigger] es[j], pre)
                                && crate::path::parse_path_spec(es[j]) == Some(q),
                )) by {
                    assert forall|q: Seq<Seq<char>>|
                        (exists|j: int|
                            0 <= j < i + 1 && selected_spec(#[trigger] es[j], pre)
                                && crate::path::parse_path_spec(es[j]) == Some(
                                q,
                            )) implies #[trigger] sources@.contains(q) by {
                        let j = choose|j: int|
                            0 <= j < i + 1 && selected_spec(#[trigger] es[j], pre)
                                && crate::path::parse_path_spec(es[j]) == Some(q);
                        assert(j < i);
                    }
                }
            }
        }
        i += 1;
    }
    proof {
        assert(sources@ =~= Set::new(
            |p: Seq<Seq<char>>|
                exists|j: int|
                    0 <= j < es.len() && selected_spec(#[trigger] es[j], pre)
                        && crate::path::parse_path_spec(es[j]) == Some(p),
        ));
    }
    Ok(sources)
}

} // verus!
