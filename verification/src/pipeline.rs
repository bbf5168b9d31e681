//! The generation pipeline: from discovered sources and their contents to
//! one HTML document per source. Tokenization and rendering are the outside
//! parser's work; everything decided here — the discovered set, each file's
//! destination, the transformed stream, the page shell — is verified.

use vstd::prelude::*;
use vstd::string::StringExecFns;

use crate::discovery::SourceSet;
use crate::events::parse_markdown;
use crate::events::parses_to;
use crate::events::render_events;
use crate::events::rendered;
use crate::events::EventView;
use crate::events::MdEvent;
use crate::path::html_path_spec;
use crate::path::lemma_html_name_ends_html;
use crate::path::make_html_path;
use crate::path::stem_of;
use crate::path::RelPath;
use crate::template::html_page;
use crate::template::is_index_spec;
use crate::template::page_spec;
use crate::transform::deco_view;
use crate::transform::transform_events;
use crate::transform::transform_spec;
use crate::transform::Decoration;

verus! {

/// Text decoration tied to the one page it applies to.
pub struct PageDecoration {
    pub page: RelPath,
    pub deco: Decoration,
}

/// The pipeline's configuration: the optional distinguished page whose text
/// runs are decorated, and the optional illustrative image block rendered
/// before the fragment on index pages.
pub struct Config {
    pub decorated_page: Option<PageDecoration>,
    pub index_image: Option<String>,
}

impl Config {
    pub open spec fn wf(&self) -> bool {
        match self.decorated_page {
            Some(pd) => pd.page.wf() && pd.deco.wf(),
            None => true,
        }
    }
}

/// The decoration in force for one source file: the configured one exactly
/// when the file is the distinguished page.
pub open spec fn active_deco_spec(cfg: Config, src: Seq<Seq<char>>) -> Option<
    (Seq<char>, Seq<char>),
> {
    match cfg.decorated_page {
        Some(pd) => if pd.page@ == src {
            Some((pd.deco.literal@, pd.deco.fragment@))
        } else {
            None
        },
        None => None,
    }
}

/// The configured index image as a spec value.
pub open spec fn image_view(cfg: Config) -> Option<Seq<char>> {
    match cfg.index_image {
        Some(img) => Some(img@),
        None => None,
    }
}

/// The page body: on the index page a configured image block precedes the
/// fragment; everywhere else the body is the fragment alone.
pub open spec fn page_body_spec(
    stem: Seq<char>,
    image: Option<Seq<char>>,
    fragment: Seq<char>,
) -> Seq<char> {
    match image {
        Some(img) => if is_index_spec(stem) {
            img + fragment
        } else {
            fragment
        },
        None => fragment,
    }
}

/// The complete document generated for one source file from its event
/// stream: the stream is transformed, rendered, and wrapped in the shell
/// under the mapped destination's title.
pub open spec fn page_from_events_spec<'a>(
    evs: Seq<EventView<'a>>,
    src: Seq<Seq<char>>,
    sources: Set<Seq<Seq<char>>>,
    cfg: Config,
) -> Seq<char> {
    let dest = html_path_spec(src);
    let stem = stem_of(dest.last());
    let fragment = rendered(transform_spec(evs, src, sources, active_deco_spec(cfg, src)));
    page_spec(stem, page_body_spec(stem, image_view(cfg), fragment))
}

/// Some event stream is the parse of `text`; the parser's contract makes
/// that stream unique, so a document pinned against every such stream is
/// pinned against the parse itself.
pub open spec fn parseable(text: Seq<char>) -> bool {
    exists|evs: Seq<EventView>| parses_to(text, evs)
}

/// Generates the document for one source file from its parsed event
/// stream.
pub fn process_events<'a>(
    events: Vec<MdEvent<'a>>,
    src: &RelPath,
    sources: &SourceSet,
    cfg: &Config,
) -> (r: String)
    requires
        src.wf(),
        cfg.wf(),
    ensures
        r@ == page_from_events_spec(events.deep_view(), src@, sources@, *cfg),
{
    let ghost evs = events.deep_view();
    let deco: Option<&Decoration> = match &cfg.decorated_page {
        Some(pd) => if pd.page.eq_path(src) {
            Some(&pd.deco)
        } else {
            None
        },
        None => None,
    };
    proof {
        assert(deco_view(deco) == active_deco_spec(*cfg, src@));
    }
    let transformed = transform_events(events, src, sources, deco);
    let fragment = render_events(transformed);
    let dest = make_html_path(src);
    proof {
        lemma_html_name_ends_html(src@.last());
        assert(dest@.last() == html_path_spec(src@).last());
    }
    let is_index = {
        let n = dest.segments.len();
        proof {
            assert(dest@.len() == n);
            assert(dest@.last() == dest.segments@[n - 1].deep_view());
        }
        let stem = crate::path::file_stem(dest.segments[n - 1].as_str());
        crate::strutil::str_eq(stem, "index")
    };
    let body: String = match &cfg.index_image {
        Some(img) => if is_index {
            img.clone().concat(fragment.as_str())
        } else {
            fragment
        },
        None => fragment,
    };
    html_page(&dest, body)
}

/// Generates the document for one source file from its contents. The
/// tokenization is the outside parser's; its stream is a function of the
/// contents, and the result is exactly the generated page for that stream.
pub fn process_file<'a>(
    src: &RelPath,
    contents: &'a str,
    sources: &SourceSet,
    cfg: &Config,
) -> (r: String)
    requires
        src.wf(),
        cfg.wf(),
    ensures
        parseable(contents@),
        forall|evs: Seq<EventView>|
            parses_to(contents@, evs) ==> r@ == page_from_events_spec(evs, src@, sources@, *cfg),
{
    let events = parse_markdown(contents);
    let ghost dv = events.deep_view();
    let r = process_events(events, src, sources, cfg);
    proof {
        assert(r@ == page_from_events_spec(dv, src@, sources@, *cfg));
        assert(parseable(contents@)) by {
            assert(parses_to(contents@, dv));
        }
        assert forall|evs: Seq<EventView>| parses_to(contents@, evs) implies r@
            == page_from_events_spec(evs, src@, sources@, *cfg) by {
            assert(evs == dv);
        }
    }
    r
}

/// One discovered source file with its contents.
pub struct SourceFile {
    pub path: RelPath,
    pub contents: String,
}

/// One generated output file.
pub struct OutputFile {
    pub path: RelPath,
    pub html: String,
}

/// The discovered set as a spec value: exactly the paths of the input
/// files.
pub open spec fn source_set_spec(files: Seq<SourceFile>) -> Set<Seq<Seq<char>>> {
    Set::new(|p: Seq<Seq<char>>| exists|j: int| 0 <= j < files.len() && files[j].path@ == p)
}

/// What the whole run owes: one output per source file, at the mapped
/// destination, whose document is the generated page for the parse of that
/// file's contents, against the set of all source paths. Two directories
/// holding `README.md` and a literal `index.md` collide at one
/// destination; the mapping leaves that unresolved, both outputs are
/// emitted, and whoever writes them last wins.
pub open spec fn site_outputs_spec(out: Seq<OutputFile>, files: Seq<SourceFile>, cfg: Config) -> bool {
    &&& out.len() == files.len()
    &&& forall|i: int|
        0 <= i < out.len() ==> (#[trigger] out[i]).path@ == html_path_spec(files[i].path@)
            && out[i].path.wf()
    &&& forall|i: int| 0 <= i < out.len() ==> parseable((#[trigger] files[i]).contents@)
    &&& forall|i: int, evs: Seq<EventView>|
        0 <= i < out.len() && #[trigger] parses_to(files[i].contents@, evs)
            ==> (#[trigger] out[i]).html@ == page_from_events_spec(
            evs,
            files[i].path@,
            source_set_spec(files),
            cfg,
        )
}

/// Generates the whole site: one output document per source file, at the
/// mapped destination, generated against the discovered set of all source
/// paths. Processing order carries no meaning; each output depends only on
/// its own source and the set.
pub fn generate_site<'a>(files: &'a Vec<SourceFile>, cfg: &Config) -> (r: Vec<OutputFile>)
    requires
        forall|i: int| 0 <= i < files@.len() ==> (#[trigger] files@[i]).path.wf(),
        cfg.wf(),
    ensures
        site_outputs_spec(r@, files@, *cfg),
{
    let n = files.len();
    let mut sources = SourceSet::new();
    let mut i: usize = 0;
    while i < n
        invariant
            n == files@.len(),
            forall|k: int| 0 <= k < n ==> (#[trigger] files@[k]).path.wf(),
            i <= n,
            sources.wf(),
            sources@ == Set::new(
                |p: Seq<Seq<char>>| exists|j: int| 0 <= j < i && files@[j].path@ == p,
            ),
        decreases n - i,
    {
        let ghost pre = sources@;
        let p = clone_rel_path(&files[i].path);
        sources.insert(p);
        proof {
            assert(sources@ =~= Set::new(
                |q: Seq<Seq<char>>| exists|j: int| 0 <= j < i + 1 && files@[j].path@ == q,
            )) by {
                assert forall|q: Seq<Seq<char>>| #[trigger]
                    sources@.contains(q) implies exists|j: int|
                    0 <= j < i + 1 && files@[j].path@ == q by {
                    if q == files@[i as int].path@ {
                        assert(files@[i as int].path@ == q);
                    } else {
                        assert(pre.contains(q));
                    }
                }
                assert forall|q: Seq<Seq<char>>|
                    (exists|j: int| 0 <= j < i + 1 && files@[j].path@ == q) implies #[trigger]
                    sources@.contains(q) by {
                    let j = choose|j: int| 0 <= j < i + 1 && files@[j].path@ == q;
                    if j < i {
                        assert(pre.contains(q));
                    }
                }
            }
        }
        i += 1;
    }
    proof {
        assert(sources@ =~= source_set_spec(files@));
    }
    let mut out: Vec<OutputFile> = Vec::new();
    let mut k: usize = 0;
    while k < n
        invariant
            n == files@.len(),
            forall|j: int| 0 <= j < n ==> (#[trigger] files@[j]).path.wf(),
            cfg.wf(),
            sources@ == source_set_spec(files@),
            k <= n,
            out@.len() == k,
            forall|j: int|
                0 <= j < k ==> (#[trigger] out@[j]).path@ == html_path_spec(files@[j].path@)
                    && out@[j].path.wf(),
            forall|j: int| 0 <= j < k ==> parseable((#[trigger] files@[j]).contents@),
            forall|j: int, evs: Seq<EventView>|
                0 <= j < k && #[trigger] parses_to(files@[j].contents@, evs)
                    ==> (#[trigger] out@[j]).html@ == page_from_events_spec(
                    evs,
                    files@[j].path@,
                    source_set_spec(files@),
                    *cfg,
                ),
        decreases n - k,
    {
        let src = &files[k].path;
        let html = process_file(src, files[k].contents.as_str(), &sources, cfg);
        let ghost h = html@;
        let ghost out_pre = out@;
        let dest = make_html_path(src);
        out.push(OutputFile { path: dest, html });
        proof {
            assert forall|j: int| 0 <= j < k + 1 implies parseable(
                (#[trigger] files@[j]).contents@,
            ) by {}
            assert forall|j: int, evs: Seq<EventView>|
                0 <= j < k + 1 && #[trigger] parses_to(files@[j].contents@, evs) implies (
            #[trigger] out@[j]).html@ == page_from_events_spec(
                evs,
                files@[j].path@,
                source_set_spec(files@),
                *cfg,
            ) by {
                if j < k {
                    assert(out@[j] == out_pre[j]);
                } else {
                    assert(out@[j].html@ == h);
                    assert(h == page_from_events_spec(
                        evs,
                        files@[j].path@,
                        sources@,
                        *cfg,
                    ));
                }
            }
        }
        k += 1;
    }
    out
}

/// Clones a path.
fn clone_rel_path(p: &RelPath) -> (r: RelPath)
    ensures
        r@ == p@,
        r.wf() == p.wf(),
{
    let n = p.segments.len();
    let mut segs: Vec<String> = Vec::new();
    let mut i: usize = 0;
    while i < n
        invariant
            n == p.segments.len(),
            i <= n,
            segs@ == p.segments@.take(i as int),
        decreases n - i,
    {
        let s = p.segments[i].clone();
        segs.push(s);
        proof {
            assert(segs@ =~= p.segments@.take(i + 1));
        }
        i += 1;
    }
    proof {
        assert(segs@ =~= p.segments@);
    }
    let r = RelPath { segments: segs };
    proof {
        assert(r@ =~= p@);
    }
    r
}

/// Rerunning the pipeline over unchanged input changes nothing: any two
/// outputs the run's contract admits for the same sources and
/// configuration are identical, path for path and byte for byte.
pub proof fn lemma_run_twice_identical(
    out1: Seq<OutputFile>,
    out2: Seq<OutputFile>,
    files: Seq<SourceFile>,
    cfg: Config,
)
    requires
        site_outputs_spec(out1, files, cfg),
        site_outputs_spec(out2, files, cfg),
    ensures
        out1.len() == out2.len(),
        forall|i: int|
            0 <= i < out1.len() ==> (#[trigger] out1[i]).path@ == out2[i].path@ && out1[i].html@
                == out2[i].html@,
{
    assert forall|i: int|
        0 <= i < out1.len() implies (#[trigger] out1[i]).path@ == out2[i].path@ && out1[i].html@
        == out2[i].html@ by {
        assert(parseable(files[i].contents@));
        let evs = choose|evs: Seq<EventView>| parses_to(files[i].contents@, evs);
        assert(parses_to(files[i].contents@, evs));
        assert(out1[i].html@ == page_from_events_spec(evs, files[i].path@, source_set_spec(files), cfg));
        assert(out2[i].html@ == page_from_events_spec(evs, files[i].path@, source_set_spec(files), cfg));
    }
}

/// Generation is deterministic: equal event streams for equal sources,
/// against equal discovered sets and configurations, yield byte-identical
/// documents. Rerunning the pipeline over unchanged input changes nothing.
pub proof fn lemma_generation_deterministic<'a>(
    evs1: Seq<EventView<'a>>,
    evs2: Seq<EventView<'a>>,
    src1: Seq<Seq<char>>,
    src2: Seq<Seq<char>>,
    sources1: Set<Seq<Seq<char>>>,
    sources2: Set<Seq<Seq<char>>>,
    cfg1: Config,
    cfg2: Config,
)
    requires
        evs1 == evs2,
        src1 == src2,
        sources1 == sources2,
        cfg1 == cfg2,
    ensures
        page_from_events_spec(evs1, src1, sources1, cfg1) == page_from_events_spec(
            evs2,
            src2,
            sources2,
            cfg2,
        ),
{
}

} // verus!
