//! The event transformer: a single forward pass over one file's event
//! stream. Link destinations are rewritten through the resolver, an external
//! link's closing tag is replaced by a fixed icon fragment that carries its
//! own closing anchor markup, and, for the distinguished page only, text
//! runs have a configured literal replaced by a decorative fragment.

use vstd::prelude::*;
use vstd::string::StrSliceExecFns;
use vstd::string::StringExecFns;

use crate::discovery::SourceSet;
use crate::events::EventView;
use crate::events::MdEvent;
use crate::links::is_external;
use crate::links::is_external_spec;
use crate::links::resolve_link;
use crate::links::resolve_spec;
use crate::path::RelPath;
use crate::strutil::find_spec;
use crate::strutil::lemma_find_spec_props;
use crate::strutil::str_find_from;

verus! {

/// The fixed markup that replaces an external link's closing tag: an icon
/// followed by the closing anchor tag it displaces.
pub const EXTERNAL_LINK_MARKUP: &'static str =
    r#"<svg style="width: 0.4em; vertical-align: middle; padding-bottom: 0.4em;" class="w-16 align-top" focusable="false" aria-hidden="true" viewBox="3 6 23 20"><path stroke="currentcolor" stroke-width="4" fill="none" d="M24 8L8 24M8 8H24v16"></path></svg></a>"#;

/// Text decoration for the distinguished page: every occurrence of
/// `literal` in a text run is replaced by the markup `fragment`.
pub struct Decoration {
    pub literal: String,
    pub fragment: String,
}

impl Decoration {
    /// A decoration must have something to search for.
    pub open spec fn wf(&self) -> bool {
        self.literal@.len() > 0
    }
}

/// The decoration of one text run from position `from` on: text up to each
/// occurrence of `lit` is kept as text, each occurrence becomes the raw
/// markup `frag`, and the remainder after the last occurrence is kept as
/// text. Empty text pieces are dropped.
pub open spec fn decorate_from<'a>(
    text: Seq<char>,
    lit: Seq<char>,
    frag: Seq<char>,
    from: int,
) -> Seq<EventView<'a>>
    decreases text.len() + 1 - from via decorate_from_decreases
{
    if from < 0 || from > text.len() || lit.len() == 0 {
        Seq::empty()
    } else {
        match find_spec(text, lit, from) {
            None => if from == text.len() {
                Seq::empty()
            } else {
                seq![EventView::Text { text: text.skip(from) }]
            },
            Some(i) => (if i > from {
                seq![EventView::Text { text: text.subrange(from, i) }]
            } else {
                Seq::empty()
            }) + seq![EventView::Html { markup: frag }] + decorate_from(
                text,
                lit,
                frag,
                i + lit.len(),
            ),
        }
    }
}

#[via_fn]
proof fn decorate_from_decreases<'a>(text: Seq<char>, lit: Seq<char>, frag: Seq<char>, from: int) {
    if !(from < 0 || from > text.len() || lit.len() == 0) {
        lemma_find_spec_props(text, lit, from);
    }
}

/// The decoration of one whole text run.
pub open spec fn decorate_spec<'a>(text: Seq<char>, lit: Seq<char>, frag: Seq<char>) -> Seq<
    EventView<'a>,
> {
    decorate_from(text, lit, frag, 0)
}

/// Decorates one text run: occurrences of the literal become the markup
/// fragment, everything around them is preserved exactly.
pub fn decorate_text<'a>(text: &str, deco: &Decoration) -> (out: Vec<MdEvent<'a>>)
    requires
        deco.wf(),
    ensures
        out.deep_view() == decorate_spec(text@, deco.literal@, deco.fragment@),
{
    let ghost lit = deco.literal@;
    let ghost frag = deco.fragment@;
    let len = text.unicode_len();
    let lit_len = deco.literal.unicode_len();
    let mut out: Vec<MdEvent<'a>> = Vec::new();
    let mut pos: usize = 0;
    proof {
        assert(out.deep_view() =~= Seq::<EventView<'a>>::empty());
    }
    loop
        invariant_except_break
            len == text@.len(),
            lit_len == lit.len(),
            lit == deco.literal@,
            frag == deco.fragment@,
            lit_len > 0,
            pos <= len,
            decorate_spec(text@, lit, frag) == out.deep_view() + decorate_from(
                text@,
                lit,
                frag,
                pos as int,
            ),
        ensures
            out.deep_view() == decorate_spec(text@, deco.literal@, deco.fragment@),
        decreases len - pos,
    {
        let ghost pre = out.deep_view();
        match str_find_from(text, deco.literal.as_str(), pos) {
            None => {
                if pos < len {
                    let tail = text.substring_char(pos, len);
                    out.push(MdEvent::Text { text: String::from_str(tail) });
                    proof {
                        assert(tail@ =~= text@.skip(pos as int));
                        assert(out.deep_view() =~= pre + decorate_from(
                            text@,
                            lit,
                            frag,
                            pos as int,
                        ));
                    }
                } else {
                    proof {
                        assert(decorate_from(text@, lit, frag, pos as int)
                            =~= Seq::<EventView<'a>>::empty());
                        assert(out.deep_view() =~= pre + decorate_from(
                            text@,
                            lit,
                            frag,
                            pos as int,
                        ));
                    }
                }
                break ;
            },
            Some(i) => {
                proof {
                    lemma_find_spec_props(text@, lit, pos as int);
                }
                let ghost step = decorate_from(text@, lit, frag, pos as int);
                let ghost head: Seq<EventView<'a>> = if i > pos {
                    seq![EventView::Text { text: text@.subrange(pos as int, i as int) }]
                } else {
                    Seq::empty()
                };
                let ghost rest = decorate_from(text@, lit, frag, i + lit.len());
                if i > pos {
                    let piece = text.substring_char(pos, i);
                    out.push(MdEvent::Text { text: String::from_str(piece) });
                }
                out.push(MdEvent::Html { markup: deco.fragment.clone() });
                proof {
                    assert(step == head + seq![EventView::Html { markup: frag }] + rest);
                    assert(out.deep_view() =~= pre + head + seq![
                        EventView::Html { markup: frag },
                    ]);
                    assert(pre + step =~= (pre + head + seq![EventView::Html { markup: frag }])
                        + rest);
                    assert(out.deep_view() + rest =~= pre + step);
                }
                pos = i + lit_len;
            },
        }
    }
    out
}

/// The decoration configuration as spec values.
pub open spec fn deco_view(deco: Option<&Decoration>) -> Option<(Seq<char>, Seq<char>)> {
    match deco {
        Some(d) => Some((d.literal@, d.fragment@)),
        None => None,
    }
}

/// What one event becomes: a link open has its destination resolved, an
/// external link's close becomes the icon markup, a text run is decorated
/// when a decoration is configured, and everything else passes through
/// unchanged.
pub open spec fn transform_one<'a>(
    e: EventView<'a>,
    cur: Seq<Seq<char>>,
    sources: Set<Seq<Seq<char>>>,
    deco: Option<(Seq<char>, Seq<char>)>,
) -> Seq<EventView<'a>> {
    match e {
        EventView::LinkStart { link_type, dest, title } => seq![
            EventView::LinkStart { link_type, dest: resolve_spec(cur, dest, sources), title },
        ],
        EventView::LinkEnd { link_type, dest, title } => if is_external_spec(dest) {
            seq![EventView::Html { markup: EXTERNAL_LINK_MARKUP@ }]
        } else {
            seq![e]
        },
        EventView::Text { text } => match deco {
            Some((lit, frag)) => decorate_spec(text, lit, frag),
            None => seq![e],
        },
        _ => seq![e],
    }
}

/// What a whole event stream becomes, one event at a time, in order.
pub open spec fn transform_spec<'a>(
    evs: Seq<EventView<'a>>,
    cur: Seq<Seq<char>>,
    sources: Set<Seq<Seq<char>>>,
    deco: Option<(Seq<char>, Seq<char>)>,
) -> Seq<EventView<'a>>
    decreases evs.len(),
{
    if evs.len() == 0 {
        Seq::empty()
    } else {
        transform_one(evs[0], cur, sources, deco) + transform_spec(
            evs.drop_first(),
            cur,
            sources,
            deco,
        )
    }
}

/// The closing tag of an external link — one whose destination begins with
/// `http://` or `https://` — becomes the fixed icon markup, which ends in
/// the closing anchor tag, so the icon sits immediately before the anchor's
/// close; the opening tag, and with it the destination, is not altered by
/// the close-tag rule.
pub proof fn lemma_external_link_close_decorated<'a>(
    link_type: pulldown_cmark::LinkType,
    dest: Seq<char>,
    title: Seq<char>,
    cur: Seq<Seq<char>>,
    sources: Set<Seq<Seq<char>>>,
    deco: Option<(Seq<char>, Seq<char>)>,
)
    requires
        is_external_spec(dest),
    ensures
        transform_one(EventView::LinkEnd { link_type, dest, title }, cur, sources, deco)
            == seq![EventView::Html { markup: EXTERNAL_LINK_MARKUP@ }],
{
}

/// Without decoration the transformer substitutes event for event: the
/// stream keeps its length exactly.
pub proof fn lemma_transform_preserves_length<'a>(
    evs: Seq<EventView<'a>>,
    cur: Seq<Seq<char>>,
    sources: Set<Seq<Seq<char>>>,
)
    ensures
        transform_spec(evs, cur, sources, None).len() == evs.len(),
    decreases evs.len(),
{
    if evs.len() > 0 {
        lemma_transform_preserves_length(evs.drop_first(), cur, sources);
        assert(transform_one(evs[0], cur, sources, None).len() == 1);
    }
}

/// Decorating a nonempty text run yields at least one event.
proof fn lemma_decorate_nonempty<'a>(text: Seq<char>, lit: Seq<char>, frag: Seq<char>)
    requires
        text.len() > 0,
        lit.len() > 0,
    ensures
        decorate_spec::<'a>(text, lit, frag).len() >= 1,
{
    lemma_find_spec_props(text, lit, 0);
}

/// The transformer never shortens the stream: as long as no text run is
/// empty, decoration may add events but never removes content events.
pub proof fn lemma_transform_never_removes<'a>(
    evs: Seq<EventView<'a>>,
    cur: Seq<Seq<char>>,
    sources: Set<Seq<Seq<char>>>,
    deco: Option<(Seq<char>, Seq<char>)>,
)
    requires
        deco matches Some(d) ==> d.0.len() > 0,
        forall|i: int|
            0 <= i < evs.len() ==> match #[trigger] evs[i] {
                EventView::Text { text } => text.len() > 0,
                _ => true,
            },
    ensures
        transform_spec(evs, cur, sources, deco).len() >= evs.len(),
    decreases evs.len(),
{
    if evs.len() > 0 {
        assert(forall|i: int|
            0 <= i < evs.drop_first().len() ==> evs.drop_first()[i] == evs[i + 1]);
        lemma_transform_never_removes(evs.drop_first(), cur, sources, deco);
        assert(transform_one(evs[0], cur, sources, deco).len() >= 1) by {
            match evs[0] {
                EventView::Text { text } => {
                    match deco {
                        Some(d) => {
                            lemma_decorate_nonempty(text, d.0, d.1);
                        },
                        None => {},
                    }
                },
                _ => {},
            }
        }
    }
}

/// Transforms one event.
fn transform_single<'a>(
    e: MdEvent<'a>,
    cur: &RelPath,
    sources: &SourceSet,
    deco: Option<&Decoration>,
) -> (out: Vec<MdEvent<'a>>)
    requires
        cur.wf(),
        deco matches Some(d) ==> d.wf(),
    ensures
        out.deep_view() == transform_one(e@, cur@, sources@, deco_view(deco)),
{
    let ghost ev = e@;
    match e {
        MdEvent::LinkStart { link_type, dest, title } => {
            let new_dest = resolve_link(cur, dest.as_str(), sources);
            let mut out: Vec<MdEvent<'a>> = Vec::new();
            out.push(MdEvent::LinkStart { link_type, dest: new_dest, title });
            proof {
                assert(out.deep_view() =~= transform_one(ev, cur@, sources@, deco_view(deco)));
            }
            out
        },
        MdEvent::LinkEnd { link_type, dest, title } => {
            let mut out: Vec<MdEvent<'a>> = Vec::new();
            if is_external(dest.as_str()) {
                out.push(MdEvent::Html { markup: String::from_str(EXTERNAL_LINK_MARKUP) });
            } else {
                out.push(MdEvent::LinkEnd { link_type, dest, title });
            }
            proof {
                assert(out.deep_view() =~= transform_one(ev, cur@, sources@, deco_view(deco)));
            }
            out
        },
        MdEvent::Text { text } => {
            match deco {
                Some(d) => decorate_text(text.as_str(), d),
                None => {
                    let mut out: Vec<MdEvent<'a>> = Vec::new();
                    out.push(MdEvent::Text { text });
                    proof {
                        assert(out.deep_view() =~= transform_one(
                            ev,
                            cur@,
                            sources@,
                            deco_view(deco),
                        ));
                    }
                    out
                },
            }
        },
        other => {
            let mut out: Vec<MdEvent<'a>> = Vec::new();
            out.push(other);
            proof {
                assert(out.deep_view() =~= transform_one(ev, cur@, sources@, deco_view(deco)));
            }
            out
        },
    }
}

/// Transforms one file's event stream in a single forward pass.
pub fn transform_events<'a>(
    events: Vec<MdEvent<'a>>,
    cur: &RelPath,
    sources: &SourceSet,
    deco: Option<&Decoration>,
) -> (out: Vec<MdEvent<'a>>)
    requires
        cur.wf(),
        deco matches Some(d) ==> d.wf(),
    ensures
        out.deep_view() == transform_spec(events.deep_view(), cur@, sources@, deco_view(deco)),
{
    let ghost evs0 = events.deep_view();
    let mut rest = events;
    let mut out: Vec<MdEvent<'a>> = Vec::new();
    proof {
        assert(out.deep_view() =~= Seq::<EventView<'a>>::empty());
    }
    loop
        invariant_except_break
            cur.wf(),
            deco matches Some(d) ==> d.wf(),
            evs0 == events.deep_view(),
            transform_spec(evs0, cur@, sources@, deco_view(deco)) == out.deep_view()
                + transform_spec(rest.deep_view(), cur@, sources@, deco_view(deco)),
        ensures
            out.deep_view() == transform_spec(events.deep_view(), cur@, sources@, deco_view(deco)),
        decreases rest.len(),
    {
        if rest.len() == 0 {
            proof {
                assert(rest.deep_view().len() == 0);
                assert(transform_spec(rest.deep_view(), cur@, sources@, deco_view(deco))
                    =~= Seq::<EventView<'a>>::empty());
                assert(out.deep_view() + transform_spec(
                    rest.deep_view(),
                    cur@,
                    sources@,
                    deco_view(deco),
                ) =~= out.deep_view());
            }
            break ;
        }
        let ghost rest_pre = rest.deep_view();
        let ghost out_pre = out.deep_view();
        let e = rest.remove(0);
        proof {
            assert(rest.deep_view() =~= rest_pre.drop_first()) by {
                assert(rest@.len() == rest_pre.len() - 1);
                assert forall|j: int| 0 <= j < rest@.len() implies rest.deep_view()[j]
                    == rest_pre.drop_first()[j] by {
                    assert(rest.deep_view()[j] == rest@[j].deep_view());
                }
            }
            assert(e@ == rest_pre[0]);
        }
        let mut pieces = transform_single(e, cur, sources, deco);
        let ghost pieces_dv = pieces.deep_view();
        out.append(&mut pieces);
        proof {
            assert(out.deep_view() =~= out_pre + pieces_dv) by {
                assert(out@.len() == out_pre.len() + pieces_dv.len());
                assert forall|j: int| 0 <= j < out@.len() implies out.deep_view()[j] == (out_pre
                    + pieces_dv)[j] by {
                    assert(out.deep_view()[j] == out@[j].deep_view());
                }
            }
            assert(transform_spec(rest_pre, cur@, sources@, deco_view(deco)) == transform_one(
                rest_pre[0],
                cur@,
                sources@,
                deco_view(deco),
            ) + transform_spec(rest_pre.drop_first(), cur@, sources@, deco_view(deco)));
            assert(out_pre + (pieces_dv + transform_spec(
                rest.deep_view(),
                cur@,
                sources@,
                deco_view(deco),
            )) =~= (out_pre + pieces_dv) + transform_spec(
                rest.deep_view(),
                cur@,
                sources@,
                deco_view(deco),
            ));
        }
    }
    out
}

} // verus!
