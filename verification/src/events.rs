//! The markdown event model. Link and text events are carried as plain
//! values the transformer can inspect; every other event of the outside
//! parser passes through opaquely.

use pulldown_cmark::Event;
use pulldown_cmark::Event::End;
use pulldown_cmark::Event::Start;
use pulldown_cmark::Tag::Image;
use pulldown_cmark::Tag::Link;
use vstd::prelude::*;

verus! {

/// Declares the outside parser's event type so values of it can be carried
/// through the transformer untouched.
#[verifier::external_type_specification]
#[verifier::external_body]
pub struct ExEvent<'a>(pulldown_cmark::Event<'a>);

/// Declares the outside parser's link-type tag, carried through unchanged.
#[verifier::external_type_specification]
#[verifier::external_body]
pub struct ExLinkType(pulldown_cmark::LinkType);

/// One markdown event, as the transformer sees it.
pub enum MdEvent<'a> {
    /// A link opens: carried link type, destination and title.
    LinkStart { link_type: pulldown_cmark::LinkType, dest: String, title: String },
    /// A link closes; the destination is retained from the opening tag.
    LinkEnd { link_type: pulldown_cmark::LinkType, dest: String, title: String },
    /// An image opens; the events up to its close form its alt run.
    ImageStart { link_type: pulldown_cmark::LinkType, dest: String, title: String },
    /// An image closes.
    ImageEnd { link_type: pulldown_cmark::LinkType, dest: String, title: String },
    /// A text run.
    Text { text: String },
    /// A raw markup fragment, written to the output verbatim.
    Html { markup: String },
    /// Any other event, passed through untouched.
    Other { raw: pulldown_cmark::Event<'a> },
}

/// The mathematical view of one markdown event.
pub enum EventView<'a> {
    LinkStart { link_type: pulldown_cmark::LinkType, dest: Seq<char>, title: Seq<char> },
    LinkEnd { link_type: pulldown_cmark::LinkType, dest: Seq<char>, title: Seq<char> },
    ImageStart { link_type: pulldown_cmark::LinkType, dest: Seq<char>, title: Seq<char> },
    ImageEnd { link_type: pulldown_cmark::LinkType, dest: Seq<char>, title: Seq<char> },
    Text { text: Seq<char> },
    Html { markup: Seq<char> },
    Other { raw: pulldown_cmark::Event<'a> },
}

impl<'a> View for MdEvent<'a> {
    type V = EventView<'a>;

    open spec fn view(&self) -> EventView<'a> {
        match self {
            MdEvent::LinkStart { link_type, dest, title } => EventView::LinkStart {
                link_type: *link_type,
                dest: dest@,
                title: title@,
            },
            MdEvent::LinkEnd { link_type, dest, title } => EventView::LinkEnd {
                link_type: *link_type,
                dest: dest@,
                title: title@,
            },
            MdEvent::ImageStart { link_type, dest, title } => EventView::ImageStart {
                link_type: *link_type,
                dest: dest@,
                title: title@,
            },
            MdEvent::ImageEnd { link_type, dest, title } => EventView::ImageEnd {
                link_type: *link_type,
                dest: dest@,
                title: title@,
            },
            MdEvent::Text { text } => EventView::Text { text: text@ },
            MdEvent::Html { markup } => EventView::Html { markup: markup@ },
            MdEvent::Other { raw } => EventView::Other { raw: *raw },
        }
    }
}

impl<'a> DeepView for MdEvent<'a> {
    type V = EventView<'a>;

    open spec fn deep_view(&self) -> EventView<'a> {
        self.view()
    }
}

/// The HTML fragment the outside renderer produces for an event stream; it
/// depends on the events alone.
pub uninterp spec fn rendered(events: Seq<EventView>) -> Seq<char>;

/// `events` is the event stream the outside parser produces for `text`.
/// The stream depends on the text alone, so exactly one stream satisfies
/// this for each text; the parser's contract states both directions.
pub uninterp spec fn parses_to(text: Seq<char>, events: Seq<EventView>) -> bool;

/// The event at `i` stands before every image's alt run: no image has
/// opened anywhere earlier in the stream.
pub open spec fn before_any_image(events: Seq<EventView>, i: int) -> bool {
    forall|j: int|
        0 <= j < i ==> !((#[trigger] events[j]) matches EventView::ImageStart { .. })
}

/// Converts one event of the outside parser into the model: one arm per
/// variant, moving fields; link and image tags and text runs become plain
/// values, everything else is carried through opaquely.
#[verifier::external_body]
fn from_raw<'a>(e: pulldown_cmark::Event<'a>) -> MdEvent<'a> {
    match e {
        Start(Link(t, d, tt)) => MdEvent::LinkStart { link_type: t, dest: d.into_string(), title: tt.into_string() },
        End(Link(t, d, tt)) => MdEvent::LinkEnd { link_type: t, dest: d.into_string(), title: tt.into_string() },
        Start(Image(t, d, tt)) => MdEvent::ImageStart { link_type: t, dest: d.into_string(), title: tt.into_string() },
        End(Image(t, d, tt)) => MdEvent::ImageEnd { link_type: t, dest: d.into_string(), title: tt.into_string() },
        Event::Text(t) => MdEvent::Text { text: t.into_string() },
        other => MdEvent::Other { raw: other },
    }
}

/// Relies on pulldown_cmark::Parser: tokenizes one markdown document into
/// its event stream, a deterministic function of the text; each event is
/// converted into the model by `from_raw`.
#[verifier::external_body]
pub(crate) fn parse_markdown<'a>(text: &'a str) -> (r: Vec<MdEvent<'a>>)
    ensures
        parses_to(text@, r.deep_view()),
        forall|evs: Seq<EventView>| parses_to(text@, evs) ==> evs == r.deep_view(),
{
    pulldown_cmark::Parser::new(text).map(from_raw).collect()
}

/// Relies on pulldown_cmark::html::push_html: renders an event stream to an
/// HTML fragment. The result is a function of the events alone. The
/// renderer writes a raw `Html` event's content into the output verbatim,
/// except inside an image's alt run, where it escapes what it consumes; so
/// the fragment contains the markup of each `Html` event that stands
/// before any image's opening tag.
#[verifier::external_body]
pub(crate) fn render_events<'a>(events: Vec<MdEvent<'a>>) -> (r: String)
    ensures
        r@ == rendered(events.deep_view()),
        forall|i: int|
            0 <= i < events.deep_view().len() && before_any_image(events.deep_view(), i)
                ==> match #[trigger] events.deep_view()[i] {
                EventView::Html { markup } => exists|k: int|
                    crate::strutil::occurs_at(r@, markup, k),
                _ => true,
            },
{
    let mut out = String::new();
    pulldown_cmark::html::push_html(&mut out, events.into_iter().map(to_raw));
    out
}

/// Converts one event of the model back to the outside parser's form: one
/// arm per variant, moving fields.
#[verifier::external_body]
fn to_raw<'a>(e: MdEvent<'a>) -> pulldown_cmark::Event<'a> {
    match e {
        MdEvent::LinkStart { link_type, dest, title } => Start(Link(link_type, dest.into(), title.into())),
        MdEvent::LinkEnd { link_type, dest, title } => End(Link(link_type, dest.into(), title.into())),
        MdEvent::ImageStart { link_type, dest, title } => Start(Image(link_type, dest.into(), title.into())),
        MdEvent::ImageEnd { link_type, dest, title } => End(Image(link_type, dest.into(), title.into())),
        MdEvent::Text { text } => Event::Text(text.into()),
        MdEvent::Html { markup } => Event::Html(markup.into()),
        MdEvent::Other { raw } => raw,
    }
}

} // verus!
