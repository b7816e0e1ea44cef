//! The Markdown event stream, reduced to what the checker reads.
//!
//! The external parser turns a document into a sequence of events.  Of those,
//! the checker cares about four shapes: the start and end of a heading, a
//! text-bearing event (plain text, inline code, raw HTML, a footnote
//! reference) whose characters belong to the enclosing heading's title, and
//! the start of an inline link with its destination and source byte offset.
//! Every other event is structural and carried as `Other`.  The parser also
//! reports, through a callback, each link reference that has no definition;
//! those arrive as `BrokenRef` values.

use vstd::prelude::*;

use pulldown_cmark::{Event, LinkType, Options, Parser, Tag, TagEnd};

verus! {

/// One parsed Markdown event, reduced to what the checker inspects.
pub enum MdEvent {
    /// Start of a heading: the following text-bearing events form its title.
    HeadingStart,
    /// End of a heading.
    HeadingEnd,
    /// A text-bearing event: its characters accumulate into a pending title.
    Text(String),
    /// Start of an inline link, with its destination and source byte offset.
    InlineLink { dest: String, offset: usize },
    /// Any other event; never inspected.
    Other,
}

/// A link reference without a definition, as handed to the parser's broken
/// link callback: the reference text and the source byte offset of its span.
pub struct BrokenRef {
    pub reference: String,
    pub offset: usize,
}

impl View for BrokenRef {
    type V = BrokenRefView;

    open spec fn view(&self) -> BrokenRefView {
        BrokenRefView { reference: self.reference@, offset: self.offset as nat }
    }
}

impl DeepView for BrokenRef {
    type V = BrokenRefView;

    open spec fn deep_view(&self) -> BrokenRefView {
        self.view()
    }
}

/// The specification-level shape of a `BrokenRef`.
pub struct BrokenRefView {
    pub reference: Seq<char>,
    pub offset: nat,
}

/// The events the external parser yields for a document, in plain iteration.
/// The parse is a function of the text alone.
pub uninterp spec fn md_events_of(content: Seq<char>) -> Seq<MdEvent>;

/// The events the external parser yields for a document when driven with a
/// broken-link callback that supplies no substitute definitions.
pub uninterp spec fn linked_events_of(content: Seq<char>) -> Seq<MdEvent>;

/// The link references without a definition that the parser reports for a
/// document, in the order the callback fires.
pub uninterp spec fn broken_refs_of(content: Seq<char>) -> Seq<BrokenRefView>;

#[verifier::external_type_specification]
#[verifier::external_body]
pub struct ExEvent<'a>(Event<'a>);

/// Tells pulldown_cmark's event variants apart, moving an event's text or
/// destination and its source offset into the checker's own event shape.
#[verifier::external_body]
fn convert_event(ev: Event<'_>, offset: usize) -> MdEvent {
    match ev {
        Event::Start(Tag::Heading { .. }) => MdEvent::HeadingStart,
        Event::End(TagEnd::Heading(_)) => MdEvent::HeadingEnd,
        Event::Start(Tag::Link { link_type: LinkType::Inline, dest_url, .. }) =>
            MdEvent::InlineLink { dest: dest_url.into_string(), offset },
        Event::Text(t) | Event::Code(t) | Event::Html(t) | Event::FootnoteReference(t) =>
            MdEvent::Text(t.into_string()),
        _ => MdEvent::Other,
    }
}

/// Relies on pulldown_cmark's `Parser::new_ext` with all options and its
/// `into_offset_iter`: one event per Markdown construct together with its
/// source byte range; the result depends on the text alone.
#[verifier::external_body]
pub(crate) fn parse_events(content: &str) -> (events: Vec<MdEvent>)
    ensures
        events@ == md_events_of(content@),
{
    let mut out: Vec<MdEvent> = Vec::new();
    for (ev, range) in Parser::new_ext(content, Options::all()).into_offset_iter() {
        out.push(convert_event(ev, range.start));
    }
    out
}

/// Relies on pulldown_cmark's `Parser::new_with_broken_link_callback` with all
/// options: the callback fires once per link reference that has no resolvable
/// definition and, returning `None`, supplies no substitute, so the parser
/// leaves the reference unresolved; the events and the reported references
/// depend on the text alone.
#[verifier::external_body]
pub(crate) fn parse_events_with_broken_refs(content: &str) -> (r: (Vec<MdEvent>, Vec<BrokenRef>))
    ensures
        r.0@ == linked_events_of(content@),
        r.1.deep_view() == broken_refs_of(content@),
{
    let mut refs: Vec<BrokenRef> = Vec::new();
    let mut cb = |l: pulldown_cmark::BrokenLink| {
        refs.push(BrokenRef { reference: l.reference.into_string(), offset: l.span.start });
        None
    };
    let parser = Parser::new_with_broken_link_callback(content, Options::all(), Some(&mut cb));
    let mut out: Vec<MdEvent> = Vec::new();
    for (ev, range) in parser.into_offset_iter() {
        out.push(convert_event(ev, range.start));
    }
    (out, refs)
}

} // verus!
