//! The events of the markdown engine, as plain values, and the call that
//! gets them.
use pulldown_cmark::{CodeBlockKind, Event, Tag as CmarkTag};
use vstd::prelude::*;

verus! {

/// The level of a heading.
#[derive(Clone, Copy, PartialEq, Eq, Structural, Debug)]
pub enum Level {
    H1,
    H2,
    H3,
    H4,
    H5,
    H6,
}

/// An element that can hold other elements, as the markdown engine reports
/// it: one case for each kind of element that the engine knows.
#[derive(PartialEq, Eq, Debug)]
pub enum MdTag {
    Paragraph,
    Heading(Level),
    BlockQuote,
    /// A code block, with the language that its fence names; `None` for an
    /// indented block.
    CodeBlock(Option<String>),
    List,
    Item,
    FootnoteDefinition,
    Table,
    TableHead,
    TableRow,
    TableCell,
    Emphasis,
    Strong,
    Strikethrough,
    Link,
    Image,
}

/// One event of the markdown engine's walk through a document: one case
/// for each kind of event that the engine knows.
#[derive(PartialEq, Eq, Debug)]
pub enum MdEvent {
    Start(MdTag),
    End(MdTag),
    Text(String),
    Code(String),
    Html(String),
    FootnoteReference,
    SoftBreak,
    HardBreak,
    Rule,
    TaskListMarker,
}

/// What an `MdTag` stands for in contracts.
pub enum MdTagView {
    Paragraph,
    Heading(Level),
    BlockQuote,
    CodeBlock(Option<Seq<char>>),
    List,
    Item,
    FootnoteDefinition,
    Table,
    TableHead,
    TableRow,
    TableCell,
    Emphasis,
    Strong,
    Strikethrough,
    Link,
    Image,
}

/// What an `MdEvent` stands for in contracts.
pub enum MdEventView {
    Start(MdTagView),
    End(MdTagView),
    Text(Seq<char>),
    Code(Seq<char>),
    Html(Seq<char>),
    FootnoteReference,
    SoftBreak,
    HardBreak,
    Rule,
    TaskListMarker,
}

impl View for MdTag {
    type V = MdTagView;

    open spec fn view(&self) -> MdTagView {
        match self {
            MdTag::Paragraph => MdTagView::Paragraph,
            MdTag::Heading(level) => MdTagView::Heading(*level),
            MdTag::BlockQuote => MdTagView::BlockQuote,
            MdTag::CodeBlock(Some(language)) => MdTagView::CodeBlock(Some(language@)),
            MdTag::CodeBlock(None) => MdTagView::CodeBlock(None),
            MdTag::List => MdTagView::List,
            MdTag::Item => MdTagView::Item,
            MdTag::FootnoteDefinition => MdTagView::FootnoteDefinition,
            MdTag::Table => MdTagView::Table,
            MdTag::TableHead => MdTagView::TableHead,
            MdTag::TableRow => MdTagView::TableRow,
            MdTag::TableCell => MdTagView::TableCell,
            MdTag::Emphasis => MdTagView::Emphasis,
            MdTag::Strong => MdTagView::Strong,
            MdTag::Strikethrough => MdTagView::Strikethrough,
            MdTag::Link => MdTagView::Link,
            MdTag::Image => MdTagView::Image,
        }
    }
}

impl View for MdEvent {
    type V = MdEventView;

    open spec fn view(&self) -> MdEventView {
        match self {
            MdEvent::Start(tag) => MdEventView::Start(tag@),
            MdEvent::End(tag) => MdEventView::End(tag@),
            MdEvent::Text(text) => MdEventView::Text(text@),
            MdEvent::Code(text) => MdEventView::Code(text@),
            MdEvent::Html(text) => MdEventView::Html(text@),
            MdEvent::FootnoteReference => MdEventView::FootnoteReference,
            MdEvent::SoftBreak => MdEventView::SoftBreak,
            MdEvent::HardBreak => MdEventView::HardBreak,
            MdEvent::Rule => MdEventView::Rule,
            MdEvent::TaskListMarker => MdEventView::TaskListMarker,
        }
    }
}

/// The views of a sequence of events, in order.
pub open spec fn events_view(events: Seq<MdEvent>) -> Seq<MdEventView> {
    Seq::new(events.len(), |i: int| events[i]@)
}

/// The events that the markdown engine reports for a text, with
/// strikethrough switched on and no other extension.
pub uninterp spec fn cmark_event_seq(text: Seq<char>) -> Seq<MdEventView>;

/// `pulldown_cmark::HeadingLevel`: a value of it is only handed on, nothing
/// is claimed of what it holds.
#[verifier::external_type_specification]
#[verifier::external_body]
pub struct ExHeadingLevel(pulldown_cmark::HeadingLevel);

/// `pulldown_cmark::Event`: a value of it is only handed on, nothing is
/// claimed of what it holds.
#[verifier::external_type_specification]
#[verifier::external_body]
pub struct ExEvent<'a>(pulldown_cmark::Event<'a>);

/// The element type of `pulldown_cmark`: a value of it is only handed on,
/// nothing is claimed of what it holds.
#[verifier::external_type_specification]
#[verifier::external_body]
pub struct ExCmarkTag<'a>(CmarkTag<'a>);

/// Tells the levels of `pulldown_cmark::HeadingLevel` apart, one case for
/// each. Nothing is claimed of the result.
#[verifier::external_body]
fn md_level(level: pulldown_cmark::HeadingLevel) -> Level {
    match level {
        pulldown_cmark::HeadingLevel::H1 => Level::H1,
        pulldown_cmark::HeadingLevel::H2 => Level::H2,
        pulldown_cmark::HeadingLevel::H3 => Level::H3,
        pulldown_cmark::HeadingLevel::H4 => Level::H4,
        pulldown_cmark::HeadingLevel::H5 => Level::H5,
        pulldown_cmark::HeadingLevel::H6 => Level::H6,
    }
}

/// Tells the elements of `pulldown_cmark` for paragraphs, headings, quotes,
/// code and emphasis apart, one case for each; the language of a fenced
/// code block is copied. The other elements are handed to `md_other_tag`.
/// Nothing is claimed of the result.
#[verifier::external_body]
fn md_tag(tag: &CmarkTag<'_>) -> MdTag {
    match tag {
        CmarkTag::Paragraph => MdTag::Paragraph,
        CmarkTag::Heading(level, ..) => MdTag::Heading(md_level(*level)),
        CmarkTag::BlockQuote => MdTag::BlockQuote,
        CmarkTag::CodeBlock(CodeBlockKind::Indented) => MdTag::CodeBlock(None),
        CmarkTag::CodeBlock(CodeBlockKind::Fenced(name)) => MdTag::CodeBlock(Some(name.to_string())),
        CmarkTag::Emphasis => MdTag::Emphasis,
        CmarkTag::Strong => MdTag::Strong,
        CmarkTag::Strikethrough => MdTag::Strikethrough,
        CmarkTag::List(_) | CmarkTag::Item | CmarkTag::FootnoteDefinition(_) | CmarkTag::Table(_)
        | CmarkTag::TableHead | CmarkTag::TableRow | CmarkTag::TableCell | CmarkTag::Link(..)
        | CmarkTag::Image(..) => md_other_tag(tag),
    }
}

/// Tells the elements of `pulldown_cmark` for lists, footnotes, tables,
/// links and images apart, one case for each. The other elements are handed
/// to `md_tag`. Nothing is claimed of the result.
#[verifier::external_body]
fn md_other_tag(tag: &CmarkTag<'_>) -> MdTag {
    match tag {
        CmarkTag::List(_) => MdTag::List,
        CmarkTag::Item => MdTag::Item,
        CmarkTag::FootnoteDefinition(_) => MdTag::FootnoteDefinition,
        CmarkTag::Table(_) => MdTag::Table,
        CmarkTag::TableHead => MdTag::TableHead,
        CmarkTag::TableRow => MdTag::TableRow,
        CmarkTag::TableCell => MdTag::TableCell,
        CmarkTag::Link(..) => MdTag::Link,
        CmarkTag::Image(..) => MdTag::Image,
        CmarkTag::Paragraph | CmarkTag::Heading(..) | CmarkTag::BlockQuote | CmarkTag::CodeBlock(_)
        | CmarkTag::Emphasis | CmarkTag::Strong | CmarkTag::Strikethrough => md_tag(tag),
    }
}

/// Tells the variants of `pulldown_cmark::Event` apart, one case for each;
/// texts are copied. Nothing is claimed of the result.
#[verifier::external_body]
fn md_event(event: Event<'_>) -> MdEvent {
    match event {
        Event::Start(tag) => MdEvent::Start(md_tag(&tag)),
        Event::End(tag) => MdEvent::End(md_tag(&tag)),
        Event::Text(text) => MdEvent::Text(text.to_string()),
        Event::Code(text) => MdEvent::Code(text.to_string()),
        Event::Html(text) => MdEvent::Html(text.to_string()),
        Event::FootnoteReference(_) => MdEvent::FootnoteReference,
        Event::SoftBreak => MdEvent::SoftBreak,
        Event::HardBreak => MdEvent::HardBreak,
        Event::Rule => MdEvent::Rule,
        Event::TaskListMarker(_) => MdEvent::TaskListMarker,
    }
}

/// Runs `pulldown_cmark::Parser::new_ext` over the text, with
/// `Options::ENABLE_STRIKETHROUGH` alone, and collects its events. The
/// events depend on the text alone; they are given the name
/// `cmark_event_seq` and nothing more is claimed of them.
#[verifier::external_body]
pub(crate) fn cmark_events(text: &str) -> (events: Vec<MdEvent>)
    ensures
        events_view(events@) == cmark_event_seq(text@),
{
    let mut options = pulldown_cmark::Options::empty();
    options.insert(pulldown_cmark::Options::ENABLE_STRIKETHROUGH);
    pulldown_cmark::Parser::new_ext(text, options).map(md_event).collect()
}

} // verus!
