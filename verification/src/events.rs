use vstd::prelude::*;
use pulldown_cmark::{CodeBlockKind, Event, Options, Parser, Tag, TagEnd};

verus! {

/// How the cells of a table column are aligned.
#[derive(Clone, Copy, Debug, PartialEq, Eq, Structural)]
pub enum CellAlignment {
    Unaligned,
    Left,
    Center,
    Right,
}

/// The opening tag of a markdown element, as far as the renderer tells elements apart.
#[derive(Debug)]
pub enum MdTag {
    Paragraph,
    /// A heading of the given level (1 to 6).
    Heading(u8),
    /// A code block given by indentation.
    CodeBlockIndented,
    /// A fenced code block with its info string.
    CodeBlockFenced(String),
    List,
    Item,
    /// A table with the alignment of each column.
    Table(Vec<CellAlignment>),
    TableHead,
    TableRow,
    TableCell,
    Emphasis,
    Strong,
    /// Any other element.
    Other,
}

/// The closing tag of a markdown element.
#[derive(Clone, Copy, Debug, PartialEq, Eq, Structural)]
pub enum MdTagEnd {
    Paragraph,
    Heading,
    CodeBlock,
    List,
    Item,
    Table,
    TableHead,
    TableRow,
    TableCell,
    Emphasis,
    Strong,
    Other,
}

/// One event of a markdown document read from start to end.
#[derive(Debug)]
pub enum MdEvent {
    Start(MdTag),
    End(MdTagEnd),
    Text(String),
    /// Inline code.
    Code(String),
    SoftBreak,
    HardBreak,
    /// Any other event.
    Other,
}

/// An opening tag as the specification sees it.
pub enum MdTagView {
    Paragraph,
    Heading(u8),
    CodeBlockIndented,
    CodeBlockFenced(Seq<char>),
    List,
    Item,
    Table(Seq<CellAlignment>),
    TableHead,
    TableRow,
    TableCell,
    Emphasis,
    Strong,
    Other,
}

/// An event as the specification sees it.
pub enum MdEventView {
    Start(MdTagView),
    End(MdTagEnd),
    Text(Seq<char>),
    Code(Seq<char>),
    SoftBreak,
    HardBreak,
    Other,
}

impl View for MdTag {
    type V = MdTagView;

    open spec fn view(&self) -> MdTagView {
        match self {
            MdTag::Paragraph => MdTagView::Paragraph,
            MdTag::Heading(l) => MdTagView::Heading(*l),
            MdTag::CodeBlockIndented => MdTagView::CodeBlockIndented,
            MdTag::CodeBlockFenced(s) => MdTagView::CodeBlockFenced(s@),
            MdTag::List => MdTagView::List,
            MdTag::Item => MdTagView::Item,
            MdTag::Table(a) => MdTagView::Table(a@),
            MdTag::TableHead => MdTagView::TableHead,
            MdTag::TableRow => MdTagView::TableRow,
            MdTag::TableCell => MdTagView::TableCell,
            MdTag::Emphasis => MdTagView::Emphasis,
            MdTag::Strong => MdTagView::Strong,
            MdTag::Other => MdTagView::Other,
        }
    }
}

impl View for MdEvent {
    type V = MdEventView;

    open spec fn view(&self) -> MdEventView {
        match self {
            MdEvent::Start(t) => MdEventView::Start(t@),
            MdEvent::End(t) => MdEventView::End(*t),
            MdEvent::Text(s) => MdEventView::Text(s@),
            MdEvent::Code(s) => MdEventView::Code(s@),
            MdEvent::SoftBreak => MdEventView::SoftBreak,
            MdEvent::HardBreak => MdEventView::HardBreak,
            MdEvent::Other => MdEventView::Other,
        }
    }
}

/// The view of a sequence of events.
pub open spec fn events_view(events: Seq<MdEvent>) -> Seq<MdEventView> {
    events.map_values(|e: MdEvent| e@)
}

/// The events that pulldown-cmark reads from a markdown text with tables enabled.
pub uninterp spec fn markdown_events(text: Seq<char>) -> Seq<MdEventView>;

#[verifier::external_type_specification]
#[verifier::external_body]
pub struct ExCmarkEvent<'a>(pulldown_cmark::Event<'a>);

#[verifier::external_type_specification]
#[verifier::external_body]
pub struct ExCmarkTag<'a>(pulldown_cmark::Tag<'a>);

#[verifier::external_type_specification]
#[verifier::external_body]
pub struct ExCmarkTagEnd(pulldown_cmark::TagEnd);

#[verifier::external_type_specification]
#[verifier::external_body]
pub struct ExCmarkAlignment(pulldown_cmark::Alignment);

/// Calls `Parser::new_ext` on `text` with `Options::ENABLE_TABLES` and
/// collects its events, each turned into an [`MdEvent`]. Claimed: the result is the parser's
/// event sequence for `text`, which [`markdown_events`] names.
#[verifier::external_body]
pub fn parse_markdown(text: &str) -> (events: Vec<MdEvent>)
    ensures
        events_view(events@) == markdown_events(text@),
{
    let mut options = Options::empty();
    options.insert(Options::ENABLE_TABLES);
    Parser::new_ext(text, options).map(event_from_cmark).collect()
}

/// Turns a `pulldown_cmark::Event` into an [`MdEvent`], variant for variant.
#[verifier::external_body]
fn event_from_cmark(event: Event<'_>) -> MdEvent {
    match event {
        Event::Start(tag) => MdEvent::Start(tag_from_cmark(tag)),
        Event::End(tag) => MdEvent::End(tag_end_from_cmark(tag)),
        Event::Text(text) => MdEvent::Text(text.into_string()),
        Event::Code(code) => MdEvent::Code(code.into_string()),
        Event::SoftBreak => MdEvent::SoftBreak,
        Event::HardBreak => MdEvent::HardBreak,
        _ => MdEvent::Other,
    }
}

/// Turns a `pulldown_cmark::Tag` into an [`MdTag`], variant for variant.
#[verifier::external_body]
fn tag_from_cmark(tag: Tag<'_>) -> MdTag {
    match tag {
        Tag::Paragraph => MdTag::Paragraph,
        Tag::Heading { level, .. } => MdTag::Heading(level as u8),
        Tag::CodeBlock(CodeBlockKind::Indented) => MdTag::CodeBlockIndented,
        Tag::CodeBlock(CodeBlockKind::Fenced(info)) => MdTag::CodeBlockFenced(info.into_string()),
        Tag::List(_) => MdTag::List,
        Tag::Item => MdTag::Item,
        Tag::Table(a) => MdTag::Table(a.into_iter().map(alignment_from_cmark).collect()),
        Tag::TableHead => MdTag::TableHead,
        Tag::TableRow => MdTag::TableRow,
        Tag::TableCell => MdTag::TableCell,
        Tag::Emphasis => MdTag::Emphasis,
        Tag::Strong => MdTag::Strong,
        _ => MdTag::Other,
    }
}

/// Turns a `pulldown_cmark::TagEnd` into an [`MdTagEnd`], variant for variant.
#[verifier::external_body]
fn tag_end_from_cmark(tag: TagEnd) -> MdTagEnd {
    match tag {
        TagEnd::Paragraph => MdTagEnd::Paragraph,
        TagEnd::Heading(_) => MdTagEnd::Heading,
        TagEnd::CodeBlock => MdTagEnd::CodeBlock,
        TagEnd::List(_) => MdTagEnd::List,
        TagEnd::Item => MdTagEnd::Item,
        TagEnd::Table => MdTagEnd::Table,
        TagEnd::TableHead => MdTagEnd::TableHead,
        TagEnd::TableRow => MdTagEnd::TableRow,
        TagEnd::TableCell => MdTagEnd::TableCell,
        TagEnd::Emphasis => MdTagEnd::Emphasis,
        TagEnd::Strong => MdTagEnd::Strong,
        _ => MdTagEnd::Other,
    }
}

/// Turns a `pulldown_cmark::Alignment` into an [`CellAlignment`], variant for variant.
#[verifier::external_body]
fn alignment_from_cmark(a: pulldown_cmark::Alignment) -> CellAlignment {
    match a {
        pulldown_cmark::Alignment::None => CellAlignment::Unaligned,
        pulldown_cmark::Alignment::Left => CellAlignment::Left,
        pulldown_cmark::Alignment::Center => CellAlignment::Center,
        pulldown_cmark::Alignment::Right => CellAlignment::Right,
    }
}

} // verus!
