//! The Markdown event stream, as the renderer reads it.

use vstd::prelude::*;
use pulldown_cmark::{CodeBlockKind, Event, Options, Parser, Tag};

verus! {

/// The element kinds that the renderer tells apart. Headings keep no
/// level; every other kind of element (block quotes, tables, images,
/// footnote definitions) is `Other`.
#[derive(Debug)]
pub enum MdTag {
    Paragraph,
    Heading,
    /// A fenced code block with its info string.
    FencedCodeBlock(String),
    IndentedCodeBlock,
    /// A list; ordered lists carry the number of their first item.
    List(Option<u64>),
    Item,
    Emphasis,
    Strong,
    Strikethrough,
    /// A link with its destination.
    Link(String),
    Other,
}

/// One event of a Markdown document, in document order.
#[derive(Debug)]
pub enum MdEvent {
    Start(MdTag),
    End(MdTag),
    Text(String),
    Code(String),
    Html(String),
    FootnoteReference(String),
    SoftBreak,
    HardBreak,
    Rule,
    TaskListMarker(bool),
}

#[verifier::external_type_specification]
#[verifier::external_body]
pub struct ExEvent<'a>(Event<'a>);

#[verifier::external_type_specification]
#[verifier::external_body]
pub struct ExTag<'a>(Tag<'a>);

/// `pulldown_cmark::Options::ENABLE_TABLES`.
pub const ENABLE_TABLES: u32 = 2;
/// `pulldown_cmark::Options::ENABLE_FOOTNOTES`.
pub const ENABLE_FOOTNOTES: u32 = 4;
/// `pulldown_cmark::Options::ENABLE_STRIKETHROUGH`.
pub const ENABLE_STRIKETHROUGH: u32 = 8;
/// `pulldown_cmark::Options::ENABLE_TASKLISTS`.
pub const ENABLE_TASKLISTS: u32 = 16;

/// The parser options the renderer reads documents with: strikethrough,
/// task lists, tables and footnotes.
pub open spec fn spec_markdown_options() -> u32 {
    ENABLE_STRIKETHROUGH | ENABLE_TASKLISTS | ENABLE_TABLES | ENABLE_FOOTNOTES
}

/// The parser options as `pulldown_cmark` flag bits.
pub fn markdown_options() -> (bits: u32)
    ensures
        bits == spec_markdown_options(),
{
    ENABLE_STRIKETHROUGH | ENABLE_TASKLISTS | ENABLE_TABLES | ENABLE_FOOTNOTES
}

/// The events that `pulldown_cmark::Parser::new_ext` yields for `input`
/// with the options whose flag bits are `options` (unknown bits dropped),
/// each taken as an `MdEvent`.
pub uninterp spec fn markdown_events(input: Seq<char>, options: u32) -> Seq<MdEvent>;

/// Takes a `pulldown_cmark::Tag` as an `MdTag`, one variant for one
/// variant; block quotes, footnote definitions, tables and their parts, and
/// images become `Other`. Nothing is claimed of the result.
#[verifier::external_body]
fn md_tag(tag: Tag<'_>) -> MdTag {
    match tag {
        Tag::Paragraph => MdTag::Paragraph,
        Tag::Heading(..) => MdTag::Heading,
        Tag::CodeBlock(CodeBlockKind::Fenced(info)) => MdTag::FencedCodeBlock(info.to_string()),
        Tag::CodeBlock(CodeBlockKind::Indented) => MdTag::IndentedCodeBlock,
        Tag::List(start) => MdTag::List(start),
        Tag::Item => MdTag::Item,
        Tag::Emphasis => MdTag::Emphasis,
        Tag::Strong => MdTag::Strong,
        Tag::Strikethrough => MdTag::Strikethrough,
        Tag::Link(_, destination, _) => MdTag::Link(destination.to_string()),
        Tag::BlockQuote | Tag::FootnoteDefinition(_) | Tag::Table(_) | Tag::TableHead
        | Tag::TableRow | Tag::TableCell | Tag::Image(..) => MdTag::Other,
    }
}

/// Takes a `pulldown_cmark::Event` as an `MdEvent`, one variant for one
/// variant, text moved into owned strings. Nothing is claimed of the result.
#[verifier::external_body]
fn md_event(event: Event<'_>) -> MdEvent {
    match event {
        Event::Start(tag) => MdEvent::Start(md_tag(tag)),
        Event::End(tag) => MdEvent::End(md_tag(tag)),
        Event::Text(text) => MdEvent::Text(text.to_string()),
        Event::Code(text) => MdEvent::Code(text.to_string()),
        Event::Html(text) => MdEvent::Html(text.to_string()),
        Event::FootnoteReference(name) => MdEvent::FootnoteReference(name.to_string()),
        Event::SoftBreak => MdEvent::SoftBreak,
        Event::HardBreak => MdEvent::HardBreak,
        Event::Rule => MdEvent::Rule,
        Event::TaskListMarker(checked) => MdEvent::TaskListMarker(checked),
    }
}

/// Parses `input` with `pulldown_cmark::Parser::new_ext`, with the options
/// `Options::from_bits_truncate(options)`, and collects its events. The
/// contract claims only that the events are a function of the input and
/// the options (`markdown_events`); what they are is the parser's.
#[verifier::external_body]
pub fn parse_markdown(input: &str, options: u32) -> (events: Vec<MdEvent>)
    ensures
        events@ == markdown_events(input@, options),
{
    Parser::new_ext(input, Options::from_bits_truncate(options)).map(md_event).collect()
}

} // verus!
