//! The Markdown events of a slide, as plain values, from `pulldown_cmark`.
use pulldown_cmark::{CodeBlockKind, Event, Options, Parser, Tag, TagEnd};
use vstd::prelude::*;

verus! {

/// The start tags that slides are made of.
#[derive(Debug, Clone)]
pub enum MdTag {
    Paragraph,
    /// Heading level 1 to 6.
    Heading(u8),
    BlockQuote,
    /// The first number of an ordered list; `None` for a bullet list.
    List(Option<u64>),
    Item,
    /// The info string of a fenced block; `None` for an indented block.
    CodeBlock(Option<String>),
    Table,
    TableHead,
    TableRow,
    TableCell,
    /// The image's destination.
    Image(String),
    Other,
}

/// The end tags that slides are made of.
#[derive(Debug, Clone, Copy, PartialEq, Eq, Structural)]
pub enum MdEnd {
    Paragraph,
    Heading(u8),
    BlockQuote,
    List,
    Item,
    CodeBlock,
    Table,
    TableHead,
    TableRow,
    TableCell,
    Image,
    Other,
}

/// A Markdown event: a tag opens or closes, text, inline code, raw HTML, a line break,
/// or something slides do not use.
#[derive(Debug, Clone)]
pub enum MdEvent {
    Start(MdTag),
    End(MdEnd),
    Text(String),
    Code(String),
    Html(String),
    Break,
    Other,
}

pub enum MdTagModel {
    Paragraph,
    Heading(u8),
    BlockQuote,
    List(Option<u64>),
    Item,
    CodeBlock(Option<Seq<char>>),
    Table,
    TableHead,
    TableRow,
    TableCell,
    Image(Seq<char>),
    Other,
}

pub enum MdEventModel {
    Start(MdTagModel),
    End(MdEnd),
    Text(Seq<char>),
    Code(Seq<char>),
    Html(Seq<char>),
    Break,
    Other,
}

impl View for MdTag {
    type V = MdTagModel;

    open spec fn view(&self) -> MdTagModel {
        match self {
            MdTag::Paragraph => MdTagModel::Paragraph,
            MdTag::Heading(l) => MdTagModel::Heading(*l),
            MdTag::BlockQuote => MdTagModel::BlockQuote,
            MdTag::List(s) => MdTagModel::List(*s),
            MdTag::Item => MdTagModel::Item,
            MdTag::CodeBlock(l) => MdTagModel::CodeBlock(
                match l {
                    Some(s) => Some(s@),
                    None => None,
                },
            ),
            MdTag::Table => MdTagModel::Table,
            MdTag::TableHead => MdTagModel::TableHead,
            MdTag::TableRow => MdTagModel::TableRow,
            MdTag::TableCell => MdTagModel::TableCell,
            MdTag::Image(d) => MdTagModel::Image(d@),
            MdTag::Other => MdTagModel::Other,
        }
    }
}

impl View for MdEvent {
    type V = MdEventModel;

    open spec fn view(&self) -> MdEventModel {
        match self {
            MdEvent::Start(t) => MdEventModel::Start(t@),
            MdEvent::End(e) => MdEventModel::End(*e),
            MdEvent::Text(s) => MdEventModel::Text(s@),
            MdEvent::Code(s) => MdEventModel::Code(s@),
            MdEvent::Html(s) => MdEventModel::Html(s@),
            MdEvent::Break => MdEventModel::Break,
            MdEvent::Other => MdEventModel::Other,
        }
    }
}

pub open spec fn events_model(v: Seq<MdEvent>) -> Seq<MdEventModel> {
    v.map_values(|e: MdEvent| e@)
}

/// The events that `pulldown_cmark` reads from a text, with tables, strikethrough
/// and task lists on, each taken as an `MdEvent`.
pub uninterp spec fn markdown_events(text: Seq<char>) -> Seq<MdEventModel>;

/// `pulldown_cmark::Event`.
#[verifier::external_type_specification]
#[verifier::external_body]
pub struct ExEvent<'a>(Event<'a>);

/// `pulldown_cmark::Tag`.
#[verifier::external_type_specification]
#[verifier::external_body]
pub struct ExTag<'a>(Tag<'a>);

/// `pulldown_cmark::TagEnd`.
#[verifier::external_type_specification]
#[verifier::external_body]
pub struct ExTagEnd(TagEnd);

/// `pulldown_cmark::Parser::new_ext` run to the end, with tables, strikethrough and
/// task lists on: the events of `text`, which `markdown_events` names. Each event is
/// taken apart by `event_of`.
#[verifier::external_body]
pub(crate) fn commonmark_events(text: &str) -> (r: Vec<MdEvent>)
    ensures
        events_model(r@) == markdown_events(text@),
{
    let options = Options::ENABLE_TABLES | Options::ENABLE_STRIKETHROUGH | Options::ENABLE_TASKLISTS;
    Parser::new_ext(text, options).map(event_of).collect()
}

/// A `pulldown_cmark::Event` as an `MdEvent`, variant by variant; part of
/// `commonmark_events`.
#[verifier::external_body]
fn event_of(e: Event) -> MdEvent {
    match e {
        Event::Start(t) => MdEvent::Start(tag_of(t)),
        Event::End(t) => MdEvent::End(end_of(t)),
        Event::Text(s) => MdEvent::Text(s.to_string()),
        Event::Code(s) => MdEvent::Code(s.to_string()),
        Event::Html(s) => MdEvent::Html(s.to_string()),
        Event::SoftBreak | Event::HardBreak => MdEvent::Break,
        _ => MdEvent::Other,
    }
}

/// A `pulldown_cmark::Tag` as an `MdTag`, variant by variant; part of
/// `commonmark_events`.
#[verifier::external_body]
fn tag_of(t: Tag) -> MdTag {
    match t {
        Tag::Paragraph => MdTag::Paragraph,
        Tag::Heading { level, .. } => MdTag::Heading(level as u8),
        Tag::BlockQuote(_) => MdTag::BlockQuote,
        Tag::List(start) => MdTag::List(start),
        Tag::Item => MdTag::Item,
        Tag::CodeBlock(CodeBlockKind::Fenced(lang)) => MdTag::CodeBlock(Some(lang.to_string())),
        Tag::CodeBlock(CodeBlockKind::Indented) => MdTag::CodeBlock(None),
        Tag::Table(_) => MdTag::Table,
        Tag::TableHead => MdTag::TableHead,
        Tag::TableRow => MdTag::TableRow,
        Tag::TableCell => MdTag::TableCell,
        Tag::Image { dest_url, .. } => MdTag::Image(dest_url.to_string()),
        _ => MdTag::Other,
    }
}

/// A `pulldown_cmark::TagEnd` as an `MdEnd`, variant by variant; part of
/// `commonmark_events`.
#[verifier::external_body]
fn end_of(t: TagEnd) -> MdEnd {
    match t {
        TagEnd::Paragraph => MdEnd::Paragraph,
        TagEnd::Heading(level) => MdEnd::Heading(level as u8),
        TagEnd::BlockQuote(_) => MdEnd::BlockQuote,
        TagEnd::List(_) => MdEnd::List,
        TagEnd::Item => MdEnd::Item,
        TagEnd::CodeBlock => MdEnd::CodeBlock,
        TagEnd::Table => MdEnd::Table,
        TagEnd::TableHead => MdEnd::TableHead,
        TagEnd::TableRow => MdEnd::TableRow,
        TagEnd::TableCell => MdEnd::TableCell,
        TagEnd::Image => MdEnd::Image,
        _ => MdEnd::Other,
    }
}

} // verus!
