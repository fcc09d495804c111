//! Markdown events as plain values, read from and written back through
//! `pulldown_cmark`.
use vstd::prelude::*;
use pulldown_cmark::{CodeBlockKind, CowStr, Event, LinkType, Options, Parser, Tag, TagEnd};
use crate::markdown::toc::Level;

verus! {

#[verifier::external_type_specification]
#[verifier::external_body]
pub struct ExEvent<'a>(Event<'a>);

#[verifier::external_type_specification]
#[verifier::external_body]
pub struct ExCowStr<'a>(CowStr<'a>);

#[verifier::external_type_specification]
#[verifier::external_body]
pub struct ExLinkType(LinkType);

#[verifier::external_type_specification]
#[verifier::external_body]
pub struct ExTag<'a>(Tag<'a>);

#[verifier::external_type_specification]
#[verifier::external_body]
pub struct ExCodeBlockKind<'a>(CodeBlockKind<'a>);

#[verifier::external_type_specification]
#[verifier::external_body]
pub struct ExHeadingLevel(pulldown_cmark::HeadingLevel);

/// A Markdown event: the kinds that rendering reads or rewrites hold plain
/// values; every other event is carried through unchanged.
pub enum MdEvent {
    HeadingStart {
        level: Level,
        id: Option<String>,
        classes: Vec<CowStr<'static>>,
        attrs: Vec<(CowStr<'static>, Option<CowStr<'static>>)>,
    },
    HeadingEnd { level: Level },
    /// The start of a code block: its fence's info string, `None` when indented.
    CodeBlockStart { fence: Option<String> },
    CodeBlockEnd,
    ImageStart { link_type: LinkType, dest_url: String, title: CowStr<'static>, label: CowStr<'static> },
    Text(String),
    Code(String),
    InlineMath(String),
    DisplayMath(String),
    Html(String),
    Other(Event<'static>),
}

/// The value of a Markdown event, with strings as character sequences.
pub enum MdEventView {
    HeadingStart {
        level: Level,
        id: Option<Seq<char>>,
        classes: Seq<CowStr<'static>>,
        attrs: Seq<(CowStr<'static>, Option<CowStr<'static>>)>,
    },
    HeadingEnd { level: Level },
    CodeBlockStart { fence: Option<Seq<char>> },
    CodeBlockEnd,
    ImageStart { link_type: LinkType, dest_url: Seq<char>, title: CowStr<'static>, label: CowStr<'static> },
    Text(Seq<char>),
    Code(Seq<char>),
    InlineMath(Seq<char>),
    DisplayMath(Seq<char>),
    Html(Seq<char>),
    Other(Event<'static>),
}

/// The characters of an optional string.
pub open spec fn opt_view(s: Option<String>) -> Option<Seq<char>> {
    match s {
        Some(x) => Some(x@),
        None => None,
    }
}

impl View for MdEvent {
    type V = MdEventView;

    open spec fn view(&self) -> MdEventView {
        match self {
            MdEvent::HeadingStart { level, id, classes, attrs } => MdEventView::HeadingStart {
                level: *level,
                id: opt_view(*id),
                classes: classes@,
                attrs: attrs@,
            },
            MdEvent::HeadingEnd { level } => MdEventView::HeadingEnd { level: *level },
            MdEvent::CodeBlockStart { fence } => MdEventView::CodeBlockStart { fence: opt_view(*fence) },
            MdEvent::CodeBlockEnd => MdEventView::CodeBlockEnd,
            MdEvent::ImageStart { link_type, dest_url, title, label } => MdEventView::ImageStart {
                link_type: *link_type,
                dest_url: dest_url@,
                title: *title,
                label: *label,
            },
            MdEvent::Text(s) => MdEventView::Text(s@),
            MdEvent::Code(s) => MdEventView::Code(s@),
            MdEvent::InlineMath(s) => MdEventView::InlineMath(s@),
            MdEvent::DisplayMath(s) => MdEventView::DisplayMath(s@),
            MdEvent::Html(s) => MdEventView::Html(s@),
            MdEvent::Other(e) => MdEventView::Other(*e),
        }
    }
}

/// The values of a list of events.
pub open spec fn events_view(events: Seq<MdEvent>) -> Seq<MdEventView> {
    events.map_values(|e: MdEvent| e@)
}

/// The `pulldown_cmark::Options` bit for tables.
pub const OPTION_TABLES: u32 = 1 << 1;

/// The `pulldown_cmark::Options` bit for footnotes.
pub const OPTION_FOOTNOTES: u32 = 1 << 2;

/// The `pulldown_cmark::Options` bit for strikethrough.
pub const OPTION_STRIKETHROUGH: u32 = 1 << 3;

/// The `pulldown_cmark::Options` bit for task lists.
pub const OPTION_TASKLISTS: u32 = 1 << 4;

/// The `pulldown_cmark::Options` bit for `{#id .class}` heading attributes.
pub const OPTION_HEADING_ATTRIBUTES: u32 = 1 << 6;

/// The `pulldown_cmark::Options` bit for `$...$` and `$$...$$` math.
pub const OPTION_MATH: u32 = 1 << 10;

/// The events that `pulldown_cmark` reads from `text` with the given option
/// bits, in order.
pub uninterp spec fn markdown_events(text: Seq<char>, options: u32) -> Seq<MdEventView>;

/// The HTML that `pulldown_cmark::html::push_html` writes for the events.
pub uninterp spec fn cmark_html(events: Seq<MdEventView>) -> Seq<char>;

/// `Parser::new_ext` with `Options::from_bits_truncate(options)`, each event
/// converted one for one. The result is named by `markdown_events`.
#[verifier::external_body]
pub(crate) fn parse_events(text: &str, options: u32) -> (r: Vec<MdEvent>)
    ensures
        events_view(r@) == markdown_events(text@, options),
{
    Parser::new_ext(text, Options::from_bits_truncate(options)).map(from_cmark).collect()
}

/// `pulldown_cmark::html::push_html` into an empty string, each event
/// converted back one for one. The result is named by `cmark_html`.
#[verifier::external_body]
pub(crate) fn push_html(events: Vec<MdEvent>) -> (r: String)
    ensures
        r@ == cmark_html(events_view(events@)),
{
    let mut out = String::new();
    pulldown_cmark::html::push_html(&mut out, events.into_iter().map(to_cmark));
    out
}

/// Converts a `pulldown_cmark` event into an `MdEvent`, moving its fields.
#[verifier::external_body]
fn from_cmark(e: Event<'_>) -> MdEvent {
    match e {
        Event::Start(tag) => from_cmark_tag(tag),
        Event::End(TagEnd::Heading(level)) => MdEvent::HeadingEnd { level: from_cmark_level(level) },
        Event::End(TagEnd::CodeBlock) => MdEvent::CodeBlockEnd,
        Event::Text(s) => MdEvent::Text(s.into_string()),
        Event::Code(s) => MdEvent::Code(s.into_string()),
        Event::InlineMath(s) => MdEvent::InlineMath(s.into_string()),
        Event::DisplayMath(s) => MdEvent::DisplayMath(s.into_string()),
        Event::Html(s) => MdEvent::Html(s.into_string()),
        other => MdEvent::Other(other.into_static()),
    }
}

/// Converts the start of a `pulldown_cmark` element, moving its fields.
#[verifier::external_body]
fn from_cmark_tag(tag: Tag<'_>) -> MdEvent {
    match tag {
        Tag::Heading { level, id, classes, attrs } => heading_start(level, id, classes, attrs),
        Tag::CodeBlock(CodeBlockKind::Fenced(info)) => MdEvent::CodeBlockStart { fence: Some(info.into_string()) },
        Tag::CodeBlock(CodeBlockKind::Indented) => MdEvent::CodeBlockStart { fence: None },
        Tag::Image { link_type, dest_url, title, id } => MdEvent::ImageStart { link_type, dest_url: dest_url.into_string(), title: title.into_static(), label: id.into_static() },
        other => MdEvent::Other(Event::Start(other).into_static()),
    }
}

/// The heading start event with owned fields.
#[verifier::external_body]
fn heading_start(
    level: pulldown_cmark::HeadingLevel,
    id: Option<CowStr<'_>>,
    classes: Vec<CowStr<'_>>,
    attrs: Vec<(CowStr<'_>, Option<CowStr<'_>>)>,
) -> MdEvent {
    MdEvent::HeadingStart {
        level: from_cmark_level(level),
        id: id.map(|s| s.into_string()),
        classes: classes.into_iter().map(|c| c.into_static()).collect(),
        attrs: attrs.into_iter().map(|(k, v)| (k.into_static(), v.map(|v| v.into_static()))).collect(),
    }
}

/// Converts a `pulldown_cmark` heading level.
#[verifier::external_body]
fn from_cmark_level(level: pulldown_cmark::HeadingLevel) -> Level {
    match level {
        pulldown_cmark::HeadingLevel::H1 => Level::H1,
        pulldown_cmark::HeadingLevel::H2 => Level::H2,
        pulldown_cmark::HeadingLevel::H3 => Level::H3,
        pulldown_cmark::HeadingLevel::H4 => Level::H4,
        pulldown_cmark::HeadingLevel::H5 => Level::H5,
        pulldown_cmark::HeadingLevel::H6 => Level::H6,
    }
}

/// Converts a heading level back to `pulldown_cmark`'s.
#[verifier::external_body]
fn to_cmark_level(level: Level) -> pulldown_cmark::HeadingLevel {
    match level {
        Level::H1 => pulldown_cmark::HeadingLevel::H1,
        Level::H2 => pulldown_cmark::HeadingLevel::H2,
        Level::H3 => pulldown_cmark::HeadingLevel::H3,
        Level::H4 => pulldown_cmark::HeadingLevel::H4,
        Level::H5 => pulldown_cmark::HeadingLevel::H5,
        Level::H6 => pulldown_cmark::HeadingLevel::H6,
    }
}

/// Converts an `MdEvent` back into a `pulldown_cmark` event, moving its fields.
#[verifier::external_body]
fn to_cmark(e: MdEvent) -> Event<'static> {
    match e {
        MdEvent::HeadingStart { level, id, classes, attrs } => heading_event(level, id, classes, attrs),
        MdEvent::HeadingEnd { level } => heading_end_event(level),
        MdEvent::CodeBlockStart { fence } => code_block_event(fence),
        MdEvent::CodeBlockEnd => Event::End(TagEnd::CodeBlock),
        MdEvent::ImageStart { link_type, dest_url, title, label } => image_event(link_type, dest_url, title, label),
        MdEvent::Text(s) => Event::Text(s.into()),
        MdEvent::Code(s) => Event::Code(s.into()),
        MdEvent::InlineMath(s) => Event::InlineMath(s.into()),
        MdEvent::DisplayMath(s) => Event::DisplayMath(s.into()),
        MdEvent::Html(s) => Event::Html(s.into()),
        MdEvent::Other(e) => e,
    }
}

/// The start of a heading as a `pulldown_cmark` event.
#[verifier::external_body]
fn heading_event(
    level: Level,
    id: Option<String>,
    classes: Vec<CowStr<'static>>,
    attrs: Vec<(CowStr<'static>, Option<CowStr<'static>>)>,
) -> Event<'static> {
    Event::Start(Tag::Heading { level: to_cmark_level(level), id: id.map(CowStr::from), classes, attrs })
}

/// The start of an image as a `pulldown_cmark` event.
#[verifier::external_body]
fn image_event(link_type: LinkType, dest_url: String, title: CowStr<'static>, label: CowStr<'static>) -> Event<'static> {
    Event::Start(Tag::Image { link_type, dest_url: dest_url.into(), title, id: label })
}

/// The end of a heading as a `pulldown_cmark` event.
#[verifier::external_body]
fn heading_end_event(level: Level) -> Event<'static> {
    Event::End(TagEnd::Heading(to_cmark_level(level)))
}

/// The start of a code block as a `pulldown_cmark` event.
#[verifier::external_body]
fn code_block_event(fence: Option<String>) -> Event<'static> {
    match fence {
        Some(info) => Event::Start(Tag::CodeBlock(CodeBlockKind::Fenced(info.into()))),
        None => Event::Start(Tag::CodeBlock(CodeBlockKind::Indented)),
    }
}

} // verus!
