//! The event stream that flows through the rewriters, and its mathematical view.
use vstd::prelude::*;

verus! {

/// Heading depth, from the shallowest to the deepest supported level.
#[derive(Clone, Copy, Debug, PartialEq, Eq, Structural)]
pub enum HeadingLevel {
    H1,
    H2,
    H3,
    H4,
    H5,
    H6,
}

/// How a code block was written: fenced with an optional language marker, or indented.
#[derive(Clone, Debug, PartialEq, Eq)]
pub enum CodeBlockKind {
    Fenced(String),
    Indented,
}

/// The kind of a structural element opened by `Event::Start`.
#[derive(Clone, Debug, PartialEq, Eq)]
pub enum Tag {
    Heading { level: HeadingLevel, id: Option<String>, classes: Vec<String> },
    Paragraph,
    BlockQuote,
    CodeBlock(CodeBlockKind),
    FootnoteDefinition(String),
    Image { dest_url: String, title: String },
    Emphasis,
    Strong,
    Link { dest_url: String, title: String },
    List(Option<u64>),
    Item,
}

/// The kind of a structural element closed by `Event::End`.
#[derive(Clone, Copy, Debug, PartialEq, Eq, Structural)]
pub enum TagEnd {
    Heading(HeadingLevel),
    Paragraph,
    BlockQuote,
    CodeBlock,
    FootnoteDefinition,
    Image,
    Emphasis,
    Strong,
    Link,
    List(bool),
    Item,
}

/// One unit of a document's structural stream.
#[derive(Clone, Debug, PartialEq, Eq)]
pub enum Event {
    Start(Tag),
    End(TagEnd),
    Text(String),
    Code(String),
    Html(String),
    InlineHtml(String),
    SoftBreak,
    HardBreak,
    FootnoteReference(String),
    InlineMath(String),
    DisplayMath(String),
}

/// The mathematical value of a code block kind.
pub enum CodeKindV {
    Fenced(Seq<char>),
    Indented,
}

/// The mathematical value of a `Tag`: strings become character sequences.
pub enum TagV {
    Heading { level: HeadingLevel, id: Option<Seq<char>>, classes: Seq<Seq<char>> },
    Paragraph,
    BlockQuote,
    CodeBlock(CodeKindV),
    FootnoteDefinition(Seq<char>),
    Image { dest_url: Seq<char>, title: Seq<char> },
    Emphasis,
    Strong,
    Link { dest_url: Seq<char>, title: Seq<char> },
    List(Option<u64>),
    Item,
}

/// The mathematical value of an `Event`.
pub enum EventV {
    Start(TagV),
    End(TagEnd),
    Text(Seq<char>),
    Code(Seq<char>),
    Html(Seq<char>),
    InlineHtml(Seq<char>),
    SoftBreak,
    HardBreak,
    FootnoteReference(Seq<char>),
    InlineMath(Seq<char>),
    DisplayMath(Seq<char>),
}

pub open spec fn opt_view(o: Option<String>) -> Option<Seq<char>> {
    match o {
        Some(s) => Some(s@),
        None => None,
    }
}

pub open spec fn strings_view(v: Seq<String>) -> Seq<Seq<char>> {
    v.map_values(|s: String| s@)
}

impl View for CodeBlockKind {
    type V = CodeKindV;

    open spec fn view(&self) -> CodeKindV {
        match self {
            CodeBlockKind::Fenced(s) => CodeKindV::Fenced(s@),
            CodeBlockKind::Indented => CodeKindV::Indented,
        }
    }
}

impl View for Tag {
    type V = TagV;

    open spec fn view(&self) -> TagV {
        match self {
            Tag::Heading { level, id, classes } => TagV::Heading {
                level: *level,
                id: opt_view(*id),
                classes: strings_view(classes@),
            },
            Tag::Paragraph => TagV::Paragraph,
            Tag::BlockQuote => TagV::BlockQuote,
            Tag::CodeBlock(k) => TagV::CodeBlock(k@),
            Tag::FootnoteDefinition(l) => TagV::FootnoteDefinition(l@),
            Tag::Image { dest_url, title } => TagV::Image { dest_url: dest_url@, title: title@ },
            Tag::Emphasis => TagV::Emphasis,
            Tag::Strong => TagV::Strong,
            Tag::Link { dest_url, title } => TagV::Link { dest_url: dest_url@, title: title@ },
            Tag::List(n) => TagV::List(*n),
            Tag::Item => TagV::Item,
        }
    }
}

impl View for Event {
    type V = EventV;

    open spec fn view(&self) -> EventV {
        match self {
            Event::Start(t) => EventV::Start(t@),
            Event::End(t) => EventV::End(*t),
            Event::Text(s) => EventV::Text(s@),
            Event::Code(s) => EventV::Code(s@),
            Event::Html(s) => EventV::Html(s@),
            Event::InlineHtml(s) => EventV::InlineHtml(s@),
            Event::SoftBreak => EventV::SoftBreak,
            Event::HardBreak => EventV::HardBreak,
            Event::FootnoteReference(s) => EventV::FootnoteReference(s@),
            Event::InlineMath(s) => EventV::InlineMath(s@),
            Event::DisplayMath(s) => EventV::DisplayMath(s@),
        }
    }
}

/// The view of a whole event sequence.
pub open spec fn events_view(v: Seq<Event>) -> Seq<EventV> {
    v.map_values(|e: Event| e@)
}

/// A copy of a list of strings with the same view.
pub fn clone_strings(v: &Vec<String>) -> (r: Vec<String>)
    ensures
        strings_view(r@) == strings_view(v@),
{
    let mut r: Vec<String> = Vec::new();
    let mut i: usize = 0;
    while i < v.len()
        invariant
            i <= v.len(),
            r@.len() == i,
            forall|j: int| 0 <= j < i ==> #[trigger] r@[j]@ == v@[j]@,
        decreases v.len() - i,
    {
        r.push(v[i].clone());
        i += 1;
    }
    assert(strings_view(r@) =~= strings_view(v@));
    r
}

pub fn clone_opt_string(o: &Option<String>) -> (r: Option<String>)
    ensures
        opt_view(r) == opt_view(*o),
{
    match o {
        Some(s) => Some(s.clone()),
        None => None,
    }
}

impl CodeBlockKind {
    pub fn copy(&self) -> (r: CodeBlockKind)
        ensures
            r@ == self@,
    {
        match self {
            CodeBlockKind::Fenced(s) => CodeBlockKind::Fenced(s.clone()),
            CodeBlockKind::Indented => CodeBlockKind::Indented,
        }
    }
}

impl Tag {
    /// A copy of the tag with the same view.
    pub fn copy(&self) -> (r: Tag)
        ensures
            r@ == self@,
    {
        match self {
            Tag::Heading { level, id, classes } => Tag::Heading {
                level: *level,
                id: clone_opt_string(id),
                classes: clone_strings(classes),
            },
            Tag::Paragraph => Tag::Paragraph,
            Tag::BlockQuote => Tag::BlockQuote,
            Tag::CodeBlock(k) => Tag::CodeBlock(k.copy()),
            Tag::FootnoteDefinition(l) => Tag::FootnoteDefinition(l.clone()),
            Tag::Image { dest_url, title } => Tag::Image { dest_url: dest_url.clone(), title: title.clone() },
            Tag::Emphasis => Tag::Emphasis,
            Tag::Strong => Tag::Strong,
            Tag::Link { dest_url, title } => Tag::Link { dest_url: dest_url.clone(), title: title.clone() },
            Tag::List(n) => Tag::List(*n),
            Tag::Item => Tag::Item,
        }
    }
}

impl Event {
    /// A copy of the event with the same view.
    pub fn copy(&self) -> (r: Event)
        ensures
            r@ == self@,
    {
        match self {
            Event::Start(t) => Event::Start(t.copy()),
            Event::End(t) => Event::End(*t),
            Event::Text(s) => Event::Text(s.clone()),
            Event::Code(s) => Event::Code(s.clone()),
            Event::Html(s) => Event::Html(s.clone()),
            Event::InlineHtml(s) => Event::InlineHtml(s.clone()),
            Event::SoftBreak => Event::SoftBreak,
            Event::HardBreak => Event::HardBreak,
            Event::FootnoteReference(s) => Event::FootnoteReference(s.clone()),
            Event::InlineMath(s) => Event::InlineMath(s.clone()),
            Event::DisplayMath(s) => Event::DisplayMath(s.clone()),
        }
    }
}

} // verus!
