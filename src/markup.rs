//! Literal event-to-markup mapping, and decimal numerals.
use vstd::prelude::*;
use crate::event::{Event, EventV, Tag, TagV, TagEnd, HeadingLevel, CodeKindV, events_view};
use crate::text::{escaped, push_escaped};

verus! {

/// The decimal numeral of a natural number.
pub open spec fn decimal(n: nat) -> Seq<char>
    decreases n,
{
    if n < 10 {
        seq![digit_char(n)]
    } else {
        decimal(n / 10) + seq![digit_char(n % 10)]
    }
}

pub open spec fn digit_char(d: nat) -> char {
    if d == 0 { '0' } else if d == 1 { '1' } else if d == 2 { '2' } else if d == 3 { '3' }
    else if d == 4 { '4' } else if d == 5 { '5' } else if d == 6 { '6' } else if d == 7 { '7' }
    else if d == 8 { '8' } else { '9' }
}

/// The numeral of `n` padded with a leading zero to at least two digits.
pub open spec fn decimal2(n: nat) -> Seq<char> {
    if n < 10 {
        seq!['0'] + decimal(n)
    } else {
        decimal(n)
    }
}

fn digit(d: usize) -> (c: char)
    requires
        d < 10,
    ensures
        c == digit_char(d as nat),
{
    if d == 0 { '0' } else if d == 1 { '1' } else if d == 2 { '2' } else if d == 3 { '3' }
    else if d == 4 { '4' } else if d == 5 { '5' } else if d == 6 { '6' } else if d == 7 { '7' }
    else if d == 8 { '8' } else { '9' }
}

/// Appends the decimal numeral of `n`.
pub fn push_decimal(out: &mut String, n: usize)
    ensures
        final(out)@ == old(out)@ + decimal(n as nat),
    decreases n,
{
    if n < 10 {
        crate::text::push_char(out, digit(n));
        assert(old(out)@.push(digit_char(n as nat)) =~= old(out)@ + decimal(n as nat));
    } else {
        push_decimal(out, n / 10);
        crate::text::push_char(out, digit(n % 10));
        assert(final(out)@ =~= old(out)@ + decimal(n as nat));
    }
}

/// Appends the numeral of `n` padded to two digits.
pub fn push_decimal2(out: &mut String, n: usize)
    ensures
        final(out)@ == old(out)@ + decimal2(n as nat),
{
    if n < 10 {
        crate::text::push_char(out, '0');
        push_decimal(out, n);
        assert(final(out)@ =~= old(out)@ + decimal2(n as nat));
    } else {
        push_decimal(out, n);
    }
}

pub open spec fn level_digit(l: HeadingLevel) -> Seq<char> {
    match l {
        HeadingLevel::H1 => "1"@,
        HeadingLevel::H2 => "2"@,
        HeadingLevel::H3 => "3"@,
        HeadingLevel::H4 => "4"@,
        HeadingLevel::H5 => "5"@,
        HeadingLevel::H6 => "6"@,
    }
}

/// The markup of an opening tag.
pub open spec fn start_html(t: TagV) -> Seq<char> {
    match t {
        TagV::Heading { level, id, classes } => match id {
            Some(i) => "<h"@ + level_digit(level) + " id=\""@ + escaped(i) + "\">"@,
            None => "<h"@ + level_digit(level) + ">"@,
        },
        TagV::Paragraph => "<p>"@,
        TagV::BlockQuote => "<blockquote>\n"@,
        TagV::CodeBlock(k) => match k {
            CodeKindV::Fenced(l) => "<pre><code class=\"language-"@ + escaped(l) + "\">"@,
            CodeKindV::Indented => "<pre><code>"@,
        },
        TagV::FootnoteDefinition(l) => "<div class=\"footnote-definition\" id=\""@ + escaped(l) + "\">"@,
        TagV::Image { dest_url, title } => "<img src=\""@ + escaped(dest_url) + "\" title=\""@ + escaped(title)
            + "\" alt=\""@,
        TagV::Emphasis => "<em>"@,
        TagV::Strong => "<strong>"@,
        TagV::Link { dest_url, title } => "<a href=\""@ + escaped(dest_url) + "\" title=\""@ + escaped(title)
            + "\">"@,
        TagV::List(start) => match start {
            Some(_) => "<ol>\n"@,
            None => "<ul>\n"@,
        },
        TagV::Item => "<li>"@,
    }
}

/// The markup of a closing tag.
pub open spec fn end_html(t: TagEnd) -> Seq<char> {
    match t {
        TagEnd::Heading(level) => "</h"@ + level_digit(level) + ">\n"@,
        TagEnd::Paragraph => "</p>\n"@,
        TagEnd::BlockQuote => "</blockquote>\n"@,
        TagEnd::CodeBlock => "</code></pre>\n"@,
        TagEnd::FootnoteDefinition => "</div>\n"@,
        TagEnd::Image => "\" />"@,
        TagEnd::Emphasis => "</em>"@,
        TagEnd::Strong => "</strong>"@,
        TagEnd::Link => "</a>"@,
        TagEnd::List(ordered) => if ordered { "</ol>\n"@ } else { "</ul>\n"@ },
        TagEnd::Item => "</li>\n"@,
    }
}

/// The markup of one event: text is escaped, raw markup passes through verbatim.
pub open spec fn event_html(e: EventV) -> Seq<char> {
    match e {
        EventV::Start(t) => start_html(t),
        EventV::End(t) => end_html(t),
        EventV::Text(s) => escaped(s),
        EventV::Code(s) => "<code>"@ + escaped(s) + "</code>"@,
        EventV::Html(s) => s,
        EventV::InlineHtml(s) => s,
        EventV::SoftBreak => "\n"@,
        EventV::HardBreak => "<br />\n"@,
        EventV::FootnoteReference(l) => "<sup class=\"footnote-reference\"><a href=\"#"@ + escaped(l) + "\">"@
            + escaped(l) + "</a></sup>"@,
        EventV::InlineMath(s) => "<span class=\"math math-inline\">"@ + escaped(s) + "</span>"@,
        EventV::DisplayMath(s) => "<span class=\"math math-display\">"@ + escaped(s) + "</span>"@,
    }
}

/// The markup of an event sequence: the markup of each event, in order.
pub open spec fn events_html(s: Seq<EventV>) -> Seq<char>
    decreases s.len(),
{
    if s.len() == 0 {
        Seq::empty()
    } else {
        events_html(s.drop_last()) + event_html(s.last())
    }
}

fn push_level(out: &mut String, l: HeadingLevel)
    ensures
        final(out)@ == old(out)@ + level_digit(l),
{
    match l {
        HeadingLevel::H1 => out.append("1"),
        HeadingLevel::H2 => out.append("2"),
        HeadingLevel::H3 => out.append("3"),
        HeadingLevel::H4 => out.append("4"),
        HeadingLevel::H5 => out.append("5"),
        HeadingLevel::H6 => out.append("6"),
    }
}

fn push_start(out: &mut String, t: &Tag)
    ensures
        final(out)@ == old(out)@ + start_html(t@),
{
    let ghost o = out@;
    match t {
        Tag::Heading { level, id, classes: _ } => {
            out.append("<h");
            push_level(out, *level);
            match id {
                Some(i) => {
                    out.append(" id=\"");
                    push_escaped(out, i.as_str());
                    out.append("\">");
                },
                None => out.append(">"),
            }
        },
        Tag::Paragraph => out.append("<p>"),
        Tag::BlockQuote => out.append("<blockquote>\n"),
        Tag::CodeBlock(k) => match k {
            crate::event::CodeBlockKind::Fenced(l) => {
                out.append("<pre><code class=\"language-");
                push_escaped(out, l.as_str());
                out.append("\">");
            },
            crate::event::CodeBlockKind::Indented => out.append("<pre><code>"),
        },
        Tag::FootnoteDefinition(l) => {
            out.append("<div class=\"footnote-definition\" id=\"");
            push_escaped(out, l.as_str());
            out.append("\">");
        },
        Tag::Image { dest_url, title } => {
            out.append("<img src=\"");
            push_escaped(out, dest_url.as_str());
            out.append("\" title=\"");
            push_escaped(out, title.as_str());
            out.append("\" alt=\"");
        },
        Tag::Emphasis => out.append("<em>"),
        Tag::Strong => out.append("<strong>"),
        Tag::Link { dest_url, title } => {
            out.append("<a href=\"");
            push_escaped(out, dest_url.as_str());
            out.append("\" title=\"");
            push_escaped(out, title.as_str());
            out.append("\">");
        },
        Tag::List(start) => match start {
            Some(_) => out.append("<ol>\n"),
            None => out.append("<ul>\n"),
        },
        Tag::Item => out.append("<li>"),
    }
    assert(out@ =~= o + start_html(t@));
}

fn push_end(out: &mut String, t: TagEnd)
    ensures
        final(out)@ == old(out)@ + end_html(t),
{
    let ghost o = out@;
    match t {
        TagEnd::Heading(level) => {
            out.append("</h");
            push_level(out, level);
            out.append(">\n");
        },
        TagEnd::Paragraph => out.append("</p>\n"),
        TagEnd::BlockQuote => out.append("</blockquote>\n"),
        TagEnd::CodeBlock => out.append("</code></pre>\n"),
        TagEnd::FootnoteDefinition => out.append("</div>\n"),
        TagEnd::Image => out.append("\" />"),
        TagEnd::Emphasis => out.append("</em>"),
        TagEnd::Strong => out.append("</strong>"),
        TagEnd::Link => out.append("</a>"),
        TagEnd::List(ordered) => if ordered {
            out.append("</ol>\n")
        } else {
            out.append("</ul>\n")
        },
        TagEnd::Item => out.append("</li>\n"),
    }
    assert(out@ =~= o + end_html(t));
}

/// Appends the markup of one event.
pub fn push_event_html(out: &mut String, e: &Event)
    ensures
        final(out)@ == old(out)@ + event_html(e@),
{
    let ghost o = out@;
    match e {
        Event::Start(t) => push_start(out, t),
        Event::End(t) => push_end(out, *t),
        Event::Text(s) => push_escaped(out, s.as_str()),
        Event::Code(s) => {
            out.append("<code>");
            push_escaped(out, s.as_str());
            out.append("</code>");
        },
        Event::Html(s) => out.append(s.as_str()),
        Event::InlineHtml(s) => out.append(s.as_str()),
        Event::SoftBreak => out.append("\n"),
        Event::HardBreak => out.append("<br />\n"),
        Event::FootnoteReference(l) => {
            out.append("<sup class=\"footnote-reference\"><a href=\"#");
            push_escaped(out, l.as_str());
            out.append("\">");
            push_escaped(out, l.as_str());
            out.append("</a></sup>");
        },
        Event::InlineMath(s) => {
            out.append("<span class=\"math math-inline\">");
            push_escaped(out, s.as_str());
            out.append("</span>");
        },
        Event::DisplayMath(s) => {
            out.append("<span class=\"math math-display\">");
            push_escaped(out, s.as_str());
            out.append("</span>");
        },
    }
    assert(out@ =~= o + event_html(e@));
}

/// Renders an event sequence to markup.
pub fn render_html(events: &Vec<Event>) -> (r: String)
    ensures
        r@ == events_html(events_view(events@)),
{
    let mut out = String::new();
    let mut i: usize = 0;
    while i < events.len()
        invariant
            i <= events.len(),
            out@ == events_html(events_view(events@.take(i as int))),
        decreases events.len() - i,
    {
        push_event_html(&mut out, &events[i]);
        assert(events_view(events@.take(i + 1)).drop_last() =~= events_view(events@.take(i as int)));
        i += 1;
    }
    assert(events@.take(events.len() as int) =~= events@);
    out
}

} // verus!
