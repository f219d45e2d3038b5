//! Code blocks: a block's content is gathered and replaced by one markup event.
use vstd::prelude::*;
use crate::event::{Event, EventV, Tag, TagV, TagEnd, CodeBlockKind, CodeKindV, events_view, opt_view};
use crate::text::{escaped, push_escaped};

verus! {

/// What syntect's class-based generator produces for a source with the syntax
/// found for a language token (plain text where none is found); `None` where
/// it reports an error.
pub uninterp spec fn highlighted(source: Seq<char>, lang: Option<Seq<char>>) -> Option<Seq<char>>;

/// Relies on syntect: the default syntaxes, the syntax of the language token
/// (plain text where there is none), and `ClassedHTMLGenerator` with spaced
/// class names, fed line by line.
#[verifier::external_body]
fn highlight_classed(source: &str, lang: &Option<String>) -> (r: Option<String>)
    ensures
        opt_view(r) == highlighted(source@, opt_view(*lang)),
{
    let ss = syntect::parsing::SyntaxSet::load_defaults_newlines();
    let found = match lang { Some(l) => ss.find_syntax_by_token(l), None => None };
    let syntax = match found { Some(s) => s, None => ss.find_syntax_plain_text() };
    let style = syntect::html::ClassStyle::Spaced;
    let mut g = syntect::html::ClassedHTMLGenerator::new_with_class_style(syntax, &ss, style);
    for line in syntect::util::LinesWithEndings::from(source) {
        g.parse_html_for_line_which_includes_newline(line).ok()?;
    }
    Some(g.finalize())
}

pub open spec fn language_of(k: CodeKindV) -> Option<Seq<char>> {
    match k {
        CodeKindV::Fenced(l) => Some(l),
        CodeKindV::Indented => None,
    }
}

/// Highlighted markup wrapped in a code listing labelled with its language.
pub open spec fn classed_html(h: Seq<char>, lang: Option<Seq<char>>) -> Seq<char> {
    "<pre class=\"code"@ + match lang {
        Some(l) => " language-"@ + escaped(l),
        None => Seq::empty(),
    } + "\"><code>"@ + h + "</code></pre>\n"@
}

/// The escaped source in a plain code listing, labelled with its escaped language.
pub open spec fn fallback_html(src: Seq<char>, lang: Option<Seq<char>>) -> Seq<char> {
    "<pre class=\"code\"><code"@ + match lang {
        Some(l) => " class=\"language-"@ + escaped(l) + "\""@,
        None => Seq::empty(),
    } + ">"@ + escaped(src) + "</code></pre>\n"@
}

/// The markup that replaces a code block.
pub open spec fn code_html(src: Seq<char>, k: CodeKindV) -> Seq<char> {
    match highlighted(src, language_of(k)) {
        Some(h) => classed_html(h, language_of(k)),
        None => fallback_html(src, language_of(k)),
    }
}

/// Plain rendering of a code listing, for when highlighting fails.
pub fn fallback_plain(source: &str, language: Option<&str>) -> (r: String)
    ensures
        r@ == fallback_html(
            source@,
            match language {
                Some(l) => Some(l@),
                None => None,
            },
        ),
{
    let mut out = String::from_str("<pre class=\"code\"><code");
    match language {
        Some(l) => {
            out.append(" class=\"language-");
            push_escaped(&mut out, l);
            out.append("\"");
        },
        None => {},
    }
    out.append(">");
    push_escaped(&mut out, source);
    out.append("</code></pre>\n");
    out
}

fn render_classed_html(h: &String, language: &Option<String>) -> (r: String)
    ensures
        r@ == classed_html(h@, opt_view(*language)),
{
    let mut out = String::from_str("<pre class=\"code");
    match language {
        Some(l) => {
            out.append(" language-");
            push_escaped(&mut out, l.as_str());
        },
        None => {},
    }
    out.append("\"><code>");
    out.append(h.as_str());
    out.append("</code></pre>\n");
    out
}

/// Renders a gathered code block.
pub fn render_code_block(source: &String, kind: &CodeBlockKind) -> (r: String)
    ensures
        r@ == code_html(source@, kind@),
{
    let language: Option<String> = match kind {
        CodeBlockKind::Fenced(l) => Some(l.clone()),
        CodeBlockKind::Indented => None,
    };
    match highlight_classed(source.as_str(), &language) {
        Some(h) => render_classed_html(&h, &language),
        None => match &language {
            Some(l) => fallback_plain(source.as_str(), Some(l.as_str())),
            None => fallback_plain(source.as_str(), None),
        },
    }
}

/// Where the highlighter stands: passing events through, or inside a code block.
pub enum CodeBlockState {
    Passthrough,
    Accumulating { lang: CodeBlockKind },
}

pub struct CodeState {
    pub lang: Option<CodeKindV>,
    pub buf: Seq<char>,
    pub out: Seq<EventV>,
}

/// The source text an event adds to a code block being gathered.
pub open spec fn code_text(e: EventV) -> Seq<char> {
    match e {
        EventV::Text(t) => t,
        EventV::Code(t) => t,
        EventV::SoftBreak => "\n"@,
        EventV::HardBreak => "\n"@,
        EventV::Html(t) => t,
        EventV::InlineHtml(t) => t,
        EventV::InlineMath(t) => t,
        EventV::DisplayMath(t) => t,
        _ => Seq::empty(),
    }
}

pub open spec fn code_step(st: CodeState, e: EventV) -> CodeState {
    match st.lang {
        None => match e {
            EventV::Start(TagV::CodeBlock(k)) => CodeState { lang: Some(k), buf: Seq::empty(), ..st },
            _ => CodeState { out: st.out.push(e), ..st },
        },
        Some(k) => match e {
            EventV::End(TagEnd::CodeBlock) => CodeState {
                lang: None,
                out: st.out.push(EventV::Html(code_html(st.buf, k))),
                ..st
            },
            _ => CodeState { buf: st.buf + code_text(e), ..st },
        },
    }
}

pub open spec fn code_fold(s: Seq<EventV>) -> CodeState
    decreases s.len(),
{
    if s.len() == 0 {
        CodeState { lang: None, buf: Seq::empty(), out: Seq::empty() }
    } else {
        code_step(code_fold(s.drop_last()), s.last())
    }
}

/// The document with each code block replaced by its rendered listing.
pub open spec fn code_highlighted(s: Seq<EventV>) -> Seq<EventV> {
    code_fold(s).out
}

pub open spec fn state_lang(st: CodeBlockState) -> Option<CodeKindV> {
    match st {
        CodeBlockState::Passthrough => None,
        CodeBlockState::Accumulating { lang } => Some(lang@),
    }
}

/// Replaces each code block by one markup event.
pub fn highlight_code_blocks(events: Vec<Event>) -> (r: Vec<Event>)
    ensures
        events_view(r@) == code_highlighted(events_view(events@)),
{
    let ghost s = events_view(events@);
    let mut out: Vec<Event> = Vec::new();
    let mut buffer = String::new();
    let mut state = CodeBlockState::Passthrough;
    let mut i: usize = 0;
    assert(s.take(0) =~= Seq::<EventV>::empty());
    assert(events_view(out@) =~= Seq::<EventV>::empty());
    while i < events.len()
        invariant
            i <= events@.len(),
            s == events_view(events@),
            code_fold(s.take(i as int)) == (CodeState {
                lang: state_lang(state),
                buf: buffer@,
                out: events_view(out@),
            }),
        decreases events.len() - i,
    {
        assert(s.take(i + 1).drop_last() =~= s.take(i as int));
        assert(s.take(i + 1).last() == events@[i as int]@);
        let ghost before = events_view(out@);
        let ev = &events[i];
        match &state {
            CodeBlockState::Passthrough => match ev {
                Event::Start(Tag::CodeBlock(lang)) => {
                    state = CodeBlockState::Accumulating { lang: lang.copy() };
                    buffer = String::new();
                },
                other => {
                    out.push(other.copy());
                    assert(events_view(out@) =~= before.push(other@));
                },
            },
            CodeBlockState::Accumulating { lang } => match ev {
                Event::End(TagEnd::CodeBlock) => {
                    let html = render_code_block(&buffer, lang);
                    out.push(Event::Html(html));
                    assert(events_view(out@) =~= before.push(EventV::Html(code_html(buffer@, lang@))));
                    state = CodeBlockState::Passthrough;
                },
                Event::Text(t) | Event::Code(t) | Event::Html(t) | Event::InlineHtml(t) | Event::InlineMath(t)
                | Event::DisplayMath(t) => {
                    buffer.append(t.as_str());
                },
                Event::SoftBreak | Event::HardBreak => {
                    buffer.append("\n");
                },
                _ => {
                    assert(buffer@ =~= buffer@ + code_text(ev@));
                },
            },
        }
        i += 1;
    }
    assert(s.take(events.len() as int) =~= s);
    out
}

/// The source gathered from a code block's content.
pub open spec fn code_source(body: Seq<EventV>) -> Seq<char>
    decreases body.len(),
{
    if body.len() == 0 {
        Seq::empty()
    } else {
        code_source(body.drop_last()) + code_text(body.last())
    }
}

proof fn lemma_code_body(k: CodeKindV, body: Seq<EventV>)
    requires
        forall|i: int| 0 <= i < body.len() ==> #[trigger] body[i] != EventV::End(TagEnd::CodeBlock),
    ensures
        code_fold(seq![EventV::Start(TagV::CodeBlock(k))] + body) == (CodeState {
            lang: Some(k),
            buf: code_source(body),
            out: Seq::empty(),
        }),
    decreases body.len(),
{
    let s = seq![EventV::Start(TagV::CodeBlock(k))] + body;
    if body.len() == 0 {
        assert(s.drop_last() =~= Seq::<EventV>::empty());
        assert(s.last() == EventV::Start(TagV::CodeBlock(k)));
        assert(code_source(body) =~= Seq::<char>::empty());
    } else {
        assert(s.last() == body.last());
        assert(s.drop_last() =~= seq![EventV::Start(TagV::CodeBlock(k))] + body.drop_last());
        assert(body.last() == body[body.len() - 1]);
        lemma_code_body(k, body.drop_last());
        let prev = code_fold(s.drop_last());
        assert(prev.lang == Some(k));
        assert(body.last() != EventV::End(TagEnd::CodeBlock));
        assert(code_fold(s) == code_step(prev, s.last()));
        assert(code_fold(s).buf == code_source(body.drop_last()) + code_text(body.last()));
    }
}

/// A code block span, from its start tag to its end tag, becomes exactly one
/// markup event: the rendering of its gathered source.
pub proof fn law_code_block_single_event(k: CodeKindV, body: Seq<EventV>)
    requires
        forall|i: int| 0 <= i < body.len() ==> #[trigger] body[i] != EventV::End(TagEnd::CodeBlock),
    ensures
        code_highlighted(seq![EventV::Start(TagV::CodeBlock(k))] + body + seq![EventV::End(TagEnd::CodeBlock)])
            == seq![EventV::Html(code_html(code_source(body), k))],
{
    let s = seq![EventV::Start(TagV::CodeBlock(k))] + body + seq![EventV::End(TagEnd::CodeBlock)];
    lemma_code_body(k, body);
    assert(s.drop_last() =~= seq![EventV::Start(TagV::CodeBlock(k))] + body);
    assert(code_highlighted(s) =~= seq![EventV::Html(code_html(code_source(body), k))]);
}

} // verus!

verus! {

/// The steps of the code pass over `q`, from state `st`.
pub open spec fn code_run(st: CodeState, q: Seq<EventV>) -> CodeState
    decreases q.len(),
{
    if q.len() == 0 {
        st
    } else {
        code_step(code_run(st, q.drop_last()), q.last())
    }
}

proof fn lemma_code_fold_concat(p: Seq<EventV>, q: Seq<EventV>)
    ensures
        code_fold(p + q) == code_run(code_fold(p), q),
    decreases q.len(),
{
    if q.len() == 0 {
        assert(p + q =~= p);
    } else {
        assert((p + q).drop_last() =~= p + q.drop_last());
        assert((p + q).last() == q.last());
        lemma_code_fold_concat(p, q.drop_last());
    }
}

proof fn lemma_code_run_body(st: CodeState, k: CodeKindV, body: Seq<EventV>)
    requires
        st.lang == Some(k),
        forall|i: int| 0 <= i < body.len() ==> #[trigger] body[i] != EventV::End(TagEnd::CodeBlock),
    ensures
        code_run(st, body) == (CodeState { buf: st.buf + code_source(body), ..st }),
    decreases body.len(),
{
    if body.len() == 0 {
        assert(st.buf + code_source(body) =~= st.buf);
    } else {
        assert(body.last() == body[body.len() - 1]);
        lemma_code_run_body(st, k, body.drop_last());
        assert(st.buf + code_source(body.drop_last()) + code_text(body.last()) =~= st.buf + code_source(body));
    }
}

/// From any state that is passing events through, the rest of the pass adds
/// exactly what the pass gives for the rest alone.
proof fn lemma_code_run_passthrough(st: CodeState, q: Seq<EventV>)
    requires
        st.lang is None,
    ensures
        code_run(st, q).lang == code_fold(q).lang,
        code_run(st, q).out == st.out + code_fold(q).out,
        code_fold(q).lang is Some ==> code_run(st, q).buf == code_fold(q).buf,
    decreases q.len(),
{
    if q.len() == 0 {
        assert(st.out + Seq::<EventV>::empty() =~= st.out);
    } else {
        lemma_code_run_passthrough(st, q.drop_last());
        let a = code_run(st, q.drop_last());
        let b = code_fold(q.drop_last());
        assert(a.out + Seq::<EventV>::empty() =~= a.out);
        assert((st.out + b.out).push(EventV::Html(code_html(b.buf, match b.lang {
            Some(k) => k,
            None => CodeKindV::Indented,
        }))) =~= st.out + b.out.push(EventV::Html(code_html(b.buf, match b.lang {
            Some(k) => k,
            None => CodeKindV::Indented,
        }))));
        assert((st.out + b.out).push(q.last()) =~= st.out + b.out.push(q.last()));
    }
}

/// Wherever it stands in a document, a code block span, from its start tag to
/// its end tag, becomes exactly one markup event, and the events around it are
/// rewritten as they would be on their own.
pub proof fn law_code_block_single_event_in_context(
    p: Seq<EventV>,
    k: CodeKindV,
    body: Seq<EventV>,
    rest: Seq<EventV>,
)
    requires
        code_fold(p).lang is None,
        forall|i: int| 0 <= i < body.len() ==> #[trigger] body[i] != EventV::End(TagEnd::CodeBlock),
    ensures
        code_highlighted(p + seq![EventV::Start(TagV::CodeBlock(k))] + body + seq![EventV::End(TagEnd::CodeBlock)] + rest)
            == code_highlighted(p) + seq![EventV::Html(code_html(code_source(body), k))] + code_highlighted(rest),
{
    let st = seq![EventV::Start(TagV::CodeBlock(k))];
    let en = seq![EventV::End(TagEnd::CodeBlock)];
    let p0 = code_fold(p);
    lemma_code_fold_concat(p, st);
    assert(st.drop_last() =~= Seq::<EventV>::empty());
    assert(st.last() == EventV::Start(TagV::CodeBlock(k)));
    assert(code_run(p0, st.drop_last()) == p0);
    let s1 = code_fold(p + st);
    assert(s1 == CodeState { lang: Some(k), buf: Seq::empty(), out: p0.out });
    lemma_code_fold_concat(p + st, body);
    lemma_code_run_body(s1, k, body);
    let s2 = code_fold(p + st + body);
    assert(Seq::<char>::empty() + code_source(body) =~= code_source(body));
    lemma_code_fold_concat(p + st + body, en);
    assert(en.drop_last() =~= Seq::<EventV>::empty());
    assert(en.last() == EventV::End(TagEnd::CodeBlock));
    assert(code_run(s2, en.drop_last()) == s2);
    let s3 = code_fold(p + st + body + en);
    assert(s3.lang is None);
    assert(s3.out == p0.out.push(EventV::Html(code_html(code_source(body), k))));
    lemma_code_fold_concat(p + st + body + en, rest);
    lemma_code_run_passthrough(s3, rest);
    assert(p0.out.push(EventV::Html(code_html(code_source(body), k))) + code_fold(rest).out =~= p0.out + seq![
        EventV::Html(code_html(code_source(body), k)),
    ] + code_fold(rest).out);
}

} // verus!
