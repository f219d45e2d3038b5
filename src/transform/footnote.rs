//! Footnotes: definitions are collected once, then every reference is replaced by
//! inline markup (a sidenote), or by a numbered link to a trailing list.
use vstd::prelude::*;
use crate::event::{Event, EventV, Tag, TagV, TagEnd, events_view, strings_view};
use crate::markup::{decimal, events_html, push_decimal, render_html};
use crate::text::{replace_all, replace_str, trim, trim_str};
use crate::transform::span::{span_close, lemma_span_close_bounds, find_span_close, copy_range};

verus! {

/// The footnote definitions of a document from index `i` on, in order: each
/// label with the events strictly inside its definition.
pub open spec fn def_table(s: Seq<EventV>, i: int) -> Seq<(Seq<char>, Seq<EventV>)>
    decreases s.len() - i,
{
    if i < 0 || i >= s.len() {
        Seq::empty()
    } else {
        match s[i] {
            EventV::Start(TagV::FootnoteDefinition(l)) => {
                let c = span_close(s, i + 1, 1);
                if i < c < s.len() {
                    seq![(l, s.subrange(i + 1, c))] + def_table(s, c + 1)
                } else {
                    seq![(l, s.subrange(i + 1, s.len() as int))]
                }
            },
            _ => def_table(s, i + 1),
        }
    }
}

/// The definition of a label: the last one given, or nothing.
pub open spec fn lookup_def(t: Seq<(Seq<char>, Seq<EventV>)>, l: Seq<char>) -> Seq<EventV>
    decreases t.len(),
{
    if t.len() == 0 {
        Seq::empty()
    } else if t.last().0 == l {
        t.last().1
    } else {
        lookup_def(t.drop_last(), l)
    }
}

/// The footnote definitions of a document, each label with its captured events.
pub struct FootnoteDefinitions {
    pub entries: Vec<(String, Vec<Event>)>,
}

pub open spec fn entries_view(e: Seq<(String, Vec<Event>)>) -> Seq<(Seq<char>, Seq<EventV>)> {
    e.map_values(|p: (String, Vec<Event>)| (p.0@, events_view(p.1@)))
}

impl FootnoteDefinitions {
    pub open spec fn view(&self) -> Seq<(Seq<char>, Seq<EventV>)> {
        entries_view(self.entries@)
    }

    /// Scans a document once and captures each definition's span.
    pub fn collect(events: &Vec<Event>) -> (r: FootnoteDefinitions)
        ensures
            r.view() == def_table(events_view(events@), 0),
    {
        let ghost s = events_view(events@);
        let mut entries: Vec<(String, Vec<Event>)> = Vec::new();
        let mut i: usize = 0;
        while i < events.len()
            invariant
                i <= events@.len(),
                s == events_view(events@),
                entries_view(entries@) + def_table(s, i as int) == def_table(s, 0),
            decreases events.len() - i,
        {
            assert(s[i as int] == events@[i as int]@);
            match &events[i] {
                Event::Start(Tag::FootnoteDefinition(label)) => {
                    let close = find_span_close(events, i + 1);
                    proof {
                        lemma_span_close_bounds(s, i + 1, 1);
                    }
                    let inner = copy_range(events, i + 1, close);
                    let ghost before = entries_view(entries@);
                    entries.push((label.clone(), inner));
                    assert(entries_view(entries@) =~= before.push((label@, s.subrange(i + 1, close as int))));
                    if close < events.len() {
                        assert(def_table(s, i as int) =~= seq![(label@, s.subrange(i + 1, close as int))] + def_table(
                            s,
                            close + 1,
                        ));
                        assert(entries_view(entries@) + def_table(s, close + 1) =~= before + def_table(s, i as int));
                    } else {
                        assert(entries_view(entries@) + def_table(s, events.len() as int) =~= before + def_table(s, i as int));
                    }
                    if close < events.len() {
                        i = close + 1;
                    } else {
                        i = events.len();
                    }
                },
                _ => {
                    i += 1;
                },
            }
        }
        assert(def_table(s, i as int) =~= Seq::empty());
        assert(entries_view(entries@) =~= entries_view(entries@) + Seq::<(Seq<char>, Seq<EventV>)>::empty());
        FootnoteDefinitions { entries }
    }

    /// The captured span of a label; empty for a label with no definition.
    pub fn get(&self, key: &String) -> (r: Vec<Event>)
        ensures
            events_view(r@) == lookup_def(self.view(), key@),
    {
        let mut k = self.entries.len();
        assert(self.view().take(k as int) =~= self.view());
        while k > 0
            invariant
                k <= self.entries@.len(),
                lookup_def(self.view(), key@) == lookup_def(self.view().take(k as int), key@),
            decreases k,
        {
            assert(self.view().take(k as int).drop_last() =~= self.view().take(k - 1));
            assert(self.view().take(k as int).last() == self.view()[k - 1]);
            if self.entries[k - 1].0 == *key {
                return copy_range(&self.entries[k - 1].1, 0, self.entries[k - 1].1.len());
            }
            k -= 1;
        }
        Vec::new()
    }
}

/// Raw `<footer>` markup made legal in inline scope: a citation span.
pub open spec fn footer_inline(s: Seq<char>) -> Seq<char> {
    replace_all(replace_all(s, "<footer>"@, "<span class=\"sidenote-cite\">"@), "</footer>"@, "</span>"@)
}

pub fn rewrite_sidenote_html(s: &String) -> (r: String)
    ensures
        r@ == footer_inline(s@),
{
    proof {
        reveal_strlit("<footer>");
        reveal_strlit("</footer>");
    }
    let a = replace_str(s.as_str(), "<footer>", "<span class=\"sidenote-cite\">");
    replace_str(a.as_str(), "</footer>", "</span>")
}

/// State of the inline flattening of a definition.
pub struct InlineState {
    pub need_sep: Seq<bool>,
    pub quote_depth: nat,
    pub last_was_break: bool,
    pub out: Seq<EventV>,
}

pub open spec fn push_break(st: InlineState, html: Seq<char>) -> InlineState {
    if !st.last_was_break {
        InlineState { out: st.out.push(EventV::InlineHtml(html)), last_was_break: true, ..st }
    } else {
        st
    }
}

pub open spec fn set_top(stack: Seq<bool>, v: bool) -> Seq<bool> {
    if stack.len() > 0 {
        stack.update(stack.len() - 1, v)
    } else {
        stack
    }
}

/// One step of flattening block structure to inline equivalents.
pub open spec fn inline_step(st: InlineState, e: EventV) -> InlineState {
    match e {
        EventV::Start(TagV::Paragraph) => if st.need_sep.len() > 0 && st.need_sep.last() {
            let b = push_break(st, if st.quote_depth > 0 { "<br>"@ } else { "<br><br>"@ });
            InlineState { need_sep: set_top(b.need_sep, false), ..b }
        } else {
            st
        },
        EventV::End(TagEnd::Paragraph) => InlineState {
            need_sep: set_top(st.need_sep, true),
            last_was_break: false,
            ..st
        },
        EventV::Start(TagV::BlockQuote) => {
            let b = if st.out.len() > 0 { push_break(st, "<br><br>"@) } else { st };
            InlineState {
                need_sep: b.need_sep.push(false),
                quote_depth: b.quote_depth + 1,
                last_was_break: false,
                out: b.out.push(EventV::InlineHtml("<span class=\"sidenote-quote\">"@)),
            }
        },
        EventV::End(TagEnd::BlockQuote) => InlineState {
            need_sep: set_top(if st.need_sep.len() > 0 { st.need_sep.drop_last() } else { st.need_sep }, true),
            quote_depth: if st.quote_depth > 0 { (st.quote_depth - 1) as nat } else { 0 },
            last_was_break: false,
            out: st.out.push(EventV::InlineHtml("</span>"@)),
        },
        EventV::HardBreak => push_break(st, "<br>"@),
        EventV::SoftBreak => InlineState { out: st.out.push(EventV::Text(" "@)), last_was_break: false, ..st },
        EventV::Html(s) => InlineState {
            out: st.out.push(EventV::InlineHtml(footer_inline(s))),
            last_was_break: false,
            ..st
        },
        EventV::InlineHtml(s) => InlineState {
            out: st.out.push(EventV::InlineHtml(footer_inline(s))),
            last_was_break: false,
            ..st
        },
        EventV::FootnoteReference(_) => st,
        _ => InlineState { out: st.out.push(e), last_was_break: false, ..st },
    }
}

pub open spec fn inline_fold(s: Seq<EventV>) -> InlineState
    decreases s.len(),
{
    if s.len() == 0 {
        InlineState { need_sep: seq![false], quote_depth: 0, last_was_break: false, out: Seq::empty() }
    } else {
        inline_step(inline_fold(s.drop_last()), s.last())
    }
}

/// A definition's events with block structure flattened to inline equivalents.
pub open spec fn inlineified(s: Seq<EventV>) -> Seq<EventV> {
    inline_fold(s).out
}

fn exec_push_break(out: &mut Vec<Event>, html: &str, last_was_break: &mut bool)
    ensures
        !*old(last_was_break) ==> events_view(final(out)@) == events_view(old(out)@).push(EventV::InlineHtml(html@))
            && *final(last_was_break),
        *old(last_was_break) ==> final(out)@ == old(out)@ && *final(last_was_break),
{
    if !*last_was_break {
        let ghost before = events_view(out@);
        out.push(Event::InlineHtml(String::from_str(html)));
        assert(events_view(out@) =~= before.push(EventV::InlineHtml(html@)));
        *last_was_break = true;
    }
}

fn exec_set_top(stack: &mut Vec<bool>, v: bool)
    ensures
        final(stack)@ == set_top(old(stack)@, v),
{
    let n = stack.len();
    if n > 0 {
        stack.set(n - 1, v);
    }
}

/// Flattens a definition's block structure to inline equivalents.
pub fn inlineify_definition_events(events: &Vec<Event>) -> (r: Vec<Event>)
    ensures
        events_view(r@) == inlineified(events_view(events@)),
{
    let ghost s = events_view(events@);
    let mut out: Vec<Event> = Vec::new();
    let mut need_sep: Vec<bool> = vec![false];
    let mut quote_depth: usize = 0;
    let mut last_was_break = false;
    let mut i: usize = 0;
    assert(need_sep@ =~= seq![false]);
    assert(s.take(0) =~= Seq::<EventV>::empty());
    assert(events_view(out@) =~= Seq::<EventV>::empty());
    while i < events.len()
        invariant
            i <= events@.len(),
            s == events_view(events@),
            quote_depth <= i,
            inline_fold(s.take(i as int)) == (InlineState {
                need_sep: need_sep@,
                quote_depth: quote_depth as nat,
                last_was_break,
                out: events_view(out@),
            }),
        decreases events.len() - i,
    {
        assert(s.take(i + 1).drop_last() =~= s.take(i as int));
        assert(s.take(i + 1).last() == events@[i as int]@);
        let ghost before = events_view(out@);
        match &events[i] {
            Event::Start(Tag::Paragraph) => {
                let n = need_sep.len();
                if n > 0 && need_sep[n - 1] {
                    if quote_depth > 0 {
                        exec_push_break(&mut out, "<br>", &mut last_was_break);
                    } else {
                        exec_push_break(&mut out, "<br><br>", &mut last_was_break);
                    }
                    exec_set_top(&mut need_sep, false);
                }
            },
            Event::End(TagEnd::Paragraph) => {
                exec_set_top(&mut need_sep, true);
                last_was_break = false;
            },
            Event::Start(Tag::BlockQuote) => {
                if out.len() > 0 {
                    exec_push_break(&mut out, "<br><br>", &mut last_was_break);
                }
                let ghost mid = events_view(out@);
                out.push(Event::InlineHtml(String::from_str("<span class=\"sidenote-quote\">")));
                assert(events_view(out@) =~= mid.push(EventV::InlineHtml("<span class=\"sidenote-quote\">"@)));
                quote_depth = quote_depth + 1;
                need_sep.push(false);
                last_was_break = false;
            },
            Event::End(TagEnd::BlockQuote) => {
                out.push(Event::InlineHtml(String::from_str("</span>")));
                assert(events_view(out@) =~= before.push(EventV::InlineHtml("</span>"@)));
                if quote_depth > 0 {
                    quote_depth = quote_depth - 1;
                }
                if need_sep.len() > 0 {
                    need_sep.pop();
                }
                exec_set_top(&mut need_sep, true);
                last_was_break = false;
            },
            Event::HardBreak => {
                exec_push_break(&mut out, "<br>", &mut last_was_break);
            },
            Event::SoftBreak => {
                out.push(Event::Text(String::from_str(" ")));
                assert(events_view(out@) =~= before.push(EventV::Text(" "@)));
                last_was_break = false;
            },
            Event::Html(h) => {
                out.push(Event::InlineHtml(rewrite_sidenote_html(h)));
                assert(events_view(out@) =~= before.push(EventV::InlineHtml(footer_inline(h@))));
                last_was_break = false;
            },
            Event::InlineHtml(h) => {
                out.push(Event::InlineHtml(rewrite_sidenote_html(h)));
                assert(events_view(out@) =~= before.push(EventV::InlineHtml(footer_inline(h@))));
                last_was_break = false;
            },
            Event::FootnoteReference(_) => {},
            other => {
                out.push(other.copy());
                assert(events_view(out@) =~= before.push(other@));
                last_was_break = false;
            },
        }
        i += 1;
    }
    assert(s.take(events.len() as int) =~= s);
    out
}

/// The inline markup of a definition shown beside its reference.
pub open spec fn inline_def_html(span: Seq<EventV>) -> Seq<char> {
    trim(events_html(inlineified(span)))
}

/// The block markup of a definition in the trailing list.
pub open spec fn block_def_html(span: Seq<EventV>) -> Seq<char> {
    trim(events_html(span))
}

pub fn render_definition_as_inline_html(events: &Vec<Event>) -> (r: String)
    ensures
        r@ == inline_def_html(events_view(events@)),
{
    let inline_events = inlineify_definition_events(events);
    let html = render_html(&inline_events);
    trim_str(html.as_str())
}

pub fn render_definition_as_block_html(events: &Vec<Event>) -> (r: String)
    ensures
        r@ == block_def_html(events_view(events@)),
{
    let html = render_html(events);
    trim_str(html.as_str())
}

} // verus!

verus! {

/// Progress of a rewrite pass: how deep inside a skipped definition, and the output so far.
pub struct SidenoteState {
    pub skip: nat,
    pub count: nat,
    pub out: Seq<EventV>,
}

/// The sidenote markup for the `n`-th reference with the given definition markup.
pub open spec fn sidenote_html(n: nat, def_html: Seq<char>) -> Seq<char> {
    "<label for=\"sn-"@ + decimal(n) + "\" class=\"margin-toggle sidenote-number\" data-sidenote=\""@ + decimal(n)
        + "\"></label><input type=\"checkbox\" id=\"sn-"@ + decimal(n)
        + "\" class=\"margin-toggle\"/><span class=\"sidenote\" data-sidenote=\""@ + decimal(n) + "\">"@ + def_html
        + "</span>"@
}

pub open spec fn sidenote_step(
    defs: Seq<(Seq<char>, Seq<EventV>)>,
    st: SidenoteState,
    e: EventV,
) -> SidenoteState {
    if st.skip > 0 {
        match e {
            EventV::Start(_) => SidenoteState { skip: st.skip + 1, ..st },
            EventV::End(_) => SidenoteState { skip: (st.skip - 1) as nat, ..st },
            _ => st,
        }
    } else {
        match e {
            EventV::Start(TagV::FootnoteDefinition(_)) => SidenoteState { skip: 1, ..st },
            EventV::End(TagEnd::FootnoteDefinition) => st,
            EventV::FootnoteReference(l) => SidenoteState {
                count: st.count + 1,
                out: st.out.push(
                    EventV::InlineHtml(sidenote_html(st.count + 1, inline_def_html(lookup_def(defs, l)))),
                ),
                ..st
            },
            _ => SidenoteState { out: st.out.push(e), ..st },
        }
    }
}

pub open spec fn sidenote_fold(defs: Seq<(Seq<char>, Seq<EventV>)>, s: Seq<EventV>) -> SidenoteState
    decreases s.len(),
{
    if s.len() == 0 {
        SidenoteState { skip: 0, count: 0, out: Seq::empty() }
    } else {
        sidenote_step(defs, sidenote_fold(defs, s.drop_last()), s.last())
    }
}

/// The document with definitions removed and each reference shown as a sidenote.
pub open spec fn sidenotes(s: Seq<EventV>) -> Seq<EventV> {
    sidenote_fold(def_table(s, 0), s).out
}

fn sidenote_markup(n: usize, def_html: &String) -> (r: String)
    ensures
        r@ == sidenote_html(n as nat, def_html@),
{
    let mut h = String::from_str("<label for=\"sn-");
    push_decimal(&mut h, n);
    h.append("\" class=\"margin-toggle sidenote-number\" data-sidenote=\"");
    push_decimal(&mut h, n);
    h.append("\"></label><input type=\"checkbox\" id=\"sn-");
    push_decimal(&mut h, n);
    h.append("\" class=\"margin-toggle\"/><span class=\"sidenote\" data-sidenote=\"");
    push_decimal(&mut h, n);
    h.append("\">");
    h.append(def_html.as_str());
    h.append("</span>");
    h
}

/// Replaces each footnote reference by an inline sidenote holding its
/// definition, and drops the definitions themselves.
pub fn convert_footnotes_to_sidenotes(events: Vec<Event>) -> (r: Vec<Event>)
    ensures
        events_view(r@) == sidenotes(events_view(events@)),
{
    let ghost s = events_view(events@);
    let defs = FootnoteDefinitions::collect(&events);
    let mut out: Vec<Event> = Vec::new();
    let mut skip: usize = 0;
    let mut count: usize = 0;
    let mut i: usize = 0;
    assert(s.take(0) =~= Seq::<EventV>::empty());
    assert(events_view(out@) =~= Seq::<EventV>::empty());
    while i < events.len()
        invariant
            i <= events@.len(),
            s == events_view(events@),
            defs.view() == def_table(s, 0),
            skip <= i,
            count <= i,
            sidenote_fold(def_table(s, 0), s.take(i as int)) == (SidenoteState {
                skip: skip as nat,
                count: count as nat,
                out: events_view(out@),
            }),
        decreases events.len() - i,
    {
        assert(s.take(i + 1).drop_last() =~= s.take(i as int));
        assert(s.take(i + 1).last() == events@[i as int]@);
        let ghost before = events_view(out@);
        let ev = &events[i];
        if skip > 0 {
            match ev {
                Event::Start(_) => {
                    skip = skip + 1;
                },
                Event::End(_) => {
                    skip = skip - 1;
                },
                _ => {},
            }
        } else {
            match ev {
                Event::Start(Tag::FootnoteDefinition(_)) => {
                    skip = 1;
                },
                Event::End(TagEnd::FootnoteDefinition) => {},
                Event::FootnoteReference(label) => {
                    count = count + 1;
                    let def_events = defs.get(label);
                    let def_html = render_definition_as_inline_html(&def_events);
                    let html = sidenote_markup(count, &def_html);
                    out.push(Event::InlineHtml(html));
                    assert(events_view(out@) =~= before.push(
                        EventV::InlineHtml(sidenote_html(count as nat, inline_def_html(lookup_def(defs.view(), label@)))),
                    ));
                },
                other => {
                    out.push(other.copy());
                    assert(events_view(out@) =~= before.push(other@));
                },
            }
        }
        i += 1;
    }
    assert(s.take(events.len() as int) =~= s);
    out
}

} // verus!

verus! {

/// Progress of the plain rewrite: skip depth, labels in first-seen order, output so far.
pub struct PlainState {
    pub skip: nat,
    pub labels: Seq<Seq<char>>,
    pub out: Seq<EventV>,
}

/// Position of a label among those seen, or -1.
pub open spec fn label_index(labels: Seq<Seq<char>>, l: Seq<char>) -> int
    decreases labels.len(),
{
    if labels.len() == 0 {
        -1
    } else if label_index(labels.drop_last(), l) >= 0 {
        label_index(labels.drop_last(), l)
    } else if labels.last() == l {
        labels.len() - 1
    } else {
        -1
    }
}

/// The superscript link of the `n`-th note.
pub open spec fn plain_ref_html(n: nat) -> Seq<char> {
    "<sup id=\"fnref-"@ + decimal(n) + "\" class=\"footnote-ref\"><a href=\"#fn-"@ + decimal(n) + "\">"@ + decimal(n)
        + "</a></sup>"@
}

pub open spec fn plain_step(st: PlainState, e: EventV) -> PlainState {
    if st.skip > 0 {
        match e {
            EventV::Start(_) => PlainState { skip: st.skip + 1, ..st },
            EventV::End(_) => PlainState { skip: (st.skip - 1) as nat, ..st },
            _ => st,
        }
    } else {
        match e {
            EventV::Start(TagV::FootnoteDefinition(_)) => PlainState { skip: 1, ..st },
            EventV::End(TagEnd::FootnoteDefinition) => st,
            EventV::FootnoteReference(l) => {
                let k = label_index(st.labels, l);
                if k >= 0 {
                    PlainState { out: st.out.push(EventV::InlineHtml(plain_ref_html((k + 1) as nat))), ..st }
                } else {
                    PlainState {
                        labels: st.labels.push(l),
                        out: st.out.push(EventV::InlineHtml(plain_ref_html(st.labels.len() + 1))),
                        ..st
                    }
                }
            },
            _ => PlainState { out: st.out.push(e), ..st },
        }
    }
}

pub open spec fn plain_fold(s: Seq<EventV>) -> PlainState
    decreases s.len(),
{
    if s.len() == 0 {
        PlainState { skip: 0, labels: Seq::empty(), out: Seq::empty() }
    } else {
        plain_step(plain_fold(s.drop_last()), s.last())
    }
}

/// The back link from the `n`-th list entry to its reference.
pub open spec fn backref_html(n: nat) -> Seq<char> {
    " <a href=\"#fnref-"@ + decimal(n) + "\" class=\"footnote-backref\">↩</a></li>"@
}

pub open spec fn list_item_html(n: nat, def_html: Seq<char>) -> Seq<char> {
    "<li id=\"fn-"@ + decimal(n) + "\">"@ + def_html + backref_html(n)
}

pub open spec fn list_items(labels: Seq<Seq<char>>, defs: Seq<(Seq<char>, Seq<EventV>)>) -> Seq<char>
    decreases labels.len(),
{
    if labels.len() == 0 {
        Seq::empty()
    } else {
        list_items(labels.drop_last(), defs) + list_item_html(
            labels.len(),
            block_def_html(lookup_def(defs, labels.last())),
        )
    }
}

/// The trailing list of every referenced definition, in first-seen order.
pub open spec fn footnote_list_html(labels: Seq<Seq<char>>, defs: Seq<(Seq<char>, Seq<EventV>)>) -> Seq<char> {
    "<section class=\"footnotes\" aria-label=\"Footnotes\"><hr><ol>"@ + list_items(labels, defs)
        + "</ol></section>"@
}

/// The document with definitions removed, each reference shown as a numbered
/// link, and the list of notes appended when any reference was seen.
pub open spec fn plain_footnotes(s: Seq<EventV>) -> Seq<EventV> {
    let st = plain_fold(s);
    if st.labels.len() == 0 {
        st.out
    } else {
        st.out.push(EventV::Html(footnote_list_html(st.labels, def_table(s, 0))))
    }
}

fn plain_ref_markup(n: usize) -> (r: String)
    ensures
        r@ == plain_ref_html(n as nat),
{
    let mut h = String::from_str("<sup id=\"fnref-");
    push_decimal(&mut h, n);
    h.append("\" class=\"footnote-ref\"><a href=\"#fn-");
    push_decimal(&mut h, n);
    h.append("\">");
    push_decimal(&mut h, n);
    h.append("</a></sup>");
    h
}

fn find_label(labels: &Vec<String>, l: &String) -> (r: Option<usize>)
    ensures
        match r {
            Some(k) => label_index(strings_view(labels@), l@) == k as int && k < labels@.len(),
            None => label_index(strings_view(labels@), l@) == -1,
        },
{
    let ghost v = strings_view(labels@);
    let mut k: usize = 0;
    while k < labels.len()
        invariant
            k <= labels@.len(),
            v == strings_view(labels@),
            label_index(v.take(k as int), l@) == -1,
        decreases labels.len() - k,
    {
        assert(v.take(k + 1).drop_last() =~= v.take(k as int));
        if labels[k] == *l {
            proof {
                lemma_label_index_prefix(v, k as int + 1, l@);
            }
            return Some(k);
        }
        k += 1;
    }
    assert(v.take(labels.len() as int) =~= v);
    None
}

proof fn lemma_label_index_prefix(v: Seq<Seq<char>>, n: int, l: Seq<char>)
    requires
        0 <= n <= v.len(),
        label_index(v.take(n), l) >= 0,
    ensures
        label_index(v, l) == label_index(v.take(n), l),
    decreases v.len() - n,
{
    if n < v.len() {
        assert(v.take(n + 1).drop_last() =~= v.take(n));
        lemma_label_index_prefix(v, n + 1, l);
    } else {
        assert(v.take(n) =~= v);
    }
}

/// Replaces each footnote reference by a superscript link and appends the
/// list of referenced definitions, each with a link back.
pub fn convert_footnotes_to_plain_list(events: Vec<Event>) -> (r: Vec<Event>)
    ensures
        events_view(r@) == plain_footnotes(events_view(events@)),
{
    let ghost s = events_view(events@);
    let defs = FootnoteDefinitions::collect(&events);
    let mut out: Vec<Event> = Vec::new();
    let mut skip: usize = 0;
    let mut labels: Vec<String> = Vec::new();
    let mut i: usize = 0;
    assert(s.take(0) =~= Seq::<EventV>::empty());
    assert(events_view(out@) =~= Seq::<EventV>::empty());
    assert(strings_view(labels@) =~= Seq::<Seq<char>>::empty());
    while i < events.len()
        invariant
            i <= events@.len(),
            s == events_view(events@),
            defs.view() == def_table(s, 0),
            skip <= i,
            labels@.len() <= i,
            plain_fold(s.take(i as int)) == (PlainState {
                skip: skip as nat,
                labels: strings_view(labels@),
                out: events_view(out@),
            }),
        decreases events.len() - i,
    {
        assert(s.take(i + 1).drop_last() =~= s.take(i as int));
        assert(s.take(i + 1).last() == events@[i as int]@);
        let ghost before = events_view(out@);
        let ev = &events[i];
        if skip > 0 {
            match ev {
                Event::Start(_) => {
                    skip = skip + 1;
                },
                Event::End(_) => {
                    skip = skip - 1;
                },
                _ => {},
            }
        } else {
            match ev {
                Event::Start(Tag::FootnoteDefinition(_)) => {
                    skip = 1;
                },
                Event::End(TagEnd::FootnoteDefinition) => {},
                Event::FootnoteReference(label) => {
                    let num = match find_label(&labels, label) {
                        Some(k) => k + 1,
                        None => {
                            let ghost lv = strings_view(labels@);
                            labels.push(label.clone());
                            assert(strings_view(labels@) =~= lv.push(label@));
                            labels.len()
                        },
                    };
                    out.push(Event::InlineHtml(plain_ref_markup(num)));
                    assert(events_view(out@) =~= before.push(EventV::InlineHtml(plain_ref_html(num as nat))));
                },
                other => {
                    out.push(other.copy());
                    assert(events_view(out@) =~= before.push(other@));
                },
            }
        }
        i += 1;
    }
    assert(s.take(events.len() as int) =~= s);
    if labels.len() == 0 {
        return out;
    }
    let mut list_html = String::from_str("<section class=\"footnotes\" aria-label=\"Footnotes\"><hr><ol>");
    let ghost lv = strings_view(labels@);
    let mut k: usize = 0;
    while k < labels.len()
        invariant
            k <= labels@.len(),
            lv == strings_view(labels@),
            defs.view() == def_table(s, 0),
            list_html@ == "<section class=\"footnotes\" aria-label=\"Footnotes\"><hr><ol>"@ + list_items(
                lv.take(k as int),
                def_table(s, 0),
            ),
        decreases labels.len() - k,
    {
        assert(lv.take(k + 1).drop_last() =~= lv.take(k as int));
        assert(lv.take(k + 1).last() == labels@[k as int]@);
        let num = k + 1;
        let def_events = defs.get(&labels[k]);
        let def_html = render_definition_as_block_html(&def_events);
        list_html.append("<li id=\"fn-");
        push_decimal(&mut list_html, num);
        list_html.append("\">");
        list_html.append(def_html.as_str());
        list_html.append(" <a href=\"#fnref-");
        push_decimal(&mut list_html, num);
        list_html.append("\" class=\"footnote-backref\">↩</a></li>");
        k += 1;
        assert(list_html@ =~= "<section class=\"footnotes\" aria-label=\"Footnotes\"><hr><ol>"@ + list_items(
            lv.take(k as int),
            def_table(s, 0),
        ));
    }
    assert(lv.take(labels.len() as int) =~= lv);
    list_html.append("</ol></section>");
    let ghost before = events_view(out@);
    out.push(Event::Html(list_html));
    assert(events_view(out@) =~= before.push(EventV::Html(footnote_list_html(lv, def_table(s, 0)))));
    out
}

} // verus!

verus! {

/// A footnote reference, or a footnote definition's start or end tag.
pub open spec fn is_footnote_event(e: EventV) -> bool {
    match e {
        EventV::FootnoteReference(_) => true,
        EventV::Start(TagV::FootnoteDefinition(_)) => true,
        EventV::End(TagEnd::FootnoteDefinition) => true,
        _ => false,
    }
}

pub open spec fn has_footnote_event(s: Seq<EventV>) -> bool {
    exists|i: int| 0 <= i < s.len() && is_footnote_event(#[trigger] s[i])
}

/// `p` occurs in `h`.
pub open spec fn contains(h: Seq<char>, p: Seq<char>) -> bool {
    exists|i: int| 0 <= i && i + p.len() <= h.len() && #[trigger] h.subrange(i, i + p.len()) == p
}

proof fn lemma_sidenote_fold_clean(defs: Seq<(Seq<char>, Seq<EventV>)>, s: Seq<EventV>)
    ensures
        !has_footnote_event(sidenote_fold(defs, s).out),
    decreases s.len(),
{
    if s.len() > 0 {
        lemma_sidenote_fold_clean(defs, s.drop_last());
        let prev = sidenote_fold(defs, s.drop_last()).out;
        let cur = sidenote_fold(defs, s).out;
        assert forall|i: int| 0 <= i < cur.len() implies !is_footnote_event(#[trigger] cur[i]) by {
            if i < prev.len() {
                assert(cur[i] == prev[i]);
                assert(!is_footnote_event(prev[i]));
            }
        }
    }
}

proof fn lemma_plain_fold_clean(s: Seq<EventV>)
    ensures
        !has_footnote_event(plain_fold(s).out),
    decreases s.len(),
{
    if s.len() > 0 {
        lemma_plain_fold_clean(s.drop_last());
        let prev = plain_fold(s.drop_last()).out;
        let cur = plain_fold(s).out;
        assert forall|i: int| 0 <= i < cur.len() implies !is_footnote_event(#[trigger] cur[i]) by {
            if i < prev.len() {
                assert(cur[i] == prev[i]);
                assert(!is_footnote_event(prev[i]));
            }
        }
    }
}

proof fn lemma_contains_extend(h: Seq<char>, p: Seq<char>, a: Seq<char>, b: Seq<char>)
    requires
        contains(h, p),
    ensures
        contains(a + h + b, p),
{
    let i = choose|i: int| 0 <= i && i + p.len() <= h.len() && #[trigger] h.subrange(i, i + p.len()) == p;
    let j = a.len() + i;
    assert((a + h + b).subrange(j, j + p.len()) =~= h.subrange(i, i + p.len()));
}

proof fn lemma_list_items_backrefs(labels: Seq<Seq<char>>, defs: Seq<(Seq<char>, Seq<EventV>)>, n: nat)
    requires
        1 <= n <= labels.len(),
    ensures
        contains(list_items(labels, defs), backref_html(n)),
    decreases labels.len(),
{
    let prev = list_items(labels.drop_last(), defs);
    let item = list_item_html(labels.len(), block_def_html(lookup_def(defs, labels.last())));
    if n < labels.len() {
        lemma_list_items_backrefs(labels.drop_last(), defs, n);
        lemma_contains_extend(prev, backref_html(n), Seq::empty(), item);
        assert(Seq::<char>::empty() + prev + item =~= list_items(labels, defs));
    } else {
        let b = backref_html(n);
        let h = list_items(labels, defs);
        let i = h.len() - b.len();
        assert(h.subrange(i, i + b.len()) =~= b);
    }
}

/// Sidenote rewriting leaves no footnote reference and no footnote definition tag.
pub proof fn law_sidenotes_leave_no_footnote_events(s: Seq<EventV>)
    ensures
        !has_footnote_event(sidenotes(s)),
{
    lemma_sidenote_fold_clean(def_table(s, 0), s);
}

/// Plain rewriting leaves no footnote reference and no footnote definition tag,
/// and when any note was numbered, the output ends with a list holding a back
/// link for each number given.
pub proof fn law_plain_footnotes_clean_with_backlinks(s: Seq<EventV>)
    ensures
        !has_footnote_event(plain_footnotes(s)),
        plain_fold(s).labels.len() > 0 ==> ({
            let out = plain_footnotes(s);
            &&& out.len() > 0
            &&& out.last() == EventV::Html(footnote_list_html(plain_fold(s).labels, def_table(s, 0)))
            &&& forall|n: nat|
                1 <= n <= plain_fold(s).labels.len() ==> #[trigger] contains(
                    footnote_list_html(plain_fold(s).labels, def_table(s, 0)),
                    backref_html(n),
                )
        }),
{
    lemma_plain_fold_clean(s);
    let st = plain_fold(s);
    if st.labels.len() > 0 {
        let out = plain_footnotes(s);
        let h = footnote_list_html(st.labels, def_table(s, 0));
        assert forall|i: int| 0 <= i < out.len() implies !is_footnote_event(#[trigger] out[i]) by {
            if i < st.out.len() {
                assert(out[i] == st.out[i]);
            }
        }
        assert forall|n: nat| 1 <= n <= st.labels.len() implies #[trigger] contains(h, backref_html(n)) by {
            lemma_list_items_backrefs(st.labels, def_table(s, 0), n);
            lemma_contains_extend(
                list_items(st.labels, def_table(s, 0)),
                backref_html(n),
                "<section class=\"footnotes\" aria-label=\"Footnotes\"><hr><ol>"@,
                "</ol></section>"@,
            );
        }
    }
}

} // verus!
