//! Epigraphs: a blockquote whose last text ends in an attribution after a dash
//! is wrapped, and the attribution moves into a footer.
use vstd::prelude::*;
use crate::event::{Event, EventV, Tag, TagV, TagEnd, events_view};
use crate::transform::span::copy_range;
use crate::text::{chars_of, escaped, is_ws, push_escaped, string_of, trim, trim_end, trim_str, whitespace, trim_end_len};

verus! {

/// Index of the end tag closing a blockquote whose content continues at `j`,
/// `depth` quotes deep (only quotes count); the length when it never closes.
pub open spec fn quote_close(s: Seq<EventV>, j: int, depth: nat) -> int
    decreases s.len() - j,
{
    if j < 0 || j >= s.len() {
        s.len() as int
    } else {
        match s[j] {
            EventV::Start(TagV::BlockQuote) => quote_close(s, j + 1, depth + 1),
            EventV::End(TagEnd::BlockQuote) => if depth <= 1 {
                j
            } else {
                quote_close(s, j + 1, (depth - 1) as nat)
            },
            _ => quote_close(s, j + 1, depth),
        }
    }
}

/// Whether a text has any non-whitespace character.
pub open spec fn has_content(t: Seq<char>) -> bool {
    exists|i: int| 0 <= i < t.len() && !is_ws(#[trigger] t[i])
}

/// Index of the last text event with content among the first `n` events, or -1.
pub open spec fn last_content_text(b: Seq<EventV>, n: int) -> int
    decreases n,
{
    if n <= 0 {
        -1
    } else {
        match b[n - 1] {
            EventV::Text(t) => if has_content(t) {
                n - 1
            } else {
                last_content_text(b, n - 1)
            },
            _ => last_content_text(b, n - 1),
        }
    }
}

/// Start of the last occurrence of `p` in `t` among positions below `n`, or -1.
pub open spec fn rfind_below(t: Seq<char>, p: Seq<char>, n: int) -> int
    decreases n,
{
    if n <= 0 {
        -1
    } else if n - 1 + p.len() <= t.len() && t.subrange(n - 1, n - 1 + p.len()) == p {
        n - 1
    } else {
        rfind_below(t, p, n - 1)
    }
}

pub open spec fn rfind(t: Seq<char>, p: Seq<char>) -> int {
    rfind_below(t, p, t.len() as int)
}

/// Where the attribution starts: the last `--`, else the last en dash, else the last em dash.
pub open spec fn split_pos(t: Seq<char>) -> int {
    if rfind(t, seq!['-', '-']) >= 0 {
        rfind(t, seq!['-', '-'])
    } else if rfind(t, seq!['\u{2013}']) >= 0 {
        rfind(t, seq!['\u{2013}'])
    } else {
        rfind(t, seq!['\u{2014}'])
    }
}

pub open spec fn is_dash(c: char) -> bool {
    c == '-' || c == '\u{2013}' || c == '\u{2014}'
}

/// The text without its leading dashes.
pub open spec fn skip_dashes(s: Seq<char>) -> Seq<char>
    decreases s.len(),
{
    if s.len() > 0 && is_dash(s[0]) {
        skip_dashes(s.drop_first())
    } else {
        s
    }
}

pub open spec fn is_blank_event(e: EventV) -> bool {
    match e {
        EventV::Text(t) => !has_content(t),
        EventV::SoftBreak => true,
        EventV::HardBreak => true,
        _ => false,
    }
}

/// The body without its trailing blank text and line breaks.
pub open spec fn drop_trailing_blanks(b: Seq<EventV>) -> Seq<EventV>
    decreases b.len(),
{
    if b.len() > 0 && is_blank_event(b.last()) {
        drop_trailing_blanks(b.drop_last())
    } else {
        b
    }
}

/// Searching back from index `j` for the start of a paragraph that holds no content.
pub open spec fn empty_par_start(b: Seq<EventV>, j: int) -> int
    decreases j + 1,
{
    if j < 0 {
        -1
    } else {
        match b[j] {
            EventV::Start(TagV::Paragraph) => j,
            EventV::End(_) => -1,
            EventV::Text(t) => if has_content(t) {
                -1
            } else {
                empty_par_start(b, j - 1)
            },
            EventV::Code(_) => -1,
            EventV::Html(_) => -1,
            EventV::Start(TagV::Image { .. }) => -1,
            _ => empty_par_start(b, j - 1),
        }
    }
}

/// The body with trailing blanks removed, and then a trailing empty paragraph.
pub open spec fn cleaned(b: Seq<EventV>) -> Seq<EventV> {
    let c = drop_trailing_blanks(b);
    if c.len() > 0 && c.last() == EventV::End(TagEnd::Paragraph) && empty_par_start(c, c.len() - 2) >= 0 {
        c.subrange(0, empty_par_start(c, c.len() - 2))
    } else {
        c
    }
}

/// The attribution of a quote body and the body without it, when the last text
/// with content holds a dash followed by a non-blank attribution.
pub open spec fn split_footer(b: Seq<EventV>) -> Option<(Seq<EventV>, Seq<char>)> {
    let idx = last_content_text(b, b.len() as int);
    if idx < 0 {
        None
    } else {
        match b[idx] {
            EventV::Text(t) => {
                let pos = split_pos(t);
                if pos < 0 {
                    None
                } else {
                    let footer = trim(skip_dashes(t.subrange(pos, t.len() as int)));
                    let rest = trim_end(t.subrange(0, pos));
                    if footer.len() == 0 {
                        None
                    } else {
                        let body = if rest.len() == 0 {
                            b.remove(idx)
                        } else {
                            b.update(idx, EventV::Text(rest))
                        };
                        Some((cleaned(body), footer))
                    }
                }
            },
            _ => None,
        }
    }
}

/// The events that stand for one blockquote; `closed` says whether its end tag was found.
pub open spec fn quote_events(body: Seq<EventV>, closed: bool) -> Seq<EventV> {
    let end = if closed { seq![EventV::End(TagEnd::BlockQuote)] } else { Seq::empty() };
    match split_footer(body) {
        Some((rest, footer)) => seq![
            EventV::Html("<div class=\"epigraph\">"@),
            EventV::Start(TagV::BlockQuote),
        ] + rest + seq![EventV::Html("<footer>"@ + escaped(footer) + "</footer>"@)] + end + seq![
            EventV::Html("</div>"@),
        ],
        None => seq![EventV::Start(TagV::BlockQuote)] + body + end,
    }
}

/// The document from index `i` on, with each outermost blockquote rendered as
/// an epigraph where it has an attribution.
pub open spec fn epigraphs_from(s: Seq<EventV>, i: int) -> Seq<EventV>
    decreases s.len() - i,
{
    if i < 0 || i >= s.len() {
        Seq::empty()
    } else {
        match s[i] {
            EventV::Start(TagV::BlockQuote) => {
                let c = quote_close(s, i + 1, 1);
                if i < c < s.len() {
                    quote_events(s.subrange(i + 1, c), true) + epigraphs_from(s, c + 1)
                } else {
                    quote_events(s.subrange(i + 1, s.len() as int), false)
                }
            },
            _ => seq![s[i]] + epigraphs_from(s, i + 1),
        }
    }
}

pub open spec fn epigraphs(s: Seq<EventV>) -> Seq<EventV> {
    epigraphs_from(s, 0)
}

} // verus!

verus! {

fn find_quote_close(events: &Vec<Event>, from: usize) -> (r: usize)
    requires
        from <= events@.len(),
    ensures
        r as int == quote_close(events_view(events@), from as int, 1),
        from <= r <= events@.len(),
{
    let ghost s = events_view(events@);
    let mut j = from;
    let mut opened: usize = 0;
    while j < events.len()
        invariant
            from <= j <= events@.len(),
            s == events_view(events@),
            opened <= j - from,
            quote_close(s, j as int, (opened + 1) as nat) == quote_close(s, from as int, 1),
        decreases events.len() - j,
    {
        assert(s[j as int] == events@[j as int]@);
        match &events[j] {
            Event::Start(Tag::BlockQuote) => {
                opened = opened + 1;
            },
            Event::End(TagEnd::BlockQuote) => {
                if opened == 0 {
                    return j;
                }
                opened = opened - 1;
            },
            _ => {},
        }
        j += 1;
    }
    j
}

fn content_in(t: &String) -> (r: bool)
    ensures
        r == has_content(t@),
{
    let cs = chars_of(t.as_str());
    let mut i: usize = 0;
    while i < cs.len()
        invariant
            i <= cs@.len(),
            cs@ == t@,
            forall|k: int| 0 <= k < i ==> is_ws(#[trigger] cs@[k]),
        decreases cs.len() - i,
    {
        if !whitespace(cs[i]) {
            return true;
        }
        i += 1;
    }
    false
}

fn find_last_content_text(b: &Vec<Event>) -> (r: Option<usize>)
    ensures
        match r {
            Some(k) => last_content_text(events_view(b@), b@.len() as int) == k as int && k < b@.len(),
            None => last_content_text(events_view(b@), b@.len() as int) == -1,
        },
{
    let ghost s = events_view(b@);
    let mut n = b.len();
    while n > 0
        invariant
            n <= b@.len(),
            s == events_view(b@),
            last_content_text(s, b@.len() as int) == last_content_text(s, n as int),
        decreases n,
    {
        assert(s[n - 1] == b@[n - 1]@);
        match &b[n - 1] {
            Event::Text(t) => {
                if content_in(t) {
                    return Some(n - 1);
                }
            },
            _ => {},
        }
        n -= 1;
    }
    None
}

fn rfind_exec(t: &Vec<char>, p: &Vec<char>) -> (r: Option<usize>)
    requires
        p@.len() > 0,
    ensures
        match r {
            Some(k) => rfind(t@, p@) == k as int && k + p@.len() <= t@.len(),
            None => rfind(t@, p@) == -1,
        },
{
    let mut n = t.len();
    while n > 0
        invariant
            n <= t@.len(),
            p@.len() > 0,
            rfind(t@, p@) == rfind_below(t@, p@, n as int),
        decreases n,
    {
        let at = n - 1;
        if p.len() <= t.len() - at {
            let mut k: usize = 0;
            let mut ok = true;
            while k < p.len()
                invariant
                    k <= p@.len(),
                    at + p@.len() <= t@.len(),
                    ok ==> forall|m: int| 0 <= m < k ==> t@[at + m] == p@[m],
                    !ok ==> t@.subrange(at as int, at + p@.len()) != p@,
                decreases p.len() - k,
            {
                let tl = t.len();
                assert(at + k < tl);
                if t[at + k] != p[k] {
                    assert(t@.subrange(at as int, at + p@.len())[k as int] != p@[k as int]);
                    ok = false;
                }
                k += 1;
            }
            if ok {
                assert(t@.subrange(at as int, at + p@.len()) =~= p@);
                return Some(at);
            }
        }
        n -= 1;
    }
    None
}

fn skip_dashes_exec(s: &Vec<char>, from: usize) -> (r: usize)
    requires
        from <= s@.len(),
    ensures
        from <= r <= s@.len(),
        s@.subrange(r as int, s@.len() as int) == skip_dashes(s@.subrange(from as int, s@.len() as int)),
{
    let mut k = from;
    while k < s.len() && (s[k] == '-' || s[k] == '\u{2013}' || s[k] == '\u{2014}')
        invariant
            from <= k <= s@.len(),
            skip_dashes(s@.subrange(k as int, s@.len() as int)) == skip_dashes(s@.subrange(from as int, s@.len() as int)),
        decreases s.len() - k,
    {
        assert(s@.subrange(k as int, s@.len() as int).drop_first() =~= s@.subrange(k + 1, s@.len() as int));
        k += 1;
    }
    k
}

fn range_string(s: &Vec<char>, from: usize, to: usize) -> (r: String)
    requires
        from <= to <= s@.len(),
    ensures
        r@ == s@.subrange(from as int, to as int),
{
    let mut v: Vec<char> = Vec::new();
    let mut k = from;
    while k < to
        invariant
            from <= k <= to <= s@.len(),
            v@ == s@.subrange(from as int, k as int),
        decreases to - k,
    {
        v.push(s[k]);
        k += 1;
        assert(v@ =~= s@.subrange(from as int, k as int));
    }
    string_of(&v)
}

fn is_blank(e: &Event) -> (r: bool)
    ensures
        r == is_blank_event(e@),
{
    match e {
        Event::Text(t) => !content_in(t),
        Event::SoftBreak | Event::HardBreak => true,
        _ => false,
    }
}

/// Removes trailing blanks, then a trailing paragraph that holds no content.
pub fn cleanup_empty_paragraph(buffer: &mut Vec<Event>)
    ensures
        events_view(final(buffer)@) == cleaned(events_view(old(buffer)@)),
{
    let ghost b0 = events_view(buffer@);
    assert(b0 == events_view(old(buffer)@));
    while buffer.len() > 0 && is_blank(&buffer[buffer.len() - 1])
        invariant
            b0 == events_view(old(buffer)@),
            drop_trailing_blanks(events_view(buffer@)) == drop_trailing_blanks(b0),
        decreases buffer.len(),
    {
        let ghost v = events_view(buffer@);
        assert(v.last() == buffer@[buffer@.len() - 1]@);
        buffer.pop();
        assert(events_view(buffer@) =~= v.drop_last());
    }
    let ghost c = events_view(buffer@);
    assert(drop_trailing_blanks(c) == c) by {
        if c.len() > 0 {
            assert(c.last() == buffer@[buffer@.len() - 1]@);
        }
    }
    let n = buffer.len();
    if n == 0 {
        return;
    }
    assert(c.last() == buffer@[n - 1]@);
    match &buffer[n - 1] {
        Event::End(TagEnd::Paragraph) => {},
        _ => {
            return;
        },
    }
    assert(drop_trailing_blanks(b0) == c);
    let mut j: usize = n - 1;
    while j > 0
        invariant
            j <= n - 1,
            b0 == events_view(old(buffer)@),
            n == buffer@.len(),
            c == events_view(buffer@),
            drop_trailing_blanks(b0) == c,
            c.len() > 0 && c.last() == EventV::End(TagEnd::Paragraph),
            empty_par_start(c, n - 2) == empty_par_start(c, j - 1),
        decreases j,
    {
        let k = j - 1;
        assert(c[k as int] == buffer@[k as int]@);
        match &buffer[k] {
            Event::Start(Tag::Paragraph) => {
                assert(empty_par_start(c, k as int) == k);
                assert(empty_par_start(c, c.len() - 2) == k);
                buffer.truncate(k);
                assert(events_view(buffer@) =~= c.subrange(0, k as int));
                assert(cleaned(b0) == c.subrange(0, k as int));
                return;
            },
            Event::End(_) | Event::Code(_) | Event::Html(_) | Event::Start(Tag::Image { .. }) => {
                assert(empty_par_start(c, k as int) == -1);
                assert(cleaned(b0) == c);
                return;
            },
            Event::Text(t) => {
                if content_in(t) {
                    return;
                }
            },
            _ => {},
        }
        j = k;
    }
}

/// Takes the attribution off a quote body, if it has one.
pub fn extract_footer(buffer: &mut Vec<Event>) -> (r: Option<String>)
    ensures
        match split_footer(events_view(old(buffer)@)) {
            Some((rest, footer)) => r matches Some(f) && f@ == footer && events_view(final(buffer)@) == rest,
            None => r is None && final(buffer)@ == old(buffer)@,
        },
{
    let ghost b = events_view(buffer@);
    let idx = match find_last_content_text(buffer) {
        Some(k) => k,
        None => {
            return None;
        },
    };
    assert(b[idx as int] == buffer@[idx as int]@);
    let t = match &buffer[idx] {
        Event::Text(t) => t.clone(),
        _ => {
            return None;
        },
    };
    let cs = chars_of(t.as_str());
    let d2: Vec<char> = vec!['-', '-'];
    let en: Vec<char> = vec!['\u{2013}'];
    let em: Vec<char> = vec!['\u{2014}'];
    assert(d2@ =~= seq!['-', '-']);
    assert(en@ =~= seq!['\u{2013}']);
    assert(em@ =~= seq!['\u{2014}']);
    let found = match rfind_exec(&cs, &d2) {
        Some(p) => Some(p),
        None => match rfind_exec(&cs, &en) {
            Some(p) => Some(p),
            None => rfind_exec(&cs, &em),
        },
    };
    let pos = match found {
        Some(p) => p,
        None => {
            return None;
        },
    };
    assert(pos as int == split_pos(t@));
    let k = skip_dashes_exec(&cs, pos);
    let footer_raw = range_string(&cs, k, cs.len());
    let footer = trim_str(footer_raw.as_str());
    if footer.as_str().is_empty() {
        return None;
    }
    let e = trim_end_len(&cs, pos);
    if e == 0 {
        buffer.remove(idx);
        assert(events_view(buffer@) =~= b.remove(idx as int));
    } else {
        let rest = range_string(&cs, 0, e);
        buffer.set(idx, Event::Text(rest));
        assert(events_view(buffer@) =~= b.update(idx as int, EventV::Text(trim_end(t@.subrange(0, pos as int)))));
    }
    cleanup_empty_paragraph(buffer);
    Some(footer)
}

/// The events that stand for one captured blockquote.
fn push_quote(out: &mut Vec<Event>, body: Vec<Event>, closed: bool)
    ensures
        events_view(final(out)@) == events_view(old(out)@) + quote_events(events_view(body@), closed),
{
    let ghost o = events_view(out@);
    let ghost bv = events_view(body@);
    let mut buffer = body;
    let footer = extract_footer(&mut buffer);
    match footer {
        Some(f) => {
            out.push(Event::Html(String::from_str("<div class=\"epigraph\">")));
            out.push(Event::Start(Tag::BlockQuote));
            let ghost rest = events_view(buffer@);
            let ghost o2 = events_view(out@);
            out.append(&mut buffer);
            assert(events_view(out@) =~= o2 + rest);
            let mut h = String::from_str("<footer>");
            push_escaped(&mut h, f.as_str());
            h.append("</footer>");
            out.push(Event::Html(h));
            if closed {
                out.push(Event::End(TagEnd::BlockQuote));
            }
            out.push(Event::Html(String::from_str("</div>")));
        },
        None => {
            out.push(Event::Start(Tag::BlockQuote));
            let ghost o2 = events_view(out@);
            out.append(&mut buffer);
            assert(events_view(out@) =~= o2 + bv);
            if closed {
                out.push(Event::End(TagEnd::BlockQuote));
            }
        },
    }
    assert(events_view(out@) =~= o + quote_events(bv, closed));
}

/// Renders each outermost blockquote with an attribution as an epigraph.
pub fn process_epigraphs(events: Vec<Event>) -> (r: Vec<Event>)
    ensures
        events_view(r@) == epigraphs(events_view(events@)),
{
    let ghost s = events_view(events@);
    let mut out: Vec<Event> = Vec::new();
    let mut i: usize = 0;
    assert(events_view(out@) + epigraphs_from(s, 0) =~= epigraphs(s));
    while i < events.len()
        invariant
            i <= events@.len(),
            s == events_view(events@),
            events_view(out@) + epigraphs_from(s, i as int) == epigraphs(s),
        decreases events.len() - i,
    {
        assert(s[i as int] == events@[i as int]@);
        let ghost o = events_view(out@);
        match &events[i] {
            Event::Start(Tag::BlockQuote) => {
                let c = find_quote_close(&events, i + 1);
                let body = copy_range(&events, i + 1, c);
                if c < events.len() {
                    push_quote(&mut out, body, true);
                    assert(epigraphs_from(s, i as int) == quote_events(s.subrange(i + 1, c as int), true)
                        + epigraphs_from(s, c + 1));
                    assert(events_view(out@) + epigraphs_from(s, c + 1) =~= o + epigraphs_from(s, i as int));
                    i = c + 1;
                } else {
                    push_quote(&mut out, body, false);
                    assert(epigraphs_from(s, events.len() as int) =~= Seq::<EventV>::empty());
                    assert(events_view(out@) + epigraphs_from(s, events.len() as int) =~= o + epigraphs_from(s, i as int));
                    i = events.len();
                }
            },
            other => {
                out.push(other.copy());
                assert(events_view(out@) + epigraphs_from(s, i + 1) =~= o + epigraphs_from(s, i as int));
                i += 1;
            },
        }
    }
    assert(epigraphs_from(s, i as int) =~= Seq::<EventV>::empty());
    assert(events_view(out@) =~= events_view(out@) + Seq::<EventV>::empty());
    out
}

} // verus!
