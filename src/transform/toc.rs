//! Table of contents: the two shallowest tracked heading levels get stable,
//! unique anchor ids, and a nested list of them is put before the document.
use vstd::prelude::*;
use crate::event::{Event, EventV, Tag, TagV, TagEnd, HeadingLevel, events_view, opt_view, strings_view, clone_strings};
use crate::markup::{decimal, decimal2, digit_char, push_decimal, push_decimal2};
use crate::text::{escaped, push_escaped, slug_of, slugify, trim, trim_str};

verus! {

/// A heading recorded for the table: level, anchor id and title text.
pub struct HeadingEntry {
    pub level: HeadingLevel,
    pub id: String,
    pub title: String,
}

pub struct HeadingEntryV {
    pub level: HeadingLevel,
    pub id: Seq<char>,
    pub title: Seq<char>,
}

impl View for HeadingEntry {
    type V = HeadingEntryV;

    open spec fn view(&self) -> HeadingEntryV {
        HeadingEntryV { level: self.level, id: self.id@, title: self.title@ }
    }
}

pub open spec fn entries_view(v: Seq<HeadingEntry>) -> Seq<HeadingEntryV> {
    v.map_values(|h: HeadingEntry| h@)
}

/// A tracked heading whose end tag has not been reached yet.
pub struct OpenHeading {
    pub level: HeadingLevel,
    pub start: nat,
    pub title: Seq<char>,
    pub id: Option<Seq<char>>,
    pub classes: Seq<Seq<char>>,
}

pub struct TocState {
    pub open: Option<OpenHeading>,
    pub out: Seq<EventV>,
    pub headings: Seq<HeadingEntryV>,
    pub taken: Seq<Seq<char>>,
}

/// The `n`-th candidate id for base slug `b`: the base itself, then `b-2`, `b-3`, ….
pub open spec fn candidate(b: Seq<char>, n: nat) -> Seq<char> {
    if n <= 1 {
        b
    } else {
        b + seq!['-'] + decimal(n)
    }
}

/// The first candidate from the `n`-th on that is not taken; the search stops
/// at the candidate numbered one past the count of taken ids, which is always free.
pub open spec fn first_free(taken: Seq<Seq<char>>, b: Seq<char>, n: nat) -> Seq<char>
    decreases taken.len() + 1 - n,
{
    if n >= taken.len() + 1 || !taken.contains(candidate(b, n)) {
        candidate(b, n)
    } else {
        first_free(taken, b, n + 1)
    }
}

/// The id given to base slug `b` when the ids in `taken` are already given:
/// the first of `b`, `b-2`, `b-3`, … that is not taken.
pub open spec fn unique_id(taken: Seq<Seq<char>>, b: Seq<char>) -> Seq<char> {
    first_free(taken, b, 1)
}

pub open spec fn is_tracked(level: HeadingLevel) -> bool {
    level == HeadingLevel::H2 || level == HeadingLevel::H3
}

pub open spec fn toc_step(st: TocState, e: EventV) -> TocState {
    match st.open {
        None => match e {
            EventV::Start(TagV::Heading { level, id, classes }) => if is_tracked(level) {
                TocState {
                    open: Some(OpenHeading { level, start: st.out.len(), title: Seq::empty(), id, classes }),
                    out: st.out.push(EventV::Start(TagV::Heading { level, id: None, classes })),
                    ..st
                }
            } else {
                TocState { out: st.out.push(e), ..st }
            },
            _ => TocState { out: st.out.push(e), ..st },
        },
        Some(h) => match e {
            EventV::Text(t) => TocState {
                open: Some(OpenHeading { title: h.title + t, ..h }),
                out: st.out.push(e),
                ..st
            },
            EventV::Code(t) => TocState {
                open: Some(OpenHeading { title: h.title + t, ..h }),
                out: st.out.push(e),
                ..st
            },
            EventV::End(TagEnd::Heading(_)) => {
                let title = trim(h.title);
                let base = match h.id {
                    Some(i) => i,
                    None => slug_of(title),
                };
                let unique = unique_id(st.taken, base);
                TocState {
                    open: None,
                    out: st.out.update(
                        h.start as int,
                        EventV::Start(TagV::Heading { level: h.level, id: Some(unique), classes: h.classes }),
                    ).push(EventV::End(TagEnd::Heading(h.level))),
                    headings: st.headings.push(HeadingEntryV { level: h.level, id: unique, title }),
                    taken: st.taken.push(unique),
                }
            },
            _ => TocState { out: st.out.push(e), ..st },
        },
    }
}

pub open spec fn toc_fold(s: Seq<EventV>) -> TocState
    decreases s.len(),
{
    if s.len() == 0 {
        TocState { open: None, out: Seq::empty(), headings: Seq::empty(), taken: Seq::empty() }
    } else {
        toc_step(toc_fold(s.drop_last()), s.last())
    }
}

pub open spec fn open_view(
    level: HeadingLevel,
    start: usize,
    title: Seq<char>,
    id: Option<Seq<char>>,
    classes: Seq<Seq<char>>,
) -> OpenHeading {
    OpenHeading { level, start: start as nat, title, id, classes }
}

/// Result of the id pass: the patched events and the recorded headings.
pub struct TocExtraction {
    pub events: Vec<Event>,
    pub headings: Vec<HeadingEntry>,
}

fn is_taken(taken: &Vec<String>, c: &String) -> (r: bool)
    ensures
        r == strings_view(taken@).contains(c@),
{
    let ghost v = strings_view(taken@);
    let mut k: usize = 0;
    while k < taken.len()
        invariant
            k <= taken@.len(),
            v == strings_view(taken@),
            forall|m: int| 0 <= m < k ==> v[m] != c@,
        decreases taken.len() - k,
    {
        if taken[k] == *c {
            assert(v[k as int] == c@);
            return true;
        }
        k += 1;
    }
    false
}

fn make_candidate(b: &String, n: usize) -> (r: String)
    ensures
        r@ == candidate(b@, n as nat),
{
    if n <= 1 {
        b.clone()
    } else {
        let mut s = b.clone();
        crate::text::push_char(&mut s, '-');
        push_decimal(&mut s, n);
        assert(s@ =~= candidate(b@, n as nat));
        s
    }
}

/// Gives `base` the first of `base`, `base-2`, `base-3`, … that no earlier
/// heading has, and records it as taken.
pub fn uniquify_slug(base: String, taken: &mut Vec<String>) -> (r: String)
    requires
        old(taken)@.len() < usize::MAX,
    ensures
        r@ == unique_id(strings_view(old(taken)@), base@),
        strings_view(final(taken)@) == strings_view(old(taken)@).push(r@),
        final(taken)@.len() == old(taken)@.len() + 1,
{
    let ghost v = strings_view(taken@);
    let mut n: usize = 1;
    let mut c = make_candidate(&base, 1);
    while n <= taken.len() && is_taken(taken, &c)
        invariant
            1 <= n <= taken@.len() + 1,
            taken@.len() < usize::MAX,
            v == strings_view(taken@),
            c@ == candidate(base@, n as nat),
            first_free(v, base@, 1) == first_free(v, base@, n as nat),
        decreases taken@.len() + 1 - n,
    {
        n = n + 1;
        c = make_candidate(&base, n);
    }
    taken.push(c.clone());
    assert(strings_view(taken@) =~= v.push(c@));
    c
}

/// Patches tracked headings with unique ids and records them, in one pass.
pub fn extract_headings(events: Vec<Event>) -> (r: TocExtraction)
    ensures
        events_view(r.events@) == toc_fold(events_view(events@)).out,
        entries_view(r.headings@) == toc_fold(events_view(events@)).headings,
{
    let ghost s = events_view(events@);
    let mut out: Vec<Event> = Vec::new();
    let mut headings: Vec<HeadingEntry> = Vec::new();
    let mut bases: Vec<String> = Vec::new();
    let mut in_heading = false;
    let mut h_level = HeadingLevel::H2;
    let mut h_start: usize = 0;
    let mut h_title = String::new();
    let mut h_id: Option<String> = None;
    let mut h_classes: Vec<String> = Vec::new();
    let mut i: usize = 0;
    assert(s.take(0) =~= Seq::<EventV>::empty());
    assert(events_view(out@) =~= Seq::<EventV>::empty());
    assert(entries_view(headings@) =~= Seq::<HeadingEntryV>::empty());
    assert(strings_view(bases@) =~= Seq::<Seq<char>>::empty());
    while i < events.len()
        invariant
            i <= events@.len(),
            s == events_view(events@),
            out@.len() <= i,
            bases@.len() + (if in_heading { 1int } else { 0int }) <= out@.len(),
            in_heading ==> h_start < out@.len(),
            toc_fold(s.take(i as int)) == (TocState {
                open: if in_heading {
                    Some(open_view(h_level, h_start, h_title@, opt_view(h_id), strings_view(h_classes@)))
                } else {
                    None
                },
                out: events_view(out@),
                headings: entries_view(headings@),
                taken: strings_view(bases@),
            }),
        decreases events.len() - i,
    {
        assert(s.take(i + 1).drop_last() =~= s.take(i as int));
        assert(s.take(i + 1).last() == events@[i as int]@);
        let ghost before = events_view(out@);
        let ev = &events[i];
        if !in_heading {
            match ev {
                Event::Start(Tag::Heading { level, id, classes }) => {
                    if *level == HeadingLevel::H2 || *level == HeadingLevel::H3 {
                        h_start = out.len();
                        h_level = *level;
                        h_title = String::new();
                        h_id = crate::event::clone_opt_string(id);
                        h_classes = clone_strings(classes);
                        out.push(Event::Start(Tag::Heading { level: *level, id: None, classes: clone_strings(classes) }));
                        in_heading = true;
                    } else {
                        out.push(ev.copy());
                    }
                },
                _ => {
                    out.push(ev.copy());
                },
            }
        } else {
            match ev {
                Event::Text(t) => {
                    h_title.append(t.as_str());
                    out.push(ev.copy());
                },
                Event::Code(t) => {
                    h_title.append(t.as_str());
                    out.push(ev.copy());
                },
                Event::End(TagEnd::Heading(_)) => {
                    let title = trim_str(h_title.as_str());
                    let base = match &h_id {
                        Some(x) => x.clone(),
                        None => slugify(title.as_str()),
                    };
                    let unique = uniquify_slug(base, &mut bases);
                    out.set(
                        h_start,
                        Event::Start(Tag::Heading { level: h_level, id: Some(unique.clone()), classes: clone_strings(&h_classes) }),
                    );
                    out.push(Event::End(TagEnd::Heading(h_level)));
                    let ghost hb = entries_view(headings@);
                    headings.push(HeadingEntry { level: h_level, id: unique, title });
                    assert(entries_view(headings@) =~= hb.push(headings@.last()@));
                    in_heading = false;
                },
                _ => {
                    out.push(ev.copy());
                },
            }
        }
        i += 1;
        assert(events_view(out@) =~= toc_fold(s.take(i as int)).out);
    }
    assert(s.take(events.len() as int) =~= s);
    TocExtraction { events: out, headings }
}

} // verus!

verus! {

/// Counters and open elements while the table is written.
pub struct TocHtmlState {
    pub h2: nat,
    pub h3: nat,
    pub li_open: bool,
    pub sub_open: bool,
    pub html: Seq<char>,
}

/// The link of one entry: anchor, number and title.
pub open spec fn entry_link(id: Seq<char>, num: Seq<char>, title: Seq<char>) -> Seq<char> {
    "<a href=\"#"@ + escaped(id) + "\"><span class=\"toc-num\">"@ + num + "</span><span class=\"toc-text\">"@
        + escaped(title) + "</span><span class=\"toc-leader\" aria-hidden=\"true\"></span></a>"@
}

pub open spec fn close_item(st: TocHtmlState) -> Seq<char> {
    if st.li_open {
        (if st.sub_open { "</ol>"@ } else { Seq::empty() }) + "</li>"@
    } else {
        Seq::empty()
    }
}

/// One entry of the table; `next` is the level of the entry after it, if any.
pub open spec fn toc_html_step(st: TocHtmlState, h: HeadingEntryV, next: Option<HeadingLevel>) -> TocHtmlState {
    if h.level == HeadingLevel::H2 {
        let opens_sub = next == Some(HeadingLevel::H3);
        TocHtmlState {
            h2: st.h2 + 1,
            h3: 0,
            li_open: true,
            sub_open: opens_sub,
            html: st.html + close_item(st) + "<li class=\"toc-l1\">"@ + entry_link(h.id, decimal2(st.h2 + 1), h.title)
                + if opens_sub { "<ol class=\"toc-sub\">"@ } else { Seq::empty() },
        }
    } else if h.level == HeadingLevel::H3 {
        if !st.li_open {
            TocHtmlState {
                h2: st.h2 + 1,
                h3: 0,
                html: st.html + "<li class=\"toc-l1\">"@ + entry_link(h.id, decimal2(st.h2 + 1), h.title) + "</li>"@,
                ..st
            }
        } else {
            TocHtmlState {
                h3: st.h3 + 1,
                html: st.html + "<li class=\"toc-l2\">"@ + entry_link(
                    h.id,
                    decimal2(st.h2) + seq!['.'] + decimal(st.h3 + 1),
                    h.title,
                ) + "</li>"@,
                ..st
            }
        }
    } else {
        st
    }
}

pub open spec fn next_level(hs: Seq<HeadingEntryV>, i: int) -> Option<HeadingLevel> {
    if i + 1 < hs.len() {
        Some(hs[i + 1].level)
    } else {
        None
    }
}

pub open spec fn toc_html_fold(hs: Seq<HeadingEntryV>, n: int) -> TocHtmlState
    decreases n,
{
    if n <= 0 {
        TocHtmlState {
            h2: 0,
            h3: 0,
            li_open: false,
            sub_open: false,
            html: "<div class=\"toc-anchor\"><nav class=\"toc marginnote\" aria-label=\"Contents\"><p class=\"toc-title\">Contents</p><ol class=\"toc-list\">"@,
        }
    } else {
        toc_html_step(toc_html_fold(hs, n - 1), hs[n - 1], next_level(hs, n - 1))
    }
}

/// The table of contents: a nested ordered list, second-level entries numbered
/// `01, 02, …`, third-level ones `01.1, 01.2, …` under their entry.
pub open spec fn toc_html(hs: Seq<HeadingEntryV>) -> Seq<char> {
    let st = toc_html_fold(hs, hs.len() as int);
    st.html + close_item(st) + "</ol></nav></div>"@
}

fn push_entry_link(out: &mut String, id: &String, title: &String, h2: usize, h3: Option<usize>)
    ensures
        final(out)@ == old(out)@ + entry_link(
            id@,
            match h3 {
                Some(k) => decimal2(h2 as nat) + seq!['.'] + decimal(k as nat),
                None => decimal2(h2 as nat),
            },
            title@,
        ),
{
    let ghost o = out@;
    out.append("<a href=\"#");
    push_escaped(out, id.as_str());
    out.append("\"><span class=\"toc-num\">");
    push_decimal2(out, h2);
    match h3 {
        Some(k) => {
            crate::text::push_char(out, '.');
            push_decimal(out, k);
        },
        None => {},
    }
    out.append("</span><span class=\"toc-text\">");
    push_escaped(out, title.as_str());
    out.append("</span><span class=\"toc-leader\" aria-hidden=\"true\"></span></a>");
    assert(out@ =~= o + entry_link(
        id@,
        match h3 {
            Some(k) => decimal2(h2 as nat) + seq!['.'] + decimal(k as nat),
            None => decimal2(h2 as nat),
        },
        title@,
    ));
}

/// Renders the table of contents for the recorded headings.
pub fn build_toc_html(headings: &Vec<HeadingEntry>) -> (r: String)
    ensures
        r@ == toc_html(entries_view(headings@)),
{
    let ghost hs = entries_view(headings@);
    let mut h2_n: usize = 0;
    let mut h3_n: usize = 0;
    let mut li_open = false;
    let mut sub_open = false;
    let mut s = String::from_str(
        "<div class=\"toc-anchor\"><nav class=\"toc marginnote\" aria-label=\"Contents\"><p class=\"toc-title\">Contents</p><ol class=\"toc-list\">",
    );
    let mut i: usize = 0;
    while i < headings.len()
        invariant
            i <= headings@.len(),
            hs == entries_view(headings@),
            h2_n <= i,
            h3_n <= i,
            toc_html_fold(hs, i as int) == (TocHtmlState {
                h2: h2_n as nat,
                h3: h3_n as nat,
                li_open,
                sub_open,
                html: s@,
            }),
        decreases headings.len() - i,
    {
        let entry = &headings[i];
        assert(hs[i as int] == entry@);
        let ghost st0 = TocHtmlState { h2: h2_n as nat, h3: h3_n as nat, li_open, sub_open, html: s@ };
        if entry.level == HeadingLevel::H2 {
            if li_open {
                if sub_open {
                    s.append("</ol>");
                }
                s.append("</li>");
            }
            assert(s@ =~= st0.html + close_item(st0));
            li_open = true;
            h2_n += 1;
            h3_n = 0;
            s.append("<li class=\"toc-l1\">");
            push_entry_link(&mut s, &entry.id, &entry.title, h2_n, None);
            let next_is_h3 = i + 1 < headings.len() && headings[i + 1].level == HeadingLevel::H3;
            proof {
                if i + 1 < headings@.len() {
                    assert(hs[i + 1] == headings@[i + 1]@);
                }
            }
            if next_is_h3 {
                s.append("<ol class=\"toc-sub\">");
                sub_open = true;
            } else {
                sub_open = false;
            }
        } else if entry.level == HeadingLevel::H3 {
            if !li_open {
                h2_n += 1;
                h3_n = 0;
                s.append("<li class=\"toc-l1\">");
                push_entry_link(&mut s, &entry.id, &entry.title, h2_n, None);
                s.append("</li>");
            } else {
                h3_n += 1;
                s.append("<li class=\"toc-l2\">");
                push_entry_link(&mut s, &entry.id, &entry.title, h2_n, Some(h3_n));
                s.append("</li>");
            }
        }
        i += 1;
        assert(s@ =~= toc_html_fold(hs, i as int).html);
    }
    let ghost st = TocHtmlState { h2: h2_n as nat, h3: h3_n as nat, li_open, sub_open, html: s@ };
    if li_open {
        if sub_open {
            s.append("</ol>");
        }
        s.append("</li>");
    }
    s.append("</ol></nav></div>");
    assert(s@ =~= toc_html(hs));
    s
}

/// The document with tracked headings given unique ids, preceded by its table
/// of contents when it has any tracked heading.
pub open spec fn with_toc(s: Seq<EventV>) -> Seq<EventV> {
    let st = toc_fold(s);
    if st.headings.len() == 0 {
        st.out
    } else {
        seq![EventV::Html(toc_html(st.headings))] + st.out
    }
}

/// Inserts a table of contents (second and third levels) and assigns ids to
/// headings that have none.
pub fn insert_toc_and_heading_ids(events: Vec<Event>) -> (r: Vec<Event>)
    ensures
        events_view(r@) == with_toc(events_view(events@)),
{
    let ext = extract_headings(events);
    if ext.headings.len() == 0 {
        return ext.events;
    }
    let toc = build_toc_html(&ext.headings);
    let mut final_out: Vec<Event> = Vec::new();
    final_out.push(Event::Html(toc));
    let mut body = ext.events;
    let ghost head = events_view(final_out@);
    let ghost b = events_view(body@);
    final_out.append(&mut body);
    assert(events_view(final_out@) =~= head + b);
    final_out
}

} // verus!

verus! {

/// The number a decimal numeral stands for.
pub open spec fn numeral_value(s: Seq<char>) -> nat
    decreases s.len(),
{
    if s.len() == 0 {
        0
    } else {
        numeral_value(s.drop_last()) * 10 + digit_value(s.last())
    }
}

pub open spec fn digit_value(c: char) -> nat {
    if c == '1' { 1 } else if c == '2' { 2 } else if c == '3' { 3 } else if c == '4' { 4 } else if c == '5' { 5 }
    else if c == '6' { 6 } else if c == '7' { 7 } else if c == '8' { 8 } else if c == '9' { 9 } else { 0 }
}

proof fn lemma_decimal_value(n: nat)
    ensures
        numeral_value(decimal(n)) == n,
    decreases n,
{
    if n >= 10 {
        lemma_decimal_value(n / 10);
        let d = decimal(n);
        assert(d.drop_last() =~= decimal(n / 10));
        assert(d.last() == digit_char(n % 10));
        lemma_digit_value(n % 10);
        assert(n == (n / 10) * 10 + n % 10) by (nonlinear_arith);
        assert(d.len() > 0);
        assert(numeral_value(d) == numeral_value(d.drop_last()) * 10 + digit_value(d.last()));
    } else {
        let d = decimal(n);
        assert(d.drop_last() =~= Seq::<char>::empty());
        assert(d.last() == digit_char(n));
        lemma_digit_value(n);
        assert(numeral_value(d) == numeral_value(d.drop_last()) * 10 + digit_value(d.last()));
        assert(numeral_value(Seq::<char>::empty()) == 0);
    }
}

proof fn lemma_digit_value(d: nat)
    requires
        d < 10,
    ensures
        digit_value(digit_char(d)) == d,
{
}

proof fn lemma_candidate_injective(b: Seq<char>, n: nat, m: nat)
    requires
        1 <= n < m,
    ensures
        candidate(b, n) != candidate(b, m),
{
    let pre = b + seq!['-'];
    if n > 1 && candidate(b, n) == candidate(b, m) {
        assert((pre + decimal(n)).subrange(pre.len() as int, (pre + decimal(n)).len() as int) =~= decimal(n));
        assert((pre + decimal(m)).subrange(pre.len() as int, (pre + decimal(m)).len() as int) =~= decimal(m));
        lemma_decimal_value(n);
        lemma_decimal_value(m);
    }
    if n == 1 {
        assert(candidate(b, m).len() > b.len());
    }
}

/// The candidates numbered `1..=k`.
pub open spec fn candidates(b: Seq<char>, k: nat) -> Seq<Seq<char>> {
    Seq::new(k, |i: int| candidate(b, (i + 1) as nat))
}

/// Candidate `taken.len() + 1` is never taken: the first `taken.len() + 1`
/// candidates are distinct, so they cannot all be among the taken ids.
proof fn lemma_last_candidate_free(taken: Seq<Seq<char>>, b: Seq<char>)
    requires
        forall|n: nat| 1 <= n <= taken.len() ==> taken.contains(#[trigger] candidate(b, n)),
    ensures
        !taken.contains(candidate(b, taken.len() + 1)),
{
    if taken.contains(candidate(b, taken.len() + 1)) {
        let cs = candidates(b, taken.len() + 1);
        assert(cs.no_duplicates()) by {
            assert forall|i: int, j: int| 0 <= i < cs.len() && 0 <= j < cs.len() && i != j implies cs[i] != cs[j] by {
                if i < j {
                    lemma_candidate_injective(b, (i + 1) as nat, (j + 1) as nat);
                } else {
                    lemma_candidate_injective(b, (j + 1) as nat, (i + 1) as nat);
                }
            }
        }
        cs.unique_seq_to_set();
        taken.lemma_cardinality_of_set();
        assert(cs.to_set().subset_of(taken.to_set())) by {
            assert forall|x: Seq<char>| cs.to_set().contains(x) implies taken.to_set().contains(x) by {
                let i = choose|i: int| 0 <= i < cs.len() && cs[i] == x;
                assert(taken.contains(candidate(b, (i + 1) as nat)));
            }
        }
        vstd::set_lib::lemma_len_subset(cs.to_set(), taken.to_set());
    }
}

proof fn lemma_first_free_walk(taken: Seq<Seq<char>>, b: Seq<char>, n: nat)
    requires
        1 <= n <= taken.len() + 1,
        forall|m: nat| 1 <= m < n ==> taken.contains(#[trigger] candidate(b, m)),
    ensures
        !taken.contains(first_free(taken, b, n)),
    decreases taken.len() + 1 - n,
{
    if n >= taken.len() + 1 {
        lemma_last_candidate_free(taken, b);
    } else if taken.contains(candidate(b, n)) {
        lemma_first_free_walk(taken, b, n + 1);
    }
}

/// The id given to a base is never one already taken.
pub proof fn law_unique_id_is_fresh(taken: Seq<Seq<char>>, b: Seq<char>)
    ensures
        !taken.contains(unique_id(taken, b)),
{
    lemma_first_free_walk(taken, b, 1);
}

/// A base used `k` times before, with nothing else in the way, gets `-(k+1)`:
/// identical titles give `slug`, `slug-2`, `slug-3`, … in encounter order.
pub proof fn law_repeated_base_gets_next_suffix(b: Seq<char>, k: nat)
    ensures
        unique_id(candidates(b, k), b) == candidate(b, k + 1),
{
    let taken = candidates(b, k);
    assert forall|n: nat| 1 <= n <= k implies taken.contains(#[trigger] candidate(b, n)) by {
        assert(taken[n - 1] == candidate(b, n));
    }
    lemma_walk_all_taken(taken, b, 1, k);
}

proof fn lemma_walk_all_taken(taken: Seq<Seq<char>>, b: Seq<char>, n: nat, k: nat)
    requires
        taken.len() == k,
        1 <= n <= k + 1,
        forall|m: nat| 1 <= m <= k ==> taken.contains(#[trigger] candidate(b, m)),
    ensures
        first_free(taken, b, n) == candidate(b, k + 1),
    decreases k + 1 - n,
{
    if n <= k {
        lemma_walk_all_taken(taken, b, n + 1, k);
    }
}

/// The ids recorded so far are the ids of the recorded headings, in order.
pub open spec fn ids_recorded(st: TocState) -> bool {
    &&& st.headings.len() == st.taken.len()
    &&& forall|i: int| 0 <= i < st.headings.len() ==> #[trigger] st.headings[i].id == st.taken[i]
    &&& st.taken.no_duplicates()
}

proof fn lemma_toc_fold_ids(s: Seq<EventV>)
    ensures
        ids_recorded(toc_fold(s)),
    decreases s.len(),
{
    if s.len() > 0 {
        lemma_toc_fold_ids(s.drop_last());
        let p = toc_fold(s.drop_last());
        let c = toc_fold(s);
        if c.taken.len() > p.taken.len() {
            let id = c.taken.last();
            assert(c.taken == p.taken.push(id));
            law_unique_id_is_fresh(p.taken, match p.open { Some(h) => match h.id {
                Some(i) => i,
                None => slug_of(trim(h.title)),
            }, None => Seq::empty() });
            assert forall|i: int, j: int| 0 <= i < c.taken.len() && 0 <= j < c.taken.len() && i != j implies c.taken[i]
                != c.taken[j] by {
                if i < p.taken.len() && j < p.taken.len() {
                    assert(c.taken[i] == p.taken[i] && c.taken[j] == p.taken[j]);
                } else if i < p.taken.len() {
                    assert(c.taken[i] == p.taken[i]);
                    assert(p.taken.contains(c.taken[i]));
                } else {
                    assert(c.taken[j] == p.taken[j]);
                    assert(p.taken.contains(c.taken[j]));
                }
            }
            assert forall|i: int| 0 <= i < c.headings.len() implies #[trigger] c.headings[i].id == c.taken[i] by {
                if i < p.headings.len() {
                    assert(c.headings[i] == p.headings[i]);
                }
            }
        }
    }
}

/// Every recorded heading has an id no other one has; these are the ids patched
/// into the tracked heading tags of the output and listed in the table.
pub proof fn law_toc_ids_distinct(s: Seq<EventV>, i: int, j: int)
    requires
        0 <= i < toc_fold(s).headings.len(),
        0 <= j < toc_fold(s).headings.len(),
        i != j,
    ensures
        toc_fold(s).headings[i].id != toc_fold(s).headings[j].id,
{
    lemma_toc_fold_ids(s);
}

pub open spec fn starts_tracked_heading(e: EventV) -> bool {
    match e {
        EventV::Start(TagV::Heading { level, .. }) => is_tracked(level),
        _ => false,
    }
}

proof fn lemma_toc_untracked(s: Seq<EventV>)
    requires
        forall|i: int| 0 <= i < s.len() ==> !starts_tracked_heading(#[trigger] s[i]),
    ensures
        toc_fold(s).open is None,
        toc_fold(s).out == s,
        toc_fold(s).headings.len() == 0,
    decreases s.len(),
{
    if s.len() > 0 {
        assert forall|i: int| 0 <= i < s.drop_last().len() implies !starts_tracked_heading(
            #[trigger] s.drop_last()[i],
        ) by {
            assert(s.drop_last()[i] == s[i]);
        }
        assert(!starts_tracked_heading(s[s.len() - 1]));
        lemma_toc_untracked(s.drop_last());
        assert(s.drop_last().push(s.last()) =~= s);
    }
}

/// Without any second- or third-level heading, no table of contents is added
/// and the document is unchanged.
pub proof fn law_toc_omitted_without_tracked_headings(s: Seq<EventV>)
    requires
        forall|i: int| 0 <= i < s.len() ==> !starts_tracked_heading(#[trigger] s[i]),
    ensures
        with_toc(s) == s,
{
    lemma_toc_untracked(s);
}

} // verus!
