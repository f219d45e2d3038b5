//! Heading demotion: every heading goes one level deeper, the deepest stays put.
use vstd::prelude::*;
use crate::event::{Event, EventV, Tag, TagV, TagEnd, HeadingLevel, events_view};

verus! {

pub open spec fn demote_spec(level: HeadingLevel) -> HeadingLevel {
    match level {
        HeadingLevel::H1 => HeadingLevel::H2,
        HeadingLevel::H2 => HeadingLevel::H3,
        HeadingLevel::H3 => HeadingLevel::H4,
        HeadingLevel::H4 => HeadingLevel::H5,
        HeadingLevel::H5 => HeadingLevel::H6,
        HeadingLevel::H6 => HeadingLevel::H6,
    }
}

/// The level one below `level`; the deepest level maps to itself.
pub fn demote(level: HeadingLevel) -> (r: HeadingLevel)
    ensures
        r == demote_spec(level),
{
    match level {
        HeadingLevel::H1 => HeadingLevel::H2,
        HeadingLevel::H2 => HeadingLevel::H3,
        HeadingLevel::H3 => HeadingLevel::H4,
        HeadingLevel::H4 => HeadingLevel::H5,
        HeadingLevel::H5 => HeadingLevel::H6,
        HeadingLevel::H6 => HeadingLevel::H6,
    }
}

/// One event with any heading level demoted.
pub open spec fn demote_event(e: EventV) -> EventV {
    match e {
        EventV::Start(TagV::Heading { level, id, classes }) => EventV::Start(
            TagV::Heading { level: demote_spec(level), id, classes },
        ),
        EventV::End(TagEnd::Heading(level)) => EventV::End(TagEnd::Heading(demote_spec(level))),
        _ => e,
    }
}

pub open spec fn demoted(s: Seq<EventV>) -> Seq<EventV> {
    s.map_values(|e: EventV| demote_event(e))
}

/// Demotes every heading of the document by one level.
pub fn demote_headings(events: Vec<Event>) -> (r: Vec<Event>)
    ensures
        events_view(r@) == demoted(events_view(events@)),
{
    let mut out: Vec<Event> = Vec::new();
    let mut i: usize = 0;
    while i < events.len()
        invariant
            i <= events@.len(),
            out@.len() == i,
            forall|j: int| 0 <= j < i ==> #[trigger] out@[j]@ == demote_event(events@[j]@),
        decreases events.len() - i,
    {
        let e = match &events[i] {
            Event::Start(Tag::Heading { level, id, classes }) => Event::Start(
                Tag::Heading {
                    level: demote(*level),
                    id: crate::event::clone_opt_string(id),
                    classes: crate::event::clone_strings(classes),
                },
            ),
            Event::End(TagEnd::Heading(level)) => Event::End(TagEnd::Heading(demote(*level))),
            other => other.copy(),
        };
        out.push(e);
        i += 1;
    }
    assert(events_view(out@) =~= demoted(events_view(events@)));
    out
}

/// Demotion moves each level exactly one step deeper, except the deepest, which stays.
pub proof fn law_demote_levels()
    ensures
        demote_spec(HeadingLevel::H1) == HeadingLevel::H2,
        demote_spec(HeadingLevel::H2) == HeadingLevel::H3,
        demote_spec(HeadingLevel::H3) == HeadingLevel::H4,
        demote_spec(HeadingLevel::H4) == HeadingLevel::H5,
        demote_spec(HeadingLevel::H5) == HeadingLevel::H6,
        demote_spec(HeadingLevel::H6) == HeadingLevel::H6,
        forall|l: HeadingLevel| #[trigger] demote_spec(l) == l <==> l == HeadingLevel::H6,
{
}

} // verus!
