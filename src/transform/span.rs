//! Nesting-aware span capture: from just after a start tag to its matching end tag.
use vstd::prelude::*;
use crate::event::{Event, EventV, events_view};

verus! {

/// Index of the end tag that closes an element whose content continues at `j`,
/// `depth` elements deep; the sequence length when it never closes.
pub open spec fn span_close(s: Seq<EventV>, j: int, depth: nat) -> int
    decreases s.len() - j,
{
    if j < 0 || j >= s.len() {
        s.len() as int
    } else {
        match s[j] {
            EventV::Start(_) => span_close(s, j + 1, depth + 1),
            EventV::End(_) => if depth <= 1 {
                j
            } else {
                span_close(s, j + 1, (depth - 1) as nat)
            },
            _ => span_close(s, j + 1, depth),
        }
    }
}

pub proof fn lemma_span_close_bounds(s: Seq<EventV>, j: int, depth: nat)
    requires
        0 <= j,
    ensures
        j <= span_close(s, j, depth) <= s.len() || (j > s.len() && span_close(s, j, depth) == s.len()),
    decreases s.len() - j,
{
    if j < s.len() {
        match s[j] {
            EventV::Start(_) => lemma_span_close_bounds(s, j + 1, depth + 1),
            EventV::End(_) => if depth > 1 {
                lemma_span_close_bounds(s, j + 1, (depth - 1) as nat)
            },
            _ => lemma_span_close_bounds(s, j + 1, depth),
        }
    }
}

/// Finds the end tag matching a start tag whose content begins at `from`.
pub fn find_span_close(events: &Vec<Event>, from: usize) -> (r: usize)
    requires
        from <= events@.len(),
    ensures
        r as int == span_close(events_view(events@), from as int, 1),
        from <= r <= events@.len(),
{
    let ghost s = events_view(events@);
    let mut j = from;
    let mut opened: usize = 0;
    while j < events.len()
        invariant
            from <= j <= events@.len(),
            s == events_view(events@),
            opened <= j - from,
            span_close(s, j as int, (opened + 1) as nat) == span_close(s, from as int, 1),
        decreases events.len() - j,
    {
        assert(s[j as int] == events@[j as int]@);
        match &events[j] {
            Event::Start(_) => {
                opened = opened + 1;
            },
            Event::End(_) => {
                if opened == 0 {
                    return j;
                }
                opened = opened - 1;
            },
            _ => {},
        }
        j += 1;
    }
    j
}

/// A copy of `events[from..to]`.
pub fn copy_range(events: &Vec<Event>, from: usize, to: usize) -> (r: Vec<Event>)
    requires
        from <= to <= events@.len(),
    ensures
        events_view(r@) == events_view(events@).subrange(from as int, to as int),
{
    let mut r: Vec<Event> = Vec::new();
    let mut k = from;
    while k < to
        invariant
            from <= k <= to <= events@.len(),
            events_view(r@) == events_view(events@).subrange(from as int, k as int),
            r@.len() == k - from,
        decreases to - k,
    {
        let ghost before = events_view(r@);
        r.push(events[k].copy());
        assert(events_view(r@) =~= before.push(events@[k as int]@));
        k += 1;
        assert(events_view(r@) =~= events_view(events@).subrange(from as int, k as int));
    }
    r
}

} // verus!
