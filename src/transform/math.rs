//! Math rendering: raw math source becomes pre-rendered markup.
use vstd::prelude::*;
use crate::event::{Event, EventV, events_view, opt_view};

verus! {

/// What KaTeX renders for a source in inline (`false`) or display (`true`) mode;
/// `None` where it reports an error.
pub uninterp spec fn katex_output(src: Seq<char>, display: bool) -> Option<Seq<char>>;

/// Relies on `katex::render_with_opts` with the display mode set: the rendered
/// markup, or `None` where KaTeX fails.
#[verifier::external_body]
fn katex_render(source: &str, display: bool) -> (r: Option<String>)
    ensures
        opt_view(r) == katex_output(source@, display),
{
    let mut opts = katex::Opts::default();
    opts.set_display_mode(display);
    katex::render_with_opts(source, opts).ok()
}

/// The markup of a formula: KaTeX's output, or the source itself where KaTeX fails.
pub open spec fn math_html(src: Seq<char>, display: bool) -> Seq<char> {
    match katex_output(src, display) {
        Some(h) => h,
        None => src,
    }
}

/// Renders one formula, falling back to its source.
pub fn render_math(source: &str, display_mode: bool) -> (r: String)
    ensures
        r@ == math_html(source@, display_mode),
{
    match katex_render(source, display_mode) {
        Some(h) => h,
        None => String::from_str(source),
    }
}

pub open spec fn math_event(e: EventV) -> EventV {
    match e {
        EventV::InlineMath(s) => EventV::InlineHtml(math_html(s, false)),
        EventV::DisplayMath(s) => EventV::Html(math_html(s, true)),
        _ => e,
    }
}

pub open spec fn math_rendered(s: Seq<EventV>) -> Seq<EventV> {
    s.map_values(|e: EventV| math_event(e))
}

/// Inline math becomes inline markup, display math becomes block markup.
pub fn render_math_events(events: Vec<Event>) -> (r: Vec<Event>)
    ensures
        events_view(r@) == math_rendered(events_view(events@)),
{
    let mut out: Vec<Event> = Vec::new();
    let mut i: usize = 0;
    while i < events.len()
        invariant
            i <= events@.len(),
            out@.len() == i,
            forall|j: int| 0 <= j < i ==> #[trigger] out@[j]@ == math_event(events@[j]@),
        decreases events.len() - i,
    {
        let e = match &events[i] {
            Event::InlineMath(s) => Event::InlineHtml(render_math(s.as_str(), false)),
            Event::DisplayMath(s) => Event::Html(render_math(s.as_str(), true)),
            other => other.copy(),
        };
        out.push(e);
        i += 1;
    }
    assert(events_view(out@) =~= math_rendered(events_view(events@)));
    out
}

} // verus!
