//! The rewriters as interchangeable stages, and the fixed order in which a
//! document goes through them.
use vstd::prelude::*;
use crate::event::{Event, EventV, TagV, TagEnd, events_view};
use crate::transform::code_block::{code_fold, code_highlighted, highlight_code_blocks};
use crate::transform::epigraph::{epigraphs, epigraphs_from, process_epigraphs};
use crate::transform::footnote::{
    convert_footnotes_to_plain_list, convert_footnotes_to_sidenotes, def_table, plain_fold, plain_footnotes,
    sidenote_fold, sidenotes,
};
use crate::transform::heading::{demote_event, demote_headings, demoted};
use crate::transform::image::{caption_images, image_captioned, image_fold, remote_unsized, Dimensions};
use crate::transform::math::{math_event, math_rendered, render_math_events};
use crate::transform::toc::{insert_toc_and_heading_ids, toc_fold, with_toc};

verus! {

/// A stage of the pipeline: consumes a document's events and produces new ones.
pub trait Transformer {
    /// Whether `output` is a result this stage may give for `input`.
    spec fn rewrites(input: Seq<EventV>, output: Seq<EventV>) -> bool;

    fn transform(events: Vec<Event>) -> (r: Vec<Event>)
        ensures
            Self::rewrites(events_view(events@), events_view(r@)),
    ;
}

/// Chaining of stages on an event sequence.
pub trait WithTransformer: Sized {
    spec fn events_of(&self) -> Seq<EventV>;

    fn with_transformer<T: Transformer>(self) -> (r: Vec<Event>)
        ensures
            T::rewrites(self.events_of(), events_view(r@)),
    ;
}

impl WithTransformer for Vec<Event> {
    open spec fn events_of(&self) -> Seq<EventV> {
        events_view(self@)
    }

    fn with_transformer<T: Transformer>(self) -> (r: Vec<Event>) {
        T::transform(self)
    }
}

/// Epigraph detection in blockquotes.
pub struct EpigraphTransformer;

/// Syntax highlighting of code blocks.
pub struct CodeHighlightTransformer;

/// Math rendering.
pub struct MathTransformer;

/// Footnotes as sidenotes.
pub struct FootnoteTransformer;

/// Footnotes as numbered links and a trailing list.
pub struct PlainFootnoteTransformer;

/// Heading demotion.
pub struct HeadingDemoterTransformer;

/// Heading ids and table of contents.
pub struct TocTransformer;

/// Image figures with captions.
pub struct ImageCaptionTransformer;

impl Transformer for EpigraphTransformer {
    open spec fn rewrites(input: Seq<EventV>, output: Seq<EventV>) -> bool {
        output == epigraphs(input)
    }

    fn transform(events: Vec<Event>) -> (r: Vec<Event>) {
        process_epigraphs(events)
    }
}

impl Transformer for CodeHighlightTransformer {
    open spec fn rewrites(input: Seq<EventV>, output: Seq<EventV>) -> bool {
        output == code_highlighted(input)
    }

    fn transform(events: Vec<Event>) -> (r: Vec<Event>) {
        highlight_code_blocks(events)
    }
}

impl Transformer for MathTransformer {
    open spec fn rewrites(input: Seq<EventV>, output: Seq<EventV>) -> bool {
        output == math_rendered(input)
    }

    fn transform(events: Vec<Event>) -> (r: Vec<Event>) {
        render_math_events(events)
    }
}

impl Transformer for FootnoteTransformer {
    open spec fn rewrites(input: Seq<EventV>, output: Seq<EventV>) -> bool {
        output == sidenotes(input)
    }

    fn transform(events: Vec<Event>) -> (r: Vec<Event>) {
        convert_footnotes_to_sidenotes(events)
    }
}

impl Transformer for PlainFootnoteTransformer {
    open spec fn rewrites(input: Seq<EventV>, output: Seq<EventV>) -> bool {
        output == plain_footnotes(input)
    }

    fn transform(events: Vec<Event>) -> (r: Vec<Event>) {
        convert_footnotes_to_plain_list(events)
    }
}

impl Transformer for HeadingDemoterTransformer {
    open spec fn rewrites(input: Seq<EventV>, output: Seq<EventV>) -> bool {
        output == demoted(input)
    }

    fn transform(events: Vec<Event>) -> (r: Vec<Event>) {
        demote_headings(events)
    }
}

impl Transformer for TocTransformer {
    open spec fn rewrites(input: Seq<EventV>, output: Seq<EventV>) -> bool {
        output == with_toc(input)
    }

    fn transform(events: Vec<Event>) -> (r: Vec<Event>) {
        insert_toc_and_heading_ids(events)
    }
}

impl Transformer for ImageCaptionTransformer {
    open spec fn rewrites(input: Seq<EventV>, output: Seq<EventV>) -> bool {
        exists|dims: Seq<Dimensions>| output == image_captioned(input, dims) && remote_unsized(input, dims)
    }

    fn transform(events: Vec<Event>) -> (r: Vec<Event>) {
        caption_images(events)
    }
}

/// Every stage before image captioning, with the given footnote style.
pub open spec fn page_stages(s: Seq<EventV>) -> Seq<EventV> {
    with_toc(demoted(sidenotes(math_rendered(code_highlighted(epigraphs(s))))))
}

pub open spec fn feed_stages(s: Seq<EventV>) -> Seq<EventV> {
    with_toc(demoted(plain_footnotes(math_rendered(code_highlighted(epigraphs(s))))))
}

/// Runs a page body through every stage in order: epigraphs, code, math,
/// sidenotes, heading demotion, table of contents, images.
pub fn transform_page(events: Vec<Event>) -> (r: Vec<Event>)
    ensures
        exists|dims: Seq<Dimensions>|
            events_view(r@) == image_captioned(page_stages(events_view(events@)), dims) && remote_unsized(
                page_stages(events_view(events@)),
                dims,
            ),
{
    let a = events.with_transformer::<EpigraphTransformer>();
    let b = a.with_transformer::<CodeHighlightTransformer>();
    let c = b.with_transformer::<MathTransformer>();
    let d = c.with_transformer::<FootnoteTransformer>();
    let e = d.with_transformer::<HeadingDemoterTransformer>();
    let f = e.with_transformer::<TocTransformer>();
    assert(events_view(f@) == page_stages(events_view(events@)));
    f.with_transformer::<ImageCaptionTransformer>()
}

/// Runs a feed body through every stage in order, with footnotes as a trailing list.
pub fn transform_feed(events: Vec<Event>) -> (r: Vec<Event>)
    ensures
        exists|dims: Seq<Dimensions>|
            events_view(r@) == image_captioned(feed_stages(events_view(events@)), dims) && remote_unsized(
                feed_stages(events_view(events@)),
                dims,
            ),
{
    let a = events.with_transformer::<EpigraphTransformer>();
    let b = a.with_transformer::<CodeHighlightTransformer>();
    let c = b.with_transformer::<MathTransformer>();
    let d = c.with_transformer::<PlainFootnoteTransformer>();
    let e = d.with_transformer::<HeadingDemoterTransformer>();
    let f = e.with_transformer::<TocTransformer>();
    assert(events_view(f@) == feed_stages(events_view(events@)));
    f.with_transformer::<ImageCaptionTransformer>()
}

} // verus!

verus! {

/// An event that no stage rewrites: no code block, math, footnote, heading,
/// image or blockquote.
pub open spec fn is_plain_event(e: EventV) -> bool {
    match e {
        EventV::Start(t) => match t {
            TagV::CodeBlock(_) => false,
            TagV::Heading { .. } => false,
            TagV::BlockQuote => false,
            TagV::FootnoteDefinition(_) => false,
            TagV::Image { .. } => false,
            _ => true,
        },
        EventV::End(t) => match t {
            TagEnd::CodeBlock => false,
            TagEnd::Heading(_) => false,
            TagEnd::BlockQuote => false,
            TagEnd::FootnoteDefinition => false,
            TagEnd::Image => false,
            _ => true,
        },
        EventV::InlineMath(_) => false,
        EventV::DisplayMath(_) => false,
        EventV::FootnoteReference(_) => false,
        _ => true,
    }
}

pub open spec fn all_plain(s: Seq<EventV>) -> bool {
    forall|i: int| 0 <= i < s.len() ==> is_plain_event(#[trigger] s[i])
}

proof fn lemma_plain_prefix(s: Seq<EventV>)
    requires
        all_plain(s),
        s.len() > 0,
    ensures
        all_plain(s.drop_last()),
        is_plain_event(s.last()),
{
    assert forall|i: int| 0 <= i < s.drop_last().len() implies is_plain_event(#[trigger] s.drop_last()[i]) by {
        assert(s.drop_last()[i] == s[i]);
    }
    assert(s.last() == s[s.len() - 1]);
}

proof fn lemma_epigraphs_identity(s: Seq<EventV>, i: int)
    requires
        all_plain(s),
        0 <= i <= s.len(),
    ensures
        epigraphs_from(s, i) == s.subrange(i, s.len() as int),
    decreases s.len() - i,
{
    if i < s.len() {
        assert(is_plain_event(s[i]));
        lemma_epigraphs_identity(s, i + 1);
        assert(seq![s[i]] + s.subrange(i + 1, s.len() as int) =~= s.subrange(i, s.len() as int));
    } else {
        assert(s.subrange(i, s.len() as int) =~= Seq::<EventV>::empty());
    }
}

proof fn lemma_code_identity(s: Seq<EventV>)
    requires
        all_plain(s),
    ensures
        code_fold(s).lang is None,
        code_fold(s).out == s,
    decreases s.len(),
{
    if s.len() > 0 {
        lemma_plain_prefix(s);
        lemma_code_identity(s.drop_last());
        assert(s.drop_last().push(s.last()) =~= s);
    }
}

proof fn lemma_sidenote_identity(defs: Seq<(Seq<char>, Seq<EventV>)>, s: Seq<EventV>)
    requires
        all_plain(s),
    ensures
        sidenote_fold(defs, s).skip == 0,
        sidenote_fold(defs, s).out == s,
    decreases s.len(),
{
    if s.len() > 0 {
        lemma_plain_prefix(s);
        lemma_sidenote_identity(defs, s.drop_last());
        assert(s.drop_last().push(s.last()) =~= s);
    }
}

proof fn lemma_toc_identity(s: Seq<EventV>)
    requires
        all_plain(s),
    ensures
        toc_fold(s).open is None,
        toc_fold(s).out == s,
        toc_fold(s).headings.len() == 0,
    decreases s.len(),
{
    if s.len() > 0 {
        lemma_plain_prefix(s);
        lemma_toc_identity(s.drop_last());
        assert(s.drop_last().push(s.last()) =~= s);
    }
}

proof fn lemma_image_identity(dims: Seq<Dimensions>, s: Seq<EventV>)
    requires
        all_plain(s),
    ensures
        image_fold(dims, s).cap is None,
        image_fold(dims, s).out == s,
    decreases s.len(),
{
    if s.len() > 0 {
        lemma_plain_prefix(s);
        lemma_image_identity(dims, s.drop_last());
        assert(s.drop_last().push(s.last()) =~= s);
    }
}

/// A document with no code block, math, footnote, heading, image or
/// blockquote comes out of the whole pipeline unchanged.
pub proof fn law_pipeline_identity_on_plain_input(s: Seq<EventV>, dims: Seq<Dimensions>)
    requires
        all_plain(s),
    ensures
        image_captioned(page_stages(s), dims) == s,
{
    lemma_epigraphs_identity(s, 0);
    assert(s.subrange(0, s.len() as int) =~= s);
    lemma_code_identity(s);
    assert(math_rendered(s) =~= s) by {
        assert forall|i: int| 0 <= i < s.len() implies math_rendered(s)[i] == s[i] by {
            assert(is_plain_event(s[i]));
        }
    }
    lemma_sidenote_identity(def_table(s, 0), s);
    assert(demoted(s) =~= s) by {
        assert forall|i: int| 0 <= i < s.len() implies demoted(s)[i] == s[i] by {
            assert(is_plain_event(s[i]));
        }
    }
    lemma_toc_identity(s);
    lemma_image_identity(dims, s);
}

} // verus!
