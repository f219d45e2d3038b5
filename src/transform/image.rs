//! Images: each image span becomes a captioned figure; the first image of a
//! document loads eagerly with high priority, later ones load lazily.
use vstd::prelude::*;
use crate::event::{Event, EventV, Tag, TagV, TagEnd, events_view};
use crate::markup::{decimal, events_html, push_decimal, render_html};
use crate::text::{escaped, push_escaped};

verus! {

/// Pixel width and height of an image, when they could be probed.
pub type Dimensions = Option<(u32, u32)>;

/// Relies on `imagesize::size`: reads the file's header; `None` where it
/// cannot be read or is not a known image format.
#[verifier::external_body]
fn probe_size(path: &str) -> (r: Option<(usize, usize)>)
{
    imagesize::size(path).ok().map(|d| (d.width, d.height))
}

fn starts_with_lit(s: &Vec<char>, p: &str) -> (r: bool)
    ensures
        r == (s@.len() >= p@.len() && s@.subrange(0, p@.len() as int) == p@),
{
    let ps = crate::text::chars_of(p);
    if s.len() < ps.len() {
        return false;
    }
    let mut k: usize = 0;
    while k < ps.len()
        invariant
            k <= ps@.len() <= s@.len(),
            ps@ == p@,
            forall|m: int| 0 <= m < k ==> s@[m] == ps@[m],
        decreases ps.len() - k,
    {
        if s[k] != ps[k] {
            assert(s@.subrange(0, ps@.len() as int)[k as int] != ps@[k as int]);
            return false;
        }
        k += 1;
    }
    assert(s@.subrange(0, ps@.len() as int) =~= ps@);
    true
}

/// Whether a source names a remote resource.
pub open spec fn is_remote(dest: Seq<char>) -> bool {
    (dest.len() >= 7 && dest.subrange(0, 7) == "http://"@) || (dest.len() >= 8 && dest.subrange(0, 8)
        == "https://"@)
}

/// The text without its leading slashes.
pub open spec fn drop_leading_slashes(s: Seq<char>) -> Seq<char>
    decreases s.len(),
{
    if s.len() > 0 && s[0] == '/' {
        drop_leading_slashes(s.drop_first())
    } else {
        s
    }
}

/// The path first probed for a local source: relative to the site root, that
/// is without leading slashes.
pub fn probe_path(dest_url: &str) -> (r: String)
    ensures
        r@ == drop_leading_slashes(dest_url@),
{
    let cs = crate::text::chars_of(dest_url);
    let mut b: usize = 0;
    assert(cs@.subrange(0, cs@.len() as int) =~= cs@);
    while b < cs.len() && cs[b] == '/'
        invariant
            b <= cs@.len(),
            cs@ == dest_url@,
            drop_leading_slashes(cs@.subrange(b as int, cs@.len() as int)) == drop_leading_slashes(dest_url@),
        decreases cs.len() - b,
    {
        assert(cs@.subrange(b as int, cs@.len() as int).drop_first() =~= cs@.subrange(b + 1, cs@.len() as int));
        b += 1;
    }
    let mut rest: Vec<char> = Vec::new();
    let mut k = b;
    while k < cs.len()
        invariant
            b <= k <= cs@.len(),
            rest@ == cs@.subrange(b as int, k as int),
        decreases cs.len() - k,
    {
        rest.push(cs[k]);
        k += 1;
        assert(rest@ =~= cs@.subrange(b as int, k as int));
    }
    proof {
        if b < cs@.len() {
            assert(cs@.subrange(b as int, cs@.len() as int)[0] == cs@[b as int]);
        }
    }
    crate::text::string_of(&rest)
}

/// The size kept from a probe: none where the probe found nothing or a side
/// does not fit in 32 bits.
pub open spec fn dims_of_probe(found: Option<(usize, usize)>) -> Dimensions {
    match found {
        Some((w, h)) => if w <= u32::MAX as usize && h <= u32::MAX as usize {
            Some((w as u32, h as u32))
        } else {
            None
        },
        None => None,
    }
}

pub fn dims_from_probe(found: Option<(usize, usize)>) -> (r: Dimensions)
    ensures
        r == dims_of_probe(found),
{
    match found {
        Some((w, h)) => if w <= u32::MAX as usize && h <= u32::MAX as usize {
            Some((w as u32, h as u32))
        } else {
            None
        },
        None => None,
    }
}

/// Probes the pixel size of a local image: at `probe_path(dest_url)` first,
/// then at `dest_url` as given where the first probe finds nothing. Remote
/// sources are not probed.
pub fn image_dimensions(dest_url: &str) -> (r: Dimensions)
    ensures
        is_remote(dest_url@) ==> r is None,
        exists|found: Option<(usize, usize)>| r == dims_of_probe(found),
{
    let cs = crate::text::chars_of(dest_url);
    proof {
        reveal_strlit("http://");
        reveal_strlit("https://");
    }
    if starts_with_lit(&cs, "http://") || starts_with_lit(&cs, "https://") {
        assert(dims_of_probe(None) is None);
        return None;
    }
    let cleaned = probe_path(dest_url);
    let found = match probe_size(cleaned.as_str()) {
        Some(d) => Some(d),
        None => probe_size(dest_url),
    };
    dims_from_probe(found)
}

/// The plain text of a caption: its text and inline code, concatenated.
pub open spec fn alt_text(s: Seq<EventV>) -> Seq<char>
    decreases s.len(),
{
    if s.len() == 0 {
        Seq::empty()
    } else {
        alt_text(s.drop_last()) + match s.last() {
            EventV::Text(t) => t,
            EventV::Code(t) => t,
            _ => Seq::empty(),
        }
    }
}

pub open spec fn size_attrs(dims: Dimensions) -> Seq<char> {
    match dims {
        Some((w, h)) => " width=\""@ + decimal(w as nat) + "\" height=\""@ + decimal(h as nat) + "\""@,
        None => Seq::empty(),
    }
}

pub open spec fn srcset_attrs(dest: Seq<char>, dims: Dimensions) -> Seq<char> {
    match dims {
        Some((w, _)) => " srcset=\""@ + escaped(dest) + " "@ + decimal(w as nat)
            + "w\" sizes=\"(max-width: 760px) 92vw, 55vw\""@,
        None => Seq::empty(),
    }
}

/// The `<img>` element of a figure.
pub open spec fn img_tag(dest: Seq<char>, title: Seq<char>, alt: Seq<char>, first: bool, dims: Dimensions) -> Seq<
    char,
> {
    "<img src=\""@ + escaped(dest) + "\" alt=\""@ + escaped(alt) + "\" title=\""@ + escaped(title) + "\" loading=\""@
        + (if first { "eager"@ } else { "lazy"@ }) + "\" decoding=\"async\""@ + size_attrs(dims) + srcset_attrs(
        dest,
        dims,
    ) + (if first { " fetchpriority=\"high\""@ } else { Seq::empty() }) + " />"@
}

/// The figure that replaces an image span.
pub open spec fn figure_html(
    dest: Seq<char>,
    title: Seq<char>,
    caption: Seq<EventV>,
    first: bool,
    dims: Dimensions,
) -> Seq<char> {
    "<figure class=\"image-container\">"@ + img_tag(dest, title, alt_text(caption), first, dims) + "<figcaption>"@
        + events_html(caption) + "</figcaption></figure>"@
}

fn alt_text_of(events: &Vec<Event>) -> (r: String)
    ensures
        r@ == alt_text(events_view(events@)),
{
    let ghost s = events_view(events@);
    let mut out = String::new();
    let mut i: usize = 0;
    assert(s.take(0) =~= Seq::<EventV>::empty());
    while i < events.len()
        invariant
            i <= events@.len(),
            s == events_view(events@),
            out@ == alt_text(s.take(i as int)),
        decreases events.len() - i,
    {
        assert(s.take(i + 1).drop_last() =~= s.take(i as int));
        assert(s.take(i + 1).last() == events@[i as int]@);
        match &events[i] {
            Event::Text(t) | Event::Code(t) => out.append(t.as_str()),
            _ => {
                assert(out@ =~= out@ + Seq::<char>::empty());
            },
        }
        i += 1;
    }
    assert(s.take(events.len() as int) =~= s);
    out
}

fn push_dims_attrs(h: &mut String, dest: &String, dims: Dimensions)
    ensures
        final(h)@ == old(h)@ + size_attrs(dims) + srcset_attrs(dest@, dims),
{
    let ghost h1 = h@;
    match dims {
        Some((w, hh)) => {
            h.append(" width=\"");
            push_decimal(h, w as usize);
            h.append("\" height=\"");
            push_decimal(h, hh as usize);
            h.append("\"");
            let ghost h2 = h@;
            assert(h2 =~= h1 + size_attrs(dims));
            h.append(" srcset=\"");
            push_escaped(h, dest.as_str());
            h.append(" ");
            push_decimal(h, w as usize);
            h.append("w\" sizes=\"(max-width: 760px) 92vw, 55vw\"");
            assert(h@ =~= h2 + srcset_attrs(dest@, dims));
        },
        None => {
            assert(h@ =~= h1 + size_attrs(dims) + srcset_attrs(dest@, dims));
        },
    }
}

fn push_img_tag(h: &mut String, dest: &String, title: &String, alt: &String, first: bool, dims: Dimensions)
    ensures
        final(h)@ == old(h)@ + img_tag(dest@, title@, alt@, first, dims),
{
    let ghost h0 = h@;
    h.append("<img src=\"");
    push_escaped(h, dest.as_str());
    h.append("\" alt=\"");
    push_escaped(h, alt.as_str());
    h.append("\" title=\"");
    push_escaped(h, title.as_str());
    h.append("\" loading=\"");
    if first {
        h.append("eager");
    } else {
        h.append("lazy");
    }
    h.append("\" decoding=\"async\"");
    let ghost h1 = h@;
    assert(h1 =~= h0 + "<img src=\""@ + escaped(dest@) + "\" alt=\""@ + escaped(alt@) + "\" title=\""@ + escaped(title@)
        + "\" loading=\""@ + (if first { "eager"@ } else { "lazy"@ }) + "\" decoding=\"async\""@);
    push_dims_attrs(h, dest, dims);
    let ghost h2 = h@;
    if first {
        h.append(" fetchpriority=\"high\"");
    }
    h.append(" />");
    assert(h@ =~= h2 + (if first { " fetchpriority=\"high\""@ } else { Seq::empty() }) + " />"@);
    assert(h@ =~= h0 + img_tag(dest@, title@, alt@, first, dims));
}

/// Renders the figure for one image span.
pub fn render_figure(dest: &String, title: &String, caption: &Vec<Event>, first: bool, dims: Dimensions) -> (r:
    String)
    ensures
        r@ == figure_html(dest@, title@, events_view(caption@), first, dims),
{
    let alt = alt_text_of(caption);
    let caption_html = render_html(caption);
    let mut h = String::from_str("<figure class=\"image-container\">");
    push_img_tag(&mut h, dest, title, &alt, first, dims);
    h.append("<figcaption>");
    h.append(caption_html.as_str());
    h.append("</figcaption></figure>");
    h
}

/// An image span being captured.
pub struct Capture {
    pub dest: Seq<char>,
    pub title: Seq<char>,
    pub nesting: nat,
    pub caption: Seq<EventV>,
    pub index: nat,
}

pub struct ImageState {
    pub cap: Option<Capture>,
    /// The source of each image met so far, in order.
    pub dests: Seq<Seq<char>>,
    pub count: nat,
    pub out: Seq<EventV>,
}

/// The probed size for the image numbered `k`, if any was given.
pub open spec fn dims_at(dims: Seq<Dimensions>, k: nat) -> Dimensions {
    if k < dims.len() {
        dims[k as int]
    } else {
        None
    }
}

pub open spec fn close_capture(dims: Seq<Dimensions>, c: Capture) -> EventV {
    EventV::Html(figure_html(c.dest, c.title, c.caption, c.index == 0, dims_at(dims, c.index)))
}

pub open spec fn image_step(dims: Seq<Dimensions>, st: ImageState, e: EventV) -> ImageState {
    match st.cap {
        None => match e {
            EventV::Start(TagV::Image { dest_url, title }) => ImageState {
                cap: Some(Capture { dest: dest_url, title, nesting: 0, caption: Seq::empty(), index: st.count }),
                dests: st.dests.push(dest_url),
                count: st.count + 1,
                ..st
            },
            _ => ImageState { out: st.out.push(e), ..st },
        },
        Some(c) => match e {
            EventV::End(TagEnd::Image) => if c.nesting == 0 {
                ImageState { cap: None, out: st.out.push(close_capture(dims, c)), ..st }
            } else {
                ImageState {
                    cap: Some(Capture { nesting: (c.nesting - 1) as nat, caption: c.caption.push(e), ..c }),
                    ..st
                }
            },
            EventV::Start(TagV::Image { .. }) => ImageState {
                cap: Some(Capture { nesting: c.nesting + 1, caption: c.caption.push(e), ..c }),
                ..st
            },
            _ => ImageState { cap: Some(Capture { caption: c.caption.push(e), ..c }), ..st },
        },
    }
}

pub open spec fn image_fold(dims: Seq<Dimensions>, s: Seq<EventV>) -> ImageState
    decreases s.len(),
{
    if s.len() == 0 {
        ImageState { cap: None, dests: Seq::empty(), count: 0, out: Seq::empty() }
    } else {
        image_step(dims, image_fold(dims, s.drop_last()), s.last())
    }
}

/// The document with each image span replaced by its figure, the `k`-th image
/// using the `k`-th probed size; an image left open at the end is closed there.
pub open spec fn image_captioned(s: Seq<EventV>, dims: Seq<Dimensions>) -> Seq<EventV> {
    let st = image_fold(dims, s);
    match st.cap {
        Some(c) => st.out.push(close_capture(dims, c)),
        None => st.out,
    }
}

/// Replaces each image span by a figure, given the probed size of each image in order.
pub fn caption_images_with(events: &Vec<Event>, dims: &Vec<Dimensions>) -> (r: Vec<Event>)
    ensures
        events_view(r@) == image_captioned(events_view(events@), dims@),
{
    let ghost s = events_view(events@);
    let mut out: Vec<Event> = Vec::new();
    let mut count: usize = 0;
    let mut capturing = false;
    let mut c_dest = String::new();
    let mut c_title = String::new();
    let mut c_nesting: usize = 0;
    let mut c_caption: Vec<Event> = Vec::new();
    let mut c_index: usize = 0;
    let ghost mut dests: Seq<Seq<char>> = Seq::empty();
    let mut i: usize = 0;
    assert(s.take(0) =~= Seq::<EventV>::empty());
    assert(events_view(out@) =~= Seq::<EventV>::empty());
    while i < events.len()
        invariant
            i <= events@.len(),
            s == events_view(events@),
            count <= i,
            c_nesting <= i,
            image_fold(dims@, s.take(i as int)) == (ImageState {
                cap: if capturing {
                    Some(
                        Capture {
                            dest: c_dest@,
                            title: c_title@,
                            nesting: c_nesting as nat,
                            caption: events_view(c_caption@),
                            index: c_index as nat,
                        },
                    )
                } else {
                    None
                },
                dests,
                count: count as nat,
                out: events_view(out@),
            }),
        decreases events.len() - i,
    {
        assert(s.take(i + 1).drop_last() =~= s.take(i as int));
        assert(s.take(i + 1).last() == events@[i as int]@);
        let ghost before = events_view(out@);
        let ghost cb = events_view(c_caption@);
        let ev = &events[i];
        if !capturing {
            match ev {
                Event::Start(Tag::Image { dest_url, title }) => {
                    capturing = true;
                    c_dest = dest_url.clone();
                    c_title = title.clone();
                    c_nesting = 0;
                    c_caption = Vec::new();
                    assert(events_view(c_caption@) =~= Seq::<EventV>::empty());
                    c_index = count;
                    count = count + 1;
                    proof {
                        dests = dests.push(dest_url@);
                    }
                },
                other => {
                    out.push(other.copy());
                    assert(events_view(out@) =~= before.push(other@));
                },
            }
        } else {
            match ev {
                Event::End(TagEnd::Image) => {
                    if c_nesting == 0 {
                        let d = if c_index < dims.len() { dims[c_index] } else { None };
                        let fig = render_figure(&c_dest, &c_title, &c_caption, c_index == 0, d);
                        out.push(Event::Html(fig));
                        assert(events_view(out@) =~= before.push(EventV::Html(figure_html(c_dest@, c_title@, cb, c_index == 0, d))));
                        capturing = false;
                    } else {
                        c_nesting = c_nesting - 1;
                        c_caption.push(ev.copy());
                        assert(events_view(c_caption@) =~= cb.push(ev@));
                    }
                },
                Event::Start(Tag::Image { .. }) => {
                    c_nesting = c_nesting + 1;
                    c_caption.push(ev.copy());
                    assert(events_view(c_caption@) =~= cb.push(ev@));
                },
                _ => {
                    c_caption.push(ev.copy());
                    assert(events_view(c_caption@) =~= cb.push(ev@));
                },
            }
        }
        i += 1;
    }
    assert(s.take(events.len() as int) =~= s);
    if capturing {
        let ghost before = events_view(out@);
        let d = if c_index < dims.len() { dims[c_index] } else { None };
        let fig = render_figure(&c_dest, &c_title, &c_caption, c_index == 0, d);
        out.push(Event::Html(fig));
        assert(events_view(out@) =~= before.push(EventV::Html(figure_html(c_dest@, c_title@, events_view(c_caption@), c_index == 0, d))));
    }
    out
}

/// Nesting depth of image tags and the sources of outermost images, in order.
pub open spec fn image_sources(s: Seq<EventV>) -> (nat, Seq<Seq<char>>)
    decreases s.len(),
{
    if s.len() == 0 {
        (0, Seq::empty())
    } else {
        let (d, ds) = image_sources(s.drop_last());
        match s.last() {
            EventV::Start(TagV::Image { dest_url, .. }) => (d + 1, if d == 0 { ds.push(dest_url) } else { ds }),
            EventV::End(TagEnd::Image) => (if d > 0 { (d - 1) as nat } else { 0 }, ds),
            _ => (d, ds),
        }
    }
}

/// The image sizes handed to the pass: one per outermost image, and none for a remote source.
pub open spec fn remote_unsized(s: Seq<EventV>, dims: Seq<Dimensions>) -> bool {
    &&& dims.len() == image_sources(s).1.len()
    &&& forall|k: int| 0 <= k < dims.len() && is_remote(#[trigger] image_sources(s).1[k]) ==> dims[k] is None
}

/// The pass meets images in the order of `image_sources`: the image being
/// captured is the last source met, and it is numbered by its position there,
/// which is the position of its size.
pub proof fn law_captures_follow_sources(dims: Seq<Dimensions>, s: Seq<EventV>)
    ensures
        image_fold(dims, s).dests == image_sources(s).1,
        image_fold(dims, s).count == image_sources(s).1.len(),
        image_fold(dims, s).cap is None <==> image_sources(s).0 == 0,
        image_fold(dims, s).cap matches Some(c) ==> c.nesting + 1 == image_sources(s).0 && c.index + 1
            == image_sources(s).1.len() && c.dest == image_sources(s).1[c.index as int],
    decreases s.len(),
{
    if s.len() > 0 {
        law_captures_follow_sources(dims, s.drop_last());
    }
}

/// Replaces each image span by a captioned figure, probing local image files
/// for their size; remote images get no size.
pub fn caption_images(events: Vec<Event>) -> (r: Vec<Event>)
    ensures
        exists|dims: Seq<Dimensions>|
            events_view(r@) == image_captioned(events_view(events@), dims) && remote_unsized(
                events_view(events@),
                dims,
            ),
{
    let ghost s = events_view(events@);
    let mut dims: Vec<Dimensions> = Vec::new();
    let mut i: usize = 0;
    let mut depth: usize = 0;
    assert(s.take(0) =~= Seq::<EventV>::empty());
    while i < events.len()
        invariant
            i <= events@.len(),
            s == events_view(events@),
            depth <= i,
            image_sources(s.take(i as int)).0 == depth,
            remote_unsized(s.take(i as int), dims@),
        decreases events.len() - i,
    {
        assert(s.take(i + 1).drop_last() =~= s.take(i as int));
        assert(s.take(i + 1).last() == events@[i as int]@);
        let ghost before = dims@;
        let ghost ds = image_sources(s.take(i as int)).1;
        match &events[i] {
            Event::Start(Tag::Image { dest_url, .. }) => {
                if depth == 0 {
                    dims.push(image_dimensions(dest_url.as_str()));
                    assert(image_sources(s.take(i + 1)).1 == ds.push(dest_url@));
                    assert forall|k: int| 0 <= k < dims@.len() && is_remote(
                        #[trigger] image_sources(s.take(i + 1)).1[k],
                    ) implies dims@[k] is None by {
                        if k < before.len() {
                            assert(image_sources(s.take(i + 1)).1[k] == ds[k]);
                        }
                    }
                }
                depth = depth + 1;
            },
            Event::End(TagEnd::Image) => {
                if depth > 0 {
                    depth = depth - 1;
                }
            },
            _ => {},
        }
        i += 1;
    }
    assert(s.take(events.len() as int) =~= s);
    caption_images_with(&events, &dims)
}

} // verus!

verus! {

/// The steps of the image pass over `q`, from state `st`.
pub open spec fn image_run(dims: Seq<Dimensions>, st: ImageState, q: Seq<EventV>) -> ImageState
    decreases q.len(),
{
    if q.len() == 0 {
        st
    } else {
        image_step(dims, image_run(dims, st, q.drop_last()), q.last())
    }
}

proof fn lemma_image_fold_concat(dims: Seq<Dimensions>, p: Seq<EventV>, q: Seq<EventV>)
    ensures
        image_fold(dims, p + q) == image_run(dims, image_fold(dims, p), q),
    decreases q.len(),
{
    if q.len() == 0 {
        assert(p + q =~= p);
    } else {
        assert((p + q).drop_last() =~= p + q.drop_last());
        assert((p + q).last() == q.last());
        lemma_image_fold_concat(dims, p, q.drop_last());
    }
}

pub open spec fn is_image_tag(e: EventV) -> bool {
    match e {
        EventV::Start(TagV::Image { .. }) => true,
        EventV::End(TagEnd::Image) => true,
        _ => false,
    }
}

proof fn lemma_image_run_caption(dims: Seq<Dimensions>, st: ImageState, c: Capture, q: Seq<EventV>)
    requires
        st.cap == Some(c),
        c.nesting == 0,
        forall|i: int| 0 <= i < q.len() ==> !is_image_tag(#[trigger] q[i]),
    ensures
        image_run(dims, st, q) == (ImageState { cap: Some(Capture { caption: c.caption + q, ..c }), ..st }),
    decreases q.len(),
{
    if q.len() == 0 {
        assert(c.caption + q =~= c.caption);
    } else {
        assert forall|i: int| 0 <= i < q.drop_last().len() implies !is_image_tag(#[trigger] q.drop_last()[i]) by {
            assert(q.drop_last()[i] == q[i]);
        }
        assert(!is_image_tag(q[q.len() - 1]));
        lemma_image_run_caption(dims, st, c, q.drop_last());
        assert(c.caption + q.drop_last() + seq![q.last()] =~= c.caption + q);
        assert(c.caption + q.drop_last() + seq![q.last()] =~= (c.caption + q.drop_last()).push(q.last()));
    }
}

/// Of two images in a document, the first is rendered eager with high priority
/// and the second lazy without a priority hint; each keeps its own caption.
pub proof fn law_first_image_eager_second_lazy(
    d1: Seq<char>,
    t1: Seq<char>,
    b1: Seq<EventV>,
    d2: Seq<char>,
    t2: Seq<char>,
    b2: Seq<EventV>,
    dims: Seq<Dimensions>,
)
    requires
        forall|i: int| 0 <= i < b1.len() ==> !is_image_tag(#[trigger] b1[i]),
        forall|i: int| 0 <= i < b2.len() ==> !is_image_tag(#[trigger] b2[i]),
    ensures
        image_captioned(
            seq![EventV::Start(TagV::Image { dest_url: d1, title: t1 })] + b1 + seq![EventV::End(TagEnd::Image)]
                + seq![EventV::Start(TagV::Image { dest_url: d2, title: t2 })] + b2 + seq![EventV::End(TagEnd::Image)],
            dims,
        ) == seq![
            EventV::Html(figure_html(d1, t1, b1, true, dims_at(dims, 0))),
            EventV::Html(figure_html(d2, t2, b2, false, dims_at(dims, 1))),
        ],
{
    let s1 = seq![EventV::Start(TagV::Image { dest_url: d1, title: t1 })];
    let e = seq![EventV::End(TagEnd::Image)];
    let s2 = seq![EventV::Start(TagV::Image { dest_url: d2, title: t2 })];
    let st0 = image_fold(dims, s1);
    assert(s1.drop_last() =~= Seq::<EventV>::empty());
    assert(s1.last() == EventV::Start(TagV::Image { dest_url: d1, title: t1 }));
    assert(image_fold(dims, s1.drop_last()) == ImageState {
        cap: None,
        dests: Seq::empty(),
        count: 0,
        out: Seq::empty(),
    });
    let c1 = Capture { dest: d1, title: t1, nesting: 0, caption: Seq::empty(), index: 0 };
    assert(st0 == ImageState { cap: Some(c1), dests: seq![d1], count: 1, out: Seq::empty() });
    lemma_image_fold_concat(dims, s1, b1);
    lemma_image_run_caption(dims, st0, c1, b1);
    assert(Seq::<EventV>::empty() + b1 =~= b1);
    let p1 = s1 + b1;
    lemma_image_fold_concat(dims, p1, e);
    assert(e.drop_last() =~= Seq::<EventV>::empty());
    assert(e.last() == EventV::End(TagEnd::Image));
    assert(image_run(dims, image_fold(dims, p1), e.drop_last()) == image_fold(dims, p1));
    let st1 = image_fold(dims, p1 + e);
    assert(st1.cap is None);
    assert(st1.out =~= seq![EventV::Html(figure_html(d1, t1, b1, true, dims_at(dims, 0)))]);
    lemma_image_fold_concat(dims, p1 + e, s2);
    assert(s2.drop_last() =~= Seq::<EventV>::empty());
    assert(s2.last() == EventV::Start(TagV::Image { dest_url: d2, title: t2 }));
    assert(image_run(dims, image_fold(dims, p1 + e), s2.drop_last()) == image_fold(dims, p1 + e));
    let st2 = image_fold(dims, p1 + e + s2);
    let c2 = Capture { dest: d2, title: t2, nesting: 0, caption: Seq::empty(), index: 1 };
    assert(st2.cap == Some(c2));
    lemma_image_fold_concat(dims, p1 + e + s2, b2);
    lemma_image_run_caption(dims, st2, c2, b2);
    assert(Seq::<EventV>::empty() + b2 =~= b2);
    lemma_image_fold_concat(dims, p1 + e + s2 + b2, e);
    assert(image_run(dims, image_fold(dims, p1 + e + s2 + b2), e.drop_last()) == image_fold(dims, p1 + e + s2 + b2));
    assert(p1 + e + s2 + b2 + e =~= s1 + b1 + e + s2 + b2 + e);
    assert(image_fold(dims, p1 + e + s2 + b2 + e).out =~= seq![
        EventV::Html(figure_html(d1, t1, b1, true, dims_at(dims, 0))),
        EventV::Html(figure_html(d2, t2, b2, false, dims_at(dims, 1))),
    ]);
}

} // verus!

verus! {

/// Every figure opens with its wrapper and an image whose source, alt text and
/// title are escaped, loading eagerly exactly when it is the first image; it
/// ends with a caption block holding the rendered caption; and only the first
/// image's tag carries the high fetch priority.
#[verifier::rlimit(40)]
pub proof fn law_figure_shape(
    dest: Seq<char>,
    title: Seq<char>,
    caption: Seq<EventV>,
    first: bool,
    dims: Dimensions,
)
    ensures
        ({
            let f = figure_html(dest, title, caption, first, dims);
            let head = "<figure class=\"image-container\">"@ + "<img src=\""@ + escaped(dest) + "\" alt=\""@ + escaped(
                alt_text(caption),
            ) + "\" title=\""@ + escaped(title) + "\" loading=\""@ + (if first { "eager"@ } else { "lazy"@ })
                + "\" decoding=\"async\""@;
            let tail = "<figcaption>"@ + events_html(caption) + "</figcaption></figure>"@;
            &&& f.subrange(0, head.len() as int) == head
            &&& f.subrange(f.len() - tail.len(), f.len() as int) == tail
        }),
        first ==> img_tag(dest, title, alt_text(caption), first, dims) == "<img src=\""@ + escaped(dest)
            + "\" alt=\""@ + escaped(alt_text(caption)) + "\" title=\""@ + escaped(title) + "\" loading=\""@
            + "eager"@ + "\" decoding=\"async\""@ + size_attrs(dims) + srcset_attrs(dest, dims)
            + " fetchpriority=\"high\""@ + " />"@,
        !first ==> img_tag(dest, title, alt_text(caption), first, dims) == "<img src=\""@ + escaped(dest)
            + "\" alt=\""@ + escaped(alt_text(caption)) + "\" title=\""@ + escaped(title) + "\" loading=\""@
            + "lazy"@ + "\" decoding=\"async\""@ + size_attrs(dims) + srcset_attrs(dest, dims) + " />"@,
{
    let alt = alt_text(caption);
    let lo = if first { "eager"@ } else { "lazy"@ };
    let pri = if first { " fetchpriority=\"high\""@ } else { Seq::empty() };
    let img_head = "<img src=\""@ + escaped(dest) + "\" alt=\""@ + escaped(alt) + "\" title=\""@ + escaped(title)
        + "\" loading=\""@ + lo + "\" decoding=\"async\""@;
    let mid = size_attrs(dims) + srcset_attrs(dest, dims) + pri + " />"@;
    let tag = img_tag(dest, title, alt, first, dims);
    assert(tag =~= img_head + mid);
    let open = "<figure class=\"image-container\">"@;
    let head = open + img_head;
    let tail = "<figcaption>"@ + events_html(caption) + "</figcaption></figure>"@;
    let f = figure_html(dest, title, caption, first, dims);
    assert(f == open + tag + tail);
    assert(open + tag + tail =~= head + mid + tail);
    lemma_prefix(head, mid + tail);
    assert(head + mid + tail =~= head + (mid + tail));
    lemma_suffix(head + mid, tail);
    if !first {
        assert(mid =~= size_attrs(dims) + srcset_attrs(dest, dims) + " />"@);
    }
}

proof fn lemma_prefix(a: Seq<char>, b: Seq<char>)
    ensures
        (a + b).subrange(0, a.len() as int) == a,
{
    assert((a + b).subrange(0, a.len() as int) =~= a);
}

proof fn lemma_suffix(a: Seq<char>, b: Seq<char>)
    ensures
        (a + b).subrange((a + b).len() - b.len(), (a + b).len() as int) == b,
{
    assert((a + b).subrange((a + b).len() - b.len(), (a + b).len() as int) =~= b);
}

} // verus!
