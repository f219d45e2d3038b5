use ssg::event::{CodeBlockKind, Event, HeadingLevel, Tag, TagEnd};
use ssg::transform::code_block::fallback_plain;
use ssg::transform::epigraph::process_epigraphs;
use ssg::transform::footnote::{convert_footnotes_to_plain_list, convert_footnotes_to_sidenotes};
use ssg::transform::heading::demote;
use ssg::transform::image::{caption_images_with, dims_from_probe, image_dimensions, probe_path};
use ssg::transform::pipeline::{
    CodeHighlightTransformer, EpigraphTransformer, FootnoteTransformer, HeadingDemoterTransformer,
    ImageCaptionTransformer, MathTransformer, TocTransformer, WithTransformer, transform_feed, transform_page,
};
use ssg::transform::toc::insert_toc_and_heading_ids;
use ssg::text::{escape_attr, slugify};

fn text(s: &str) -> Event {
    Event::Text(s.to_string())
}

fn heading(level: HeadingLevel) -> Event {
    Event::Start(Tag::Heading { level, id: None, classes: vec![] })
}

fn image(dest: &str, title: &str) -> Event {
    Event::Start(Tag::Image { dest_url: dest.to_string(), title: title.to_string() })
}

fn html_of(out: &[Event]) -> String {
    out.iter()
        .map(|e| match e {
            Event::Html(s) | Event::InlineHtml(s) | Event::Text(s) => s.clone(),
            _ => String::new(),
        })
        .collect()
}

#[test]
fn code_highlight_replaces_block() {
    for body in ["", "fn main() {}\n", "let x = 1 < 2 && \"a\" != 'b';", "multi\nline\n\ttext"] {
        let events = vec![
            Event::Start(Tag::CodeBlock(CodeBlockKind::Fenced("rs".to_string()))),
            text(body),
            Event::End(TagEnd::CodeBlock),
        ];
        let out = events.with_transformer::<CodeHighlightTransformer>();
        assert_eq!(out.len(), 1);
        assert!(matches!(out[0], Event::Html(_)));
    }
}

#[test]
fn code_block_labels_language_and_keeps_surroundings() {
    let events = vec![
        text("before"),
        Event::Start(Tag::CodeBlock(CodeBlockKind::Fenced("go".to_string()))),
        text("fmt.Println(\"hi\")"),
        Event::SoftBreak,
        Event::End(TagEnd::CodeBlock),
        text("after"),
    ];
    let out = events.with_transformer::<CodeHighlightTransformer>();
    assert_eq!(out.len(), 3);
    assert_eq!(out[0], text("before"));
    assert_eq!(out[2], text("after"));
    match &out[1] {
        Event::Html(h) => {
            assert!(h.starts_with("<pre class=\"code"));
            assert!(h.contains("language-go"));
            assert!(h.contains("Println"));
            assert!(h.ends_with("</code></pre>\n"));
        }
        _ => panic!("expected html"),
    }
}

#[test]
fn fallback_plain_escapes_source() {
    assert_eq!(
        fallback_plain("a<b", Some("rs")),
        "<pre class=\"code\"><code class=\"language-rs\">a&lt;b</code></pre>\n"
    );
    assert_eq!(
        fallback_plain("", Some("<x\"")),
        "<pre class=\"code\"><code class=\"language-&lt;x&quot;\"></code></pre>\n"
    );
    assert_eq!(fallback_plain("x & y", None), "<pre class=\"code\"><code>x &amp; y</code></pre>\n");
}

#[test]
fn epigraph_transformer_detects_final_attribution() {
    let events = vec![
        Event::Start(Tag::BlockQuote),
        Event::Start(Tag::Paragraph),
        text("This is the quote."),
        Event::End(TagEnd::Paragraph),
        Event::Start(Tag::Paragraph),
        text("\u{2014}Author"),
        Event::End(TagEnd::Paragraph),
        Event::End(TagEnd::BlockQuote),
    ];
    let out = events.with_transformer::<EpigraphTransformer>();
    let html = out
        .iter()
        .filter_map(|e| match e {
            Event::Html(h) | Event::InlineHtml(h) => Some(h.clone()),
            _ => None,
        })
        .collect::<String>();
    assert!(html.contains(r#"<div class="epigraph">"#));
    assert!(html.contains("<footer>Author</footer>"));
}

#[test]
fn epigraph_splits_quote_and_author_in_one_text() {
    let events = vec![
        Event::Start(Tag::BlockQuote),
        Event::Start(Tag::Paragraph),
        text("Quote text. \u{2014} Author"),
        Event::End(TagEnd::Paragraph),
        Event::End(TagEnd::BlockQuote),
    ];
    let out = process_epigraphs(events);
    assert_eq!(
        out,
        vec![
            Event::Html("<div class=\"epigraph\">".to_string()),
            Event::Start(Tag::BlockQuote),
            Event::Start(Tag::Paragraph),
            text("Quote text."),
            Event::End(TagEnd::Paragraph),
            Event::Html("<footer>Author</footer>".to_string()),
            Event::End(TagEnd::BlockQuote),
            Event::Html("</div>".to_string()),
        ]
    );
}

#[test]
fn epigraph_leaves_plain_quotes_and_escapes_footer() {
    let plain = vec![
        Event::Start(Tag::BlockQuote),
        Event::Start(Tag::Paragraph),
        text("No attribution here."),
        Event::End(TagEnd::Paragraph),
        Event::End(TagEnd::BlockQuote),
    ];
    assert_eq!(process_epigraphs(plain.clone()), plain);
    let dashed = vec![
        Event::Start(Tag::BlockQuote),
        text("Said -- <Someone>"),
        Event::End(TagEnd::BlockQuote),
    ];
    let out = process_epigraphs(dashed);
    assert!(out.contains(&Event::Html("<footer>&lt;Someone&gt;</footer>".to_string())));
    assert!(out.contains(&text("Said")));
}

#[test]
fn footnote_transformer_inlines_definition() {
    let events = vec![
        Event::FootnoteReference("a".to_string()),
        Event::Start(Tag::FootnoteDefinition("a".to_string())),
        Event::Start(Tag::Paragraph),
        text("hello"),
        Event::End(TagEnd::Paragraph),
        Event::End(TagEnd::FootnoteDefinition),
    ];
    let out = convert_footnotes_to_sidenotes(events);
    assert!(out.iter().any(|e| matches!(e, Event::InlineHtml(_))));
    assert!(!out.iter().any(|e| matches!(e, Event::FootnoteReference(_))));
    assert!(!out.iter().any(|e| matches!(e, Event::Start(Tag::FootnoteDefinition(_)))));
    assert_eq!(out.len(), 1);
    match &out[0] {
        Event::InlineHtml(h) => {
            assert!(h.contains("sn-1"));
            assert!(h.contains("<span class=\"sidenote\" data-sidenote=\"1\">hello</span>"));
        }
        _ => panic!("expected inline html"),
    }
}

#[test]
fn sidenote_for_unknown_label_is_empty() {
    let out = convert_footnotes_to_sidenotes(vec![text("x"), Event::FootnoteReference("nope".to_string())]);
    assert_eq!(out.len(), 2);
    match &out[1] {
        Event::InlineHtml(h) => assert!(h.ends_with("data-sidenote=\"1\"></span>")),
        _ => panic!("expected inline html"),
    }
}

#[test]
fn plain_transformer_renders_ordered_list() {
    let events = vec![
        text("see note"),
        Event::FootnoteReference("a".to_string()),
        Event::Start(Tag::FootnoteDefinition("a".to_string())),
        Event::Start(Tag::Paragraph),
        text("first footnote"),
        Event::End(TagEnd::Paragraph),
        Event::End(TagEnd::FootnoteDefinition),
    ];
    let out = convert_footnotes_to_plain_list(events);
    let joined = html_of(&out);
    assert!(joined.contains("footnotes"));
    assert!(joined.contains("<ol>"));
    assert!(joined.contains("first footnote"));
    assert!(joined.contains("fnref-1"));
    assert!(!joined.contains("margin-toggle"));
    assert!(joined.contains("<a href=\"#fnref-1\" class=\"footnote-backref\">"));
}

#[test]
fn plain_footnotes_number_by_first_reference() {
    let events = vec![
        Event::Start(Tag::FootnoteDefinition("a".to_string())),
        text("alpha"),
        Event::End(TagEnd::FootnoteDefinition),
        Event::FootnoteReference("b".to_string()),
        Event::FootnoteReference("a".to_string()),
        Event::FootnoteReference("b".to_string()),
    ];
    let out = convert_footnotes_to_plain_list(events);
    assert_eq!(out.len(), 4);
    assert!(html_of(&out[0..1]).contains("href=\"#fn-1\""));
    assert!(html_of(&out[1..2]).contains("href=\"#fn-2\""));
    assert!(html_of(&out[2..3]).contains("href=\"#fn-1\""));
    let list = html_of(&out[3..4]);
    assert!(list.contains("<li id=\"fn-2\">alpha <a href=\"#fnref-2\""));
    assert!(list.contains("<li id=\"fn-1\"> <a href=\"#fnref-1\""));
    assert!(convert_footnotes_to_plain_list(vec![text("none")]) == vec![text("none")]);
}

#[test]
fn heading_demoter_increments_level() {
    let cases = [
        (HeadingLevel::H1, HeadingLevel::H2),
        (HeadingLevel::H2, HeadingLevel::H3),
        (HeadingLevel::H3, HeadingLevel::H4),
        (HeadingLevel::H4, HeadingLevel::H5),
        (HeadingLevel::H5, HeadingLevel::H6),
        (HeadingLevel::H6, HeadingLevel::H6),
    ];
    for (level, expected) in cases {
        assert_eq!(demote(level), expected);
        let events = vec![heading(level), Event::End(TagEnd::Heading(level))];
        let out = events.with_transformer::<HeadingDemoterTransformer>();
        match (&out[0], &out[1]) {
            (Event::Start(Tag::Heading { level: s, .. }), Event::End(TagEnd::Heading(e))) => {
                assert_eq!(*s, expected);
                assert_eq!(*e, expected);
            }
            _ => panic!("unexpected events"),
        }
    }
}

#[test]
fn image_caption_wraps_in_html() {
    let cases = [
        ("https://example.com/a.png", "", "alt text"),
        ("http://x.io/p_q-r.jpg", "A \"title\"", "<b>&'"),
        ("https://h/1", "t", "a"),
    ];
    for (dest, title, alt) in cases {
        let events = vec![image(dest, title), text(alt), Event::End(TagEnd::Image)];
        let out = events.with_transformer::<ImageCaptionTransformer>();
        assert_eq!(out.len(), 1);
        match &out[0] {
            Event::Html(s) => {
                assert!(s.contains(r#"<figure class="image-container">"#));
                assert!(s.contains(&format!(r#"src="{}""#, escape_attr(dest))));
                assert!(s.contains(&format!(r#"alt="{}""#, escape_attr(alt))));
                assert!(s.contains(&format!(r#"title="{}""#, escape_attr(title))));
                assert!(s.contains("<figcaption>"));
                assert!(s.contains(r#"loading="eager""#));
                assert!(s.contains(r#"decoding="async""#));
                assert!(s.contains(r#"fetchpriority="high""#));
            }
            _ => panic!("expected Html event"),
        }
    }
}

#[test]
fn second_image_is_lazy_and_not_high_priority() {
    let events = vec![
        image("foo.jpg", ""),
        text("first"),
        Event::End(TagEnd::Image),
        image("bar.jpg", ""),
        text("second"),
        Event::End(TagEnd::Image),
    ];
    let out = events.with_transformer::<ImageCaptionTransformer>();
    assert_eq!(out.len(), 2);
    let second_html = match &out[1] {
        Event::Html(html) => html.clone(),
        _ => panic!("expected Html"),
    };
    assert!(second_html.contains(r#"loading="lazy""#));
    assert!(!second_html.contains(r#"fetchpriority="high""#));
}

#[test]
fn image_with_probed_size_gets_dimensions() {
    let events = vec![image("pic.png", "T"), text("cap"), Event::End(TagEnd::Image)];
    let out = caption_images_with(&events, &vec![Some((640, 480))]);
    assert_eq!(
        out,
        vec![Event::Html(
            "<figure class=\"image-container\"><img src=\"pic.png\" alt=\"cap\" title=\"T\" loading=\"eager\" decoding=\"async\" width=\"640\" height=\"480\" srcset=\"pic.png 640w\" sizes=\"(max-width: 760px) 92vw, 55vw\" fetchpriority=\"high\" /><figcaption>cap</figcaption></figure>"
                .to_string()
        )]
    );
}

#[test]
fn math_transformer_converts_math() {
    for math in ["x^2", "a + b", "(1/2)"] {
        let events = vec![Event::InlineMath(math.to_string()), Event::DisplayMath(math.to_string())];
        let out = events.with_transformer::<MathTransformer>();
        assert!(matches!(out[0], Event::InlineHtml(_)));
        assert!(matches!(out[1], Event::Html(_)));
    }
}

#[test]
fn toc_assigns_unique_ids() {
    let cases: Vec<Vec<&str>> = vec![
        vec!["Intro"],
        vec!["Same", "Same", "Same"],
        vec!["A b", "a B", "x", "A  b"],
        vec!["  ", "9 lives", "9 Lives "],
    ];
    for headings in cases {
        let mut events = Vec::new();
        for title in &headings {
            events.push(heading(HeadingLevel::H2));
            events.push(text(title));
            events.push(Event::End(TagEnd::Heading(HeadingLevel::H2)));
        }
        let out = insert_toc_and_heading_ids(events);
        let mut ids = Vec::new();
        for ev in &out {
            if let Event::Start(Tag::Heading { level: HeadingLevel::H2, id: Some(id), .. }) = ev {
                ids.push(id.clone());
            }
        }
        assert_eq!(ids.len(), headings.len());
        let mut seen = std::collections::HashSet::new();
        let mut counts: std::collections::HashMap<String, usize> = std::collections::HashMap::new();
        for (title, id) in headings.iter().zip(ids.iter()) {
            assert!(seen.insert(id.clone()), "duplicate id {}", id);
            let slug = slugify(title.trim());
            let entry = counts.entry(slug.clone()).or_insert(0);
            *entry += 1;
            let expected = if *entry == 1 { slug.clone() } else { format!("{slug}-{}", *entry) };
            assert_eq!(id, &expected);
        }
        assert!(matches!(out.first(), Some(Event::Html(_))));
    }
}

#[test]
fn toc_ids_skip_ids_already_given() {
    let mut events = Vec::new();
    for id in [Some("a"), Some("a"), Some("a-2"), None] {
        events.push(Event::Start(Tag::Heading { level: HeadingLevel::H2, id: id.map(|s| s.to_string()), classes: vec![] }));
        events.push(text("A"));
        events.push(Event::End(TagEnd::Heading(HeadingLevel::H2)));
    }
    let out = insert_toc_and_heading_ids(events);
    let ids: Vec<String> = out
        .iter()
        .filter_map(|e| match e {
            Event::Start(Tag::Heading { id: Some(id), .. }) => Some(id.clone()),
            _ => None,
        })
        .collect();
    assert_eq!(ids, vec!["a", "a-2", "a-2-2", "a-3"]);
    let titles = ["a", "a", "a 2"];
    let mut events = Vec::new();
    for t in titles {
        events.push(heading(HeadingLevel::H3));
        events.push(text(t));
        events.push(Event::End(TagEnd::Heading(HeadingLevel::H3)));
    }
    let out = insert_toc_and_heading_ids(events);
    let ids: Vec<String> = out
        .iter()
        .filter_map(|e| match e {
            Event::Start(Tag::Heading { id: Some(id), .. }) => Some(id.clone()),
            _ => None,
        })
        .collect();
    assert_eq!(ids, vec!["a", "a-2", "a-2-2"]);
}

#[test]
fn toc_numbers_nested_entries_and_omits_empty_table() {
    let events = vec![
        heading(HeadingLevel::H3),
        text("Lead"),
        Event::End(TagEnd::Heading(HeadingLevel::H3)),
        heading(HeadingLevel::H2),
        text("One"),
        Event::End(TagEnd::Heading(HeadingLevel::H2)),
        heading(HeadingLevel::H3),
        text("Sub"),
        Event::End(TagEnd::Heading(HeadingLevel::H3)),
    ];
    let out = events.with_transformer::<TocTransformer>();
    match &out[0] {
        Event::Html(h) => {
            assert!(h.contains("<span class=\"toc-num\">01</span><span class=\"toc-text\">Lead</span>"));
            assert!(h.contains("<span class=\"toc-num\">02</span><span class=\"toc-text\">One</span>"));
            assert!(h.contains("<ol class=\"toc-sub\"><li class=\"toc-l2\"><a href=\"#sub\"><span class=\"toc-num\">02.1</span>"));
        }
        _ => panic!("expected toc"),
    }
    let plain = vec![text("no headings"), heading(HeadingLevel::H4), Event::End(TagEnd::Heading(HeadingLevel::H4))];
    assert_eq!(insert_toc_and_heading_ids(plain.clone()), plain);
}

#[test]
fn pipeline_is_identity_on_plain_input() {
    let events = vec![
        Event::Start(Tag::Paragraph),
        text("Just "),
        Event::Start(Tag::Emphasis),
        text("words"),
        Event::End(TagEnd::Emphasis),
        Event::SoftBreak,
        Event::Code("x".to_string()),
        Event::End(TagEnd::Paragraph),
        Event::Html("<hr>".to_string()),
    ];
    assert_eq!(transform_page(events.clone()), events);
    assert_eq!(transform_feed(events.clone()), events);
}

#[test]
fn pipeline_removes_footnote_events() {
    let events = vec![
        Event::FootnoteReference("a".to_string()),
        Event::Start(Tag::FootnoteDefinition("a".to_string())),
        Event::Start(Tag::Paragraph),
        text("hello"),
        Event::End(TagEnd::Paragraph),
        Event::End(TagEnd::FootnoteDefinition),
    ];
    let out = events.clone().with_transformer::<FootnoteTransformer>();
    assert_eq!(out.len(), 1);
    assert!(matches!(out[0], Event::InlineHtml(_)));
    let page = transform_page(events);
    assert!(!page.iter().any(|e| matches!(
        e,
        Event::FootnoteReference(_) | Event::Start(Tag::FootnoteDefinition(_)) | Event::End(TagEnd::FootnoteDefinition)
    )));
}

#[test]
fn image_probe_paths_and_sizes() {
    assert_eq!(probe_path("//img/a.png"), "img/a.png");
    assert_eq!(probe_path("img/a.png"), "img/a.png");
    assert_eq!(dims_from_probe(Some((3, 4))), Some((3, 4)));
    assert_eq!(dims_from_probe(Some((usize::MAX, 4))), None);
    assert_eq!(dims_from_probe(None), None);
    assert_eq!(image_dimensions("https://example.com/a.png"), None);
    assert_eq!(image_dimensions("/no/such/file.png"), None);
}

#[test]
fn remote_image_gets_no_size_attributes() {
    let events = vec![image("https://example.com/a.png", ""), text("a"), Event::End(TagEnd::Image)];
    let out = events.with_transformer::<ImageCaptionTransformer>();
    match &out[0] {
        Event::Html(h) => {
            assert!(!h.contains("width="));
            assert!(!h.contains("srcset="));
        }
        _ => panic!("expected Html"),
    }
}

#[test]
fn code_block_amid_other_events_is_one_event() {
    let events = vec![
        text("a"),
        Event::Start(Tag::CodeBlock(CodeBlockKind::Indented)),
        text("x"),
        Event::End(TagEnd::CodeBlock),
        text("b"),
        Event::Start(Tag::CodeBlock(CodeBlockKind::Fenced("zz-unknown".to_string()))),
        Event::End(TagEnd::CodeBlock),
    ];
    let out = events.with_transformer::<CodeHighlightTransformer>();
    assert_eq!(out.len(), 4);
    assert!(matches!(out[1], Event::Html(_)));
    assert!(matches!(out[3], Event::Html(_)));
}
