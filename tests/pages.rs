use ssg::watch::{after_build, on_watch_event, AfterBuild, BuildOutcome, WatchAction, WatchEvent};
use ssg::article::{articles_by_tag, render_listing_page, sort_articles, Article};
use ssg::types::{Href, IsoDate, RelPath, Tag};
use ssg::config::site_meta;
use ssg::front_matter::FrontMatter;
use ssg::header::{absolute_url, generic_og_meta, Header};
use ssg::templates::{listing_page, page_shell};

#[test]
fn site_meta_trims_base_url() {
    let m = site_meta();
    assert_eq!(m.base_url, "https://dysthesis.com");
    assert_eq!(m.default_image.as_deref(), Some("assets/social-default.png"));
}

#[test]
fn absolute_url_joins_or_keeps_remote() {
    assert_eq!(absolute_url("https://s.com/", "/img/a.png"), "https://s.com/img/a.png");
    assert_eq!(absolute_url("https://s.com", "http://o.org/x"), "http://o.org/x");
}

#[test]
fn header_renders_head_and_body_meta() {
    let h = Header {
        title: Some("A <T>".to_string()),
        ctime: Some("2024-01-02".to_string()),
        tags: Some(vec!["rust".to_string(), "bad tag".to_string(), "web".to_string()]),
        ..Header::default()
    };
    assert_eq!(
        h.to_html("../style.css", true, "k.css"),
        "\n<title>\nA &lt;T&gt;\n</title>\n<link rel=\"stylesheet\" href=\"k.css\">\n<link rel=\"stylesheet\" href=\"../style.css\">"
    );
    let body = h.generate_body_head("../");
    assert!(body.starts_with("<h1>A &lt;T&gt;</h1>\n<p class=\"meta\"><a href=\"../index.html\">Index</a></p>\n"));
    assert!(body.contains("Created: <time datetime=\"2024-01-02\">2024-01-02</time>"));
    assert!(body.contains("<a class=\"tag\" href=\"../tags/rust.html\">rust</a> <a class=\"tag\" href=\"../tags/web.html\">web</a>"));
    assert_eq!(h.tags().0.len(), 2);
    assert_eq!(h.ctime().map(|d| d.as_str()), Some("2024-01-02".to_string()));
}

#[test]
fn opengraph_prefers_specific_fields() {
    let h = Header {
        title: Some("OG Title".to_string()),
        description: Some("Short desc".to_string()),
        image: Some("images/pic.png".to_string()),
        ..Header::default()
    };
    let site = site_meta();
    let og = h.opengraph_meta("https://dysthesis.com/posts/post.html", &site);
    assert!(og.contains("<meta property=\"og:title\" content=\"OG Title\">"));
    assert!(og.contains("<meta property=\"og:type\" content=\"article\">"));
    assert!(og.contains("<meta property=\"og:image\" content=\"https://dysthesis.com/images/pic.png\">"));
    assert!(og.contains("<meta name=\"twitter:creator\" content=\"Dysthesis\">"));
    let g = generic_og_meta("Index", "All", "https://dysthesis.com/index.html", &site, None);
    assert!(g.contains("<meta property=\"og:type\" content=\"website\">"));
    assert!(g.contains("https://dysthesis.com/assets/social-default.png"));
}

#[test]
fn shells_place_fragments() {
    let p = page_shell("H", "F", "B", "<p>x</p>", "<footer/>");
    assert!(p.contains("H\nF\n</head>"));
    assert!(p.contains("B\n<p>x</p>\n</section>"));
    let l = listing_page("T", "Head", "body", "", "../");
    assert!(l.contains("<title>T</title>\n<link rel=\"stylesheet\" href=\"../style.css\">"));
    assert!(l.contains("<h1>Head</h1>\nbody\n"));
    let fm = FrontMatter { title: None, description: Some("d&".to_string()), tags: vec![] };
    assert_eq!(fm.to_html(), "<meta name=\"description\" content=\"d&amp;\"><link rel=\"stylesheet\" href=\"style.css\">");
}

#[test]
fn listing_groups_by_year() {
    let items = [("abc", 2025), ("Zeta9", 2025), ("old1", 1990), ("mid", 2001)];
    let mut articles = Vec::new();
    for (title, year) in items.iter() {
        let date = IsoDate::parse(&format!("{year:04}-01-01")).unwrap();
        articles.push(Article {
            title: title.to_string(),
            ctime: Some(date),
            updated: None,
            summary: None,
            href: Href::from_rel(&RelPath::new(format!("{title}.html")).unwrap()),
            tags: vec![],
        });
    }
    articles.sort_by(|a, b| b.ctime.cmp(&a.ctime));
    let body = render_listing_page("Page", "Heading", &articles, "", "");
    for a in &articles {
        let year_str = a.ctime.as_ref().unwrap().year().to_string();
        assert!(body.contains(&year_str));
        assert!(body.contains(&a.title));
    }
    assert_eq!(body.matches("<h2>2025</h2>").count(), 1);
    assert!(body.contains("<h2>1990</h2>"));
}

fn article(title: &str, date: Option<&str>, tags: &[&str]) -> Article {
    Article {
        title: title.to_string(),
        ctime: date.and_then(IsoDate::parse),
        updated: None,
        summary: None,
        href: Href::from_rel(&RelPath::new(format!("{title}.html")).unwrap()),
        tags: tags.iter().map(|t| Tag::parse(t).unwrap()).collect(),
    }
}

#[test]
fn articles_sort_newest_first_then_by_title() {
    let sorted = sort_articles(vec![
        article("older", Some("2024-01-01"), &[]),
        article("undated", None, &[]),
        article("b", Some("2025-05-05"), &[]),
        article("a", Some("2025-05-05"), &[]),
    ]);
    let titles: Vec<&str> = sorted.iter().map(|a| a.title.as_str()).collect();
    assert_eq!(titles, vec!["a", "b", "older", "undated"]);
}

#[test]
fn articles_group_by_tag_in_name_order() {
    let articles = vec![
        article("x", None, &["rust", "life"]),
        article("y", None, &["life"]),
        article("z", None, &["rust"]),
    ];
    let groups = articles_by_tag(&articles);
    let names: Vec<&str> = groups.iter().map(|(t, _)| t.as_str()).collect();
    assert_eq!(names, vec!["life", "rust"]);
    assert_eq!(groups[0].1, vec![0, 1]);
    assert_eq!(groups[1].1, vec![0, 2]);
}

#[test]
fn feed_entries_use_absolute_links_and_limit() {
    use_feed_entries();
}

fn use_feed_entries() {
    let mut many = Vec::new();
    for i in 0..60 {
        many.push(article(&format!("p{i}"), Some("2024-01-01"), &["rust"]));
    }
    let entries = ssg::feed::feed_entries(&many, "https://s.com/");
    assert_eq!(entries.len(), 50);
    assert_eq!(entries[0].url, "https://s.com/p0.html");
    assert_eq!(entries[0].updated, entries[0].published);
    assert_eq!(entries[3].tags[0].as_str(), "rust");
}

#[test]
fn watch_rebuilds_only_on_change_and_reloads_on_success() {
    assert_eq!(on_watch_event(WatchEvent::Access), WatchAction::Ignore);
    assert_eq!(on_watch_event(WatchEvent::Change), WatchAction::Rebuild);
    assert_eq!(on_watch_event(WatchEvent::Error), WatchAction::ReportError);
    assert_eq!(after_build(BuildOutcome::Succeeded), AfterBuild::Reload);
    assert_eq!(after_build(BuildOutcome::Failed), AfterBuild::ReportFailure);
}
