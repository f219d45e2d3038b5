//! An article's front matter header and the head and body fragments made from it.
use vstd::prelude::*;
use crate::config::{SiteMeta, trim_slashes_end, trim_end_slashes};
use crate::event::opt_view;
use crate::text::{escaped, push_escaped, trim, chars_of, string_of};
use crate::transform::image::is_remote;
use crate::types::{IsoDate, Tag, Tags, date_text, parsed_date, valid_tag};

verus! {

/// Front matter of an article.
#[derive(Default, Debug)]
pub struct Header {
    pub title: Option<String>,
    pub subtitle: Option<String>,
    pub description: Option<String>,
    pub canonical: Option<String>,
    pub image: Option<String>,
    pub og_title: Option<String>,
    pub og_description: Option<String>,
    pub og_type: Option<String>,
    pub twitter_card: Option<String>,
    pub twitter_creator: Option<String>,
    pub ctime: Option<String>,
    pub mtime: Option<String>,
    pub tags: Option<Vec<String>>,
}

/// The date a front matter field holds, when it parses.
pub open spec fn date_field(f: Option<Seq<char>>) -> Option<(i32, u8, u8)> {
    match f {
        Some(s) => parsed_date(trim(s)),
        None => None,
    }
}

/// The valid tags among the raw ones, in order.
pub open spec fn valid_tags(v: Seq<Seq<char>>) -> Seq<Seq<char>>
    decreases v.len(),
{
    if v.len() == 0 {
        Seq::empty()
    } else if valid_tag(v.last()) {
        valid_tags(v.drop_last()).push(v.last())
    } else {
        valid_tags(v.drop_last())
    }
}

pub open spec fn tags_field(t: Option<Vec<String>>) -> Seq<Seq<char>> {
    match t {
        Some(v) => valid_tags(crate::event::strings_view(v@)),
        None => Seq::empty(),
    }
}

pub open spec fn tags_view(t: Tags) -> Seq<Seq<char>> {
    t.0@.map_values(|x: Tag| x@)
}

/// `parts` joined with `sep` between neighbours.
pub open spec fn join(sep: Seq<char>, parts: Seq<Seq<char>>) -> Seq<char>
    decreases parts.len(),
{
    if parts.len() == 0 {
        Seq::empty()
    } else if parts.len() == 1 {
        parts[0]
    } else {
        join(sep, parts.drop_last()) + sep + parts.last()
    }
}

pub open spec fn opt_or(a: Option<Seq<char>>, b: Seq<char>) -> Seq<char> {
    match a {
        Some(x) => x,
        None => b,
    }
}

pub open spec fn tag_link(prefix: Seq<char>, t: Seq<char>) -> Seq<char> {
    "<a class=\"tag\" href=\""@ + escaped(prefix + "tags/"@ + t + ".html"@) + "\">"@ + escaped(t) + "</a>"@
}

pub open spec fn tag_links(prefix: Seq<char>, tags: Seq<Seq<char>>) -> Seq<Seq<char>> {
    tags.map_values(|t: Seq<char>| tag_link(prefix, t))
}

pub open spec fn date_part(label: Seq<char>, d: Option<(i32, u8, u8)>) -> Seq<Seq<char>> {
    match d {
        Some((y, m, dd)) => seq![
            "<span class=\"meta-item\">"@ + label + ": <time datetime=\""@ + escaped(
                date_text(y as int, m as nat, dd as nat),
            ) + "\">"@ + escaped(date_text(y as int, m as nat, dd as nat)) + "</time></span>"@,
        ],
        None => Seq::empty(),
    }
}

/// The line of dates and tags under an article's title.
pub open spec fn body_meta_text(h: Header, prefix: Seq<char>) -> Seq<char> {
    let tags = tags_field(h.tags);
    if h.ctime is None && h.mtime is None && tags.len() == 0 {
        Seq::empty()
    } else {
        let parts = date_part("Created"@, date_field(opt_view(h.ctime))) + date_part(
            "Updated"@,
            date_field(opt_view(h.mtime)),
        ) + if tags.len() > 0 {
            seq!["<span class=\"meta-item\">Tags: "@ + join(" "@, tag_links(prefix, tags)) + "</span>"@]
        } else {
            Seq::empty()
        };
        "<p class=\"meta\">"@ + join("<span class=\"meta-sep\">·</span>"@, parts) + "</p>\n"@
    }
}

/// Head fragment of an article page.
pub open spec fn head_html(h: Header, css_href: Seq<char>, has_math: bool, katex_href: Seq<char>) -> Seq<char> {
    (match opt_view(h.canonical) {
        Some(c) => "\n<link rel=\"canonical\" href=\""@ + escaped(c) + "\">"@,
        None => Seq::empty(),
    }) + (match opt_view(h.title) {
        Some(t) => "\n<title>\n"@ + escaped(t) + "\n</title>"@,
        None => Seq::empty(),
    }) + (match opt_view(h.description) {
        Some(d) => "\n<meta name=\"description\" content=\""@ + escaped(d) + "\">"@,
        None => Seq::empty(),
    }) + (if has_math {
        "\n<link rel=\"stylesheet\" href=\""@ + katex_href + "\">"@
    } else {
        Seq::empty()
    }) + "\n<link rel=\"stylesheet\" href=\""@ + escaped(css_href) + "\">"@
}

/// Title block at the top of an article body.
pub open spec fn body_head_html(h: Header, prefix: Seq<char>) -> Seq<char> {
    (match opt_view(h.title) {
        Some(t) => "<h1>"@ + escaped(t) + "</h1>\n"@,
        None => Seq::empty(),
    }) + (match opt_view(h.subtitle) {
        Some(s) => "<p class=\"subtitle\">"@ + escaped(s) + "</p>\n"@,
        None => Seq::empty(),
    }) + "<p class=\"meta\"><a href=\""@ + escaped(prefix) + "index.html\">Index</a></p>\n"@ + body_meta_text(
        h,
        prefix,
    )
}

/// An address made absolute against the site's base, unless it already is.
pub open spec fn absolute_url_text(base: Seq<char>, path: Seq<char>) -> Seq<char> {
    if is_remote(path) {
        path
    } else {
        trim_slashes_end(base) + "/"@ + skip_slashes(path)
    }
}

pub open spec fn skip_slashes(s: Seq<char>) -> Seq<char>
    decreases s.len(),
{
    if s.len() > 0 && s[0] == '/' {
        skip_slashes(s.drop_first())
    } else {
        s
    }
}

pub open spec fn meta_property(name: Seq<char>, value: Seq<char>) -> Seq<char> {
    "\n<meta property=\""@ + name + "\" content=\""@ + escaped(value) + "\">"@
}

pub open spec fn meta_name(name: Seq<char>, value: Seq<char>) -> Seq<char> {
    "\n<meta name=\""@ + name + "\" content=\""@ + escaped(value) + "\">"@
}

/// OpenGraph and Twitter card tags.
pub open spec fn social_meta_text(
    title: Seq<char>,
    description: Seq<char>,
    url: Seq<char>,
    og_type: Seq<char>,
    twitter_card: Seq<char>,
    creator: Option<Seq<char>>,
    image: Option<Seq<char>>,
) -> Seq<char> {
    meta_property("og:title"@, title) + meta_property("og:description"@, description) + meta_property(
        "og:type"@,
        og_type,
    ) + meta_property("og:url"@, url) + (match image {
        Some(i) => meta_property("og:image"@, i) + meta_name("twitter:image"@, i),
        None => Seq::empty(),
    }) + meta_name("twitter:card"@, twitter_card) + meta_name("twitter:title"@, title) + meta_name(
        "twitter:description"@,
        description,
    ) + (match creator {
        Some(c) => meta_name("twitter:creator"@, c),
        None => Seq::empty(),
    }) + "\n<link rel=\"canonical\" href=\""@ + escaped(url) + "\">"@
}

pub open spec fn image_url_of(img: Option<Seq<char>>, base: Seq<char>) -> Option<Seq<char>> {
    match img {
        Some(i) => Some(absolute_url_text(base, i)),
        None => None,
    }
}

pub open spec fn first_of(a: Option<Seq<char>>, b: Option<Seq<char>>) -> Option<Seq<char>> {
    match a {
        Some(x) => Some(x),
        None => b,
    }
}

fn push_meta_property(out: &mut String, name: &str, value: &str)
    ensures
        final(out)@ == old(out)@ + meta_property(name@, value@),
{
    let ghost o = out@;
    out.append("\n<meta property=\"");
    out.append(name);
    out.append("\" content=\"");
    push_escaped(out, value);
    out.append("\">");
    assert(out@ =~= o + meta_property(name@, value@));
}

fn push_meta_name(out: &mut String, name: &str, value: &str)
    ensures
        final(out)@ == old(out)@ + meta_name(name@, value@),
{
    let ghost o = out@;
    out.append("\n<meta name=\"");
    out.append(name);
    out.append("\" content=\"");
    push_escaped(out, value);
    out.append("\">");
    assert(out@ =~= o + meta_name(name@, value@));
}

pub open spec fn opt_str_view(o: Option<&str>) -> Option<Seq<char>> {
    match o {
        Some(s) => Some(s@),
        None => None,
    }
}

/// Renders OpenGraph and Twitter card tags.
pub fn render_social_meta(
    title: &str,
    description: &str,
    url: &str,
    og_type: &str,
    twitter_card: &str,
    twitter_creator: Option<&str>,
    image_url: Option<&str>,
) -> (r: String)
    ensures
        r@ == social_meta_text(
            title@,
            description@,
            url@,
            og_type@,
            twitter_card@,
            opt_str_view(twitter_creator),
            opt_str_view(image_url),
        ),
{
    let mut out = String::new();
    push_meta_property(&mut out, "og:title", title);
    push_meta_property(&mut out, "og:description", description);
    push_meta_property(&mut out, "og:type", og_type);
    push_meta_property(&mut out, "og:url", url);
    match image_url {
        Some(img) => {
            push_meta_property(&mut out, "og:image", img);
            push_meta_name(&mut out, "twitter:image", img);
        },
        None => {},
    }
    push_meta_name(&mut out, "twitter:card", twitter_card);
    push_meta_name(&mut out, "twitter:title", title);
    push_meta_name(&mut out, "twitter:description", description);
    match twitter_creator {
        Some(cr) => push_meta_name(&mut out, "twitter:creator", cr),
        None => {},
    }
    out.append("\n<link rel=\"canonical\" href=\"");
    push_escaped(&mut out, url);
    out.append("\">");
    assert(out@ =~= social_meta_text(
        title@,
        description@,
        url@,
        og_type@,
        twitter_card@,
        opt_str_view(twitter_creator),
        opt_str_view(image_url),
    ));
    out
}

/// Makes an address absolute against the site's base, unless it already is.
pub fn absolute_url(base: &str, path: &str) -> (r: String)
    ensures
        r@ == absolute_url_text(base@, path@),
{
    let cs = chars_of(path);
    proof {
        reveal_strlit("http://");
        reveal_strlit("https://");
    }
    let remote = starts_with_chars(&cs, "http://") || starts_with_chars(&cs, "https://");
    if remote {
        return String::from_str(path);
    }
    let mut out = trim_end_slashes(base);
    out.append("/");
    let mut k: usize = 0;
    assert(cs@.subrange(0, cs@.len() as int) =~= cs@);
    while k < cs.len() && cs[k] == '/'
        invariant
            k <= cs@.len(),
            cs@ == path@,
            skip_slashes(cs@.subrange(k as int, cs@.len() as int)) == skip_slashes(path@),
        decreases cs.len() - k,
    {
        assert(cs@.subrange(k as int, cs@.len() as int).drop_first() =~= cs@.subrange(k + 1, cs@.len() as int));
        k += 1;
    }
    let ghost o = out@;
    let mut rest: Vec<char> = Vec::new();
    let mut j = k;
    while j < cs.len()
        invariant
            k <= j <= cs@.len(),
            rest@ == cs@.subrange(k as int, j as int),
        decreases cs.len() - j,
    {
        rest.push(cs[j]);
        j += 1;
        assert(rest@ =~= cs@.subrange(k as int, j as int));
    }
    let tail = string_of(&rest);
    out.append(tail.as_str());
    proof {
        if path@.len() > 0 && k < cs@.len() {
            assert(cs@.subrange(k as int, cs@.len() as int)[0] == cs@[k as int]);
        }
    }
    assert(skip_slashes(cs@.subrange(k as int, cs@.len() as int)) == cs@.subrange(k as int, cs@.len() as int));
    out
}

fn starts_with_chars(s: &Vec<char>, p: &str) -> (r: bool)
    ensures
        r == (s@.len() >= p@.len() && s@.subrange(0, p@.len() as int) == p@),
{
    let ps = chars_of(p);
    if s.len() < ps.len() {
        return false;
    }
    let mut k: usize = 0;
    while k < ps.len()
        invariant
            k <= ps@.len() <= s@.len(),
            ps@ == p@,
            forall|m: int| 0 <= m < k ==> s@[m] == ps@[m],
        decreases ps.len() - k,
    {
        if s[k] != ps[k] {
            assert(s@.subrange(0, ps@.len() as int)[k as int] != ps@[k as int]);
            return false;
        }
        k += 1;
    }
    assert(s@.subrange(0, ps@.len() as int) =~= ps@);
    true
}

/// OpenGraph and Twitter card tags for a page that is not an article.
pub fn generic_og_meta(
    page_title: &str,
    page_description: &str,
    page_url: &str,
    site: &SiteMeta,
    image_override: Option<&str>,
) -> (r: String)
    ensures
        r@ == social_meta_text(
            page_title@,
            page_description@,
            page_url@,
            "website"@,
            "summary_large_image"@,
            Some(site.author@),
            image_url_of(first_of(opt_str_view(image_override), opt_view(site.default_image)), site.base_url@),
        ),
{
    let image_url: Option<String> = match image_override {
        Some(i) => Some(absolute_url(site.base_url.as_str(), i)),
        None => match &site.default_image {
            Some(i) => Some(absolute_url(site.base_url.as_str(), i.as_str())),
            None => None,
        },
    };
    match &image_url {
        Some(u) => render_social_meta(
            page_title,
            page_description,
            page_url,
            "website",
            "summary_large_image",
            Some(site.author.as_str()),
            Some(u.as_str()),
        ),
        None => render_social_meta(
            page_title,
            page_description,
            page_url,
            "website",
            "summary_large_image",
            Some(site.author.as_str()),
            None,
        ),
    }
}

fn push_opt_escaped(out: &mut String, pre: &str, o: &Option<String>, post: &str)
    ensures
        final(out)@ == old(out)@ + match opt_view(*o) {
            Some(x) => pre@ + escaped(x) + post@,
            None => Seq::empty(),
        },
{
    let ghost b = out@;
    match o {
        Some(x) => {
            out.append(pre);
            push_escaped(out, x.as_str());
            out.append(post);
            assert(out@ =~= b + (pre@ + escaped(x@) + post@));
        },
        None => {
            assert(out@ =~= b + Seq::<char>::empty());
        },
    }
}

fn opt_as_str(o: &Option<String>) -> (r: Option<&str>)
    ensures
        opt_str_view(r) == opt_view(*o),
{
    match o {
        Some(s) => Some(s.as_str()),
        None => None,
    }
}

fn join_into(out: &mut String, sep: &str, parts: &Vec<String>)
    ensures
        final(out)@ == old(out)@ + join(sep@, crate::event::strings_view(parts@)),
{
    let ghost o = out@;
    let ghost v = crate::event::strings_view(parts@);
    let mut k: usize = 0;
    assert(v.take(0) =~= Seq::<Seq<char>>::empty());
    while k < parts.len()
        invariant
            k <= parts@.len(),
            v == crate::event::strings_view(parts@),
            out@ == o + join(sep@, v.take(k as int)),
        decreases parts.len() - k,
    {
        assert(v.take(k + 1).drop_last() =~= v.take(k as int));
        assert(v.take(k + 1).last() == parts@[k as int]@);
        if k > 0 {
            out.append(sep);
        } else {
            assert(v.take(1) =~= seq![v[0]]);
        }
        out.append(parts[k].as_str());
        k += 1;
        assert(out@ =~= o + join(sep@, v.take(k as int)));
    }
    assert(v.take(parts.len() as int) =~= v);
}

impl Header {
    pub fn ctime(&self) -> (r: Option<IsoDate>)
        ensures
            r == match date_field(opt_view(self.ctime)) {
                Some((y, m, d)) => Some(IsoDate { year: y, month: m, day: d }),
                None => None,
            },
            r matches Some(d) ==> -9999 <= d.year <= 9999,
    {
        match &self.ctime {
            Some(s) => IsoDate::parse(s.as_str()),
            None => None,
        }
    }

    pub fn mtime(&self) -> (r: Option<IsoDate>)
        ensures
            r == match date_field(opt_view(self.mtime)) {
                Some((y, m, d)) => Some(IsoDate { year: y, month: m, day: d }),
                None => None,
            },
            r matches Some(d) ==> -9999 <= d.year <= 9999,
    {
        match &self.mtime {
            Some(s) => IsoDate::parse(s.as_str()),
            None => None,
        }
    }

    pub fn description(&self) -> (r: Option<&str>)
        ensures
            opt_str_view(r) == opt_view(self.description),
    {
        opt_as_str(&self.description)
    }

    pub fn title(&self) -> (r: Option<&str>)
        ensures
            opt_str_view(r) == opt_view(self.title),
    {
        opt_as_str(&self.title)
    }

    /// The valid tags of the header, in order; invalid ones are dropped.
    pub fn tags(&self) -> (r: Tags)
        ensures
            tags_view(r) == tags_field(self.tags),
    {
        let mut out: Vec<Tag> = Vec::new();
        match &self.tags {
            Some(raw) => {
                let ghost v = crate::event::strings_view(raw@);
                let mut k: usize = 0;
                assert(v.take(0) =~= Seq::<Seq<char>>::empty());
                assert(out@.map_values(|x: Tag| x@) =~= Seq::<Seq<char>>::empty());
                while k < raw.len()
                    invariant
                        k <= raw@.len(),
                        v == crate::event::strings_view(raw@),
                        out@.map_values(|x: Tag| x@) == valid_tags(v.take(k as int)),
                    decreases raw.len() - k,
                {
                    assert(v.take(k + 1).drop_last() =~= v.take(k as int));
                    assert(v.take(k + 1).last() == raw@[k as int]@);
                    let ghost before = out@.map_values(|x: Tag| x@);
                    match Tag::parse(raw[k].as_str()) {
                        Some(t) => {
                            out.push(t);
                            assert(out@.map_values(|x: Tag| x@) =~= before.push(raw@[k as int]@));
                        },
                        None => {},
                    }
                    k += 1;
                }
                assert(v.take(raw.len() as int) =~= v);
            },
            None => {
                assert(out@.map_values(|x: Tag| x@) =~= Seq::<Seq<char>>::empty());
            },
        }
        Tags::new(out)
    }

    /// The head fragment of the article page.
    pub fn to_html(&self, css_href: &str, has_math: bool, katex_href: &str) -> (r: String)
        ensures
            r@ == head_html(*self, css_href@, has_math, katex_href@),
    {
        let mut result = String::new();
        push_opt_escaped(&mut result, "\n<link rel=\"canonical\" href=\"", &self.canonical, "\">");
        push_opt_escaped(&mut result, "\n<title>\n", &self.title, "\n</title>");
        push_opt_escaped(&mut result, "\n<meta name=\"description\" content=\"", &self.description, "\">");
        let ghost c = result@;
        if has_math {
            result.append("\n<link rel=\"stylesheet\" href=\"");
            result.append(katex_href);
            result.append("\">");
        }
        assert(result@ =~= c + (if has_math {
            "\n<link rel=\"stylesheet\" href=\""@ + katex_href@ + "\">"@
        } else {
            Seq::empty()
        }));
        let ghost d = result@;
        result.append("\n<link rel=\"stylesheet\" href=\"");
        push_escaped(&mut result, css_href);
        result.append("\">");
        assert(result@ =~= d + "\n<link rel=\"stylesheet\" href=\""@ + escaped(css_href@) + "\">"@);
        result
    }

    /// OpenGraph and Twitter card tags of the article page.
    pub fn opengraph_meta(&self, page_url: &str, site: &SiteMeta) -> (r: String)
        ensures
            r@ == social_meta_text(
                opt_or(first_of(opt_view(self.og_title), opt_view(self.title)), site.title@),
                opt_or(first_of(opt_view(self.og_description), opt_view(self.description)), site.description@),
                opt_or(opt_view(self.canonical), page_url@),
                opt_or(opt_view(self.og_type), "article"@),
                opt_or(opt_view(self.twitter_card), "summary_large_image"@),
                Some(opt_or(opt_view(self.twitter_creator), site.author@)),
                image_url_of(first_of(opt_view(self.image), opt_view(site.default_image)), site.base_url@),
            ),
    {
        let title = match &self.og_title {
            Some(t) => t.as_str(),
            None => match &self.title {
                Some(t) => t.as_str(),
                None => site.title.as_str(),
            },
        };
        let description = match &self.og_description {
            Some(t) => t.as_str(),
            None => match &self.description {
                Some(t) => t.as_str(),
                None => site.description.as_str(),
            },
        };
        let url = match &self.canonical {
            Some(t) => t.as_str(),
            None => page_url,
        };
        let og_type = match &self.og_type {
            Some(t) => t.as_str(),
            None => "article",
        };
        let twitter_card = match &self.twitter_card {
            Some(t) => t.as_str(),
            None => "summary_large_image",
        };
        let creator = match &self.twitter_creator {
            Some(t) => t.as_str(),
            None => site.author.as_str(),
        };
        let image_url: Option<String> = match &self.image {
            Some(i) => Some(absolute_url(site.base_url.as_str(), i.as_str())),
            None => match &site.default_image {
                Some(i) => Some(absolute_url(site.base_url.as_str(), i.as_str())),
                None => None,
            },
        };
        match &image_url {
            Some(u) => render_social_meta(title, description, url, og_type, twitter_card, Some(creator), Some(u.as_str())),
            None => render_social_meta(title, description, url, og_type, twitter_card, Some(creator), None),
        }
    }

    /// The title block at the top of the article body.
    pub fn generate_body_head(&self, href_prefix: &str) -> (r: String)
        ensures
            r@ == body_head_html(*self, href_prefix@),
    {
        let mut result = String::new();
        match &self.title {
            Some(t) => {
                result.append("<h1>");
                push_escaped(&mut result, t.as_str());
                result.append("</h1>\n");
            },
            None => {},
        }
        match &self.subtitle {
            Some(s) => {
                result.append("<p class=\"subtitle\">");
                push_escaped(&mut result, s.as_str());
                result.append("</p>\n");
            },
            None => {},
        }
        result.append("<p class=\"meta\"><a href=\"");
        push_escaped(&mut result, href_prefix);
        result.append("index.html\">Index</a></p>\n");
        let meta = self.render_body_meta(href_prefix);
        result.append(meta.as_str());
        assert(result@ =~= body_head_html(*self, href_prefix@));
        result
    }

    fn date_item(label: &str, d: Option<IsoDate>, parts: &mut Vec<String>)
        ensures
            crate::event::strings_view(final(parts)@) == crate::event::strings_view(old(parts)@) + date_part(
                label@,
                match d {
                    Some(x) => Some((x.year, x.month, x.day)),
                    None => None,
                },
            ),
    {
        let ghost before = crate::event::strings_view(parts@);
        match d {
            Some(x) => {
                let text = x.as_str();
                let mut p = String::from_str("<span class=\"meta-item\">");
                p.append(label);
                p.append(": <time datetime=\"");
                push_escaped(&mut p, text.as_str());
                p.append("\">");
                push_escaped(&mut p, text.as_str());
                p.append("</time></span>");
                parts.push(p);
                assert(crate::event::strings_view(parts@) =~= before + date_part(
                    label@,
                    Some((x.year, x.month, x.day)),
                ));
            },
            None => {
                assert(crate::event::strings_view(parts@) =~= before + Seq::<Seq<char>>::empty());
            },
        }
    }

    fn render_body_meta(&self, href_prefix: &str) -> (r: String)
        ensures
            r@ == body_meta_text(*self, href_prefix@),
    {
        let tags = self.tags();
        assert(tags_view(tags).len() == tags.0@.len());
        if self.ctime.is_none() && self.mtime.is_none() && tags.is_empty() {
            return String::new();
        }
        let mut parts: Vec<String> = Vec::new();
        assert(crate::event::strings_view(parts@) =~= Seq::<Seq<char>>::empty());
        let cd = self.ctime();
        let md = self.mtime();
        assert(match cd {
            Some(x) => Some((x.year, x.month, x.day)),
            None => None,
        } == date_field(opt_view(self.ctime)));
        assert(match md {
            Some(x) => Some((x.year, x.month, x.day)),
            None => None,
        } == date_field(opt_view(self.mtime)));
        Self::date_item("Created", cd, &mut parts);
        Self::date_item("Updated", md, &mut parts);
        let ghost pv = crate::event::strings_view(parts@);
        let ghost tv = tags_view(tags);
        if !tags.is_empty() {
            let mut links: Vec<String> = Vec::new();
            let mut k: usize = 0;
            while k < tags.0.len()
                invariant
                    k <= tags.0@.len(),
                    tv == tags_view(tags),
                    crate::event::strings_view(links@) == tag_links(href_prefix@, tv.take(k as int)),
                    links@.len() == k,
                    tv.len() == tags.0@.len(),
                decreases tags.0.len() - k,
            {
                let t = tags.0[k].as_str();
                let mut href = String::from_str(href_prefix);
                href.append("tags/");
                href.append(t);
                href.append(".html");
                let mut l = String::from_str("<a class=\"tag\" href=\"");
                push_escaped(&mut l, href.as_str());
                l.append("\">");
                push_escaped(&mut l, t);
                l.append("</a>");
                let ghost lb = crate::event::strings_view(links@);
                links.push(l);
                k += 1;
                assert(tv[k - 1] == tags.0@[k - 1]@);
                assert(l@ == tag_link(href_prefix@, tv[k - 1]));
                assert(crate::event::strings_view(links@) =~= lb.push(l@));
                assert(tv.take(k as int) =~= tv.take(k - 1).push(tv[k - 1]));
                assert(tag_links(href_prefix@, tv.take(k as int)) =~= tag_links(href_prefix@, tv.take(k - 1)).push(
                    tag_link(href_prefix@, tv[k - 1]),
                ));
            }
            assert(tv.take(tags.0.len() as int) =~= tv);
            let mut p = String::from_str("<span class=\"meta-item\">Tags: ");
            join_into(&mut p, " ", &links);
            p.append("</span>");
            parts.push(p);
            assert(crate::event::strings_view(parts@) =~= pv.push(
                "<span class=\"meta-item\">Tags: "@ + join(" "@, tag_links(href_prefix@, tv)) + "</span>"@,
            ));
        } else {
            assert(pv + Seq::<Seq<char>>::empty() =~= pv);
        }
        let ghost tail: Seq<Seq<char>> = if tv.len() > 0 {
            seq!["<span class=\"meta-item\">Tags: "@ + join(" "@, tag_links(href_prefix@, tv)) + "</span>"@]
        } else {
            Seq::empty()
        };
        assert(crate::event::strings_view(parts@) == date_part("Created"@, date_field(opt_view(self.ctime)))
            + date_part("Updated"@, date_field(opt_view(self.mtime))) + tail);
        let mut out = String::from_str("<p class=\"meta\">");
        join_into(&mut out, "<span class=\"meta-sep\">·</span>", &parts);
        out.append("</p>\n");
        out
    }
}

} // verus!
