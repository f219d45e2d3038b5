//! Article summaries and the listing pages made from them.
use vstd::prelude::*;
use crate::markup::{decimal, push_decimal};
use crate::templates::{listing_page, listing_page_text};
use crate::text::{escaped, push_escaped};
use crate::types::{Href, IsoDate, Tag, date_text};

verus! {

/// What a listing, a tag page or a feed needs to know of an article.
#[derive(Clone, Debug)]
pub struct Article {
    pub title: String,
    pub ctime: Option<IsoDate>,
    pub updated: Option<IsoDate>,
    pub summary: Option<String>,
    pub href: Href,
    pub tags: Vec<Tag>,
}

/// The decimal text of an integer, with a sign when negative.
pub open spec fn int_text(y: int) -> Seq<char> {
    if y < 0 {
        seq!['-'] + decimal((-y) as nat)
    } else {
        decimal(y as nat)
    }
}

pub open spec fn year_of(a: Article) -> Option<i32> {
    match a.ctime {
        Some(d) => Some(d.year),
        None => None,
    }
}

/// One line of a listing: the creation date, if any, and the link to the article.
pub open spec fn listing_line(a: Article, prefix: Seq<char>) -> Seq<char> {
    "<p class=\"meta\">"@ + (match a.ctime {
        Some(d) => {
            let t = date_text(d.year as int, d.month as nat, d.day as nat);
            " <time datetime=\""@ + escaped(t) + "\">"@ + escaped(t) + "</time><span class=\"meta-sep\">·</span>"@
        },
        None => Seq::empty(),
    }) + "<a href=\""@ + escaped(prefix + a.href@) + "\">"@ + escaped(a.title@) + "</a></p>\n"@
}

pub struct ListingState {
    pub year: Option<i32>,
    pub body: Seq<char>,
}

/// A year heading starts each run of articles created in the same year.
pub open spec fn listing_step(st: ListingState, a: Article, prefix: Seq<char>) -> ListingState {
    let y = year_of(a);
    let (year, head) = if y != st.year {
        match y {
            Some(v) => (y, "<h2>"@ + escaped(int_text(v as int)) + "</h2>\n"@),
            None => (None::<i32>, Seq::<char>::empty()),
        }
    } else {
        (st.year, Seq::<char>::empty())
    };
    ListingState { year, body: st.body + head + listing_line(a, prefix) }
}

pub open spec fn listing_fold(articles: Seq<Article>, prefix: Seq<char>) -> ListingState
    decreases articles.len(),
{
    if articles.len() == 0 {
        ListingState { year: None, body: Seq::empty() }
    } else {
        listing_step(listing_fold(articles.drop_last(), prefix), articles.last(), prefix)
    }
}

fn push_int(out: &mut String, y: i32)
    ensures
        final(out)@ == old(out)@ + int_text(y as int),
{
    if y < 0 {
        crate::text::push_char(out, '-');
        push_decimal(out, (0 - (y as i64)) as usize);
    } else {
        push_decimal(out, y as usize);
    }
    assert(final(out)@ =~= old(out)@ + int_text(y as int));
}

fn push_line(body: &mut String, a: &Article, href_prefix: &str)
    ensures
        final(body)@ == old(body)@ + listing_line(*a, href_prefix@),
{
    let ghost o = body@;
    body.append("<p class=\"meta\">");
    match &a.ctime {
        Some(d) => {
            let t = d.as_str();
            body.append(" <time datetime=\"");
            push_escaped(body, t.as_str());
            body.append("\">");
            push_escaped(body, t.as_str());
            body.append("</time><span class=\"meta-sep\">·</span>");
        },
        None => {},
    }
    let mut full = String::from_str(href_prefix);
    full.append(a.href.as_str());
    body.append("<a href=\"");
    push_escaped(body, full.as_str());
    body.append("\">");
    push_escaped(body, a.title.as_str());
    body.append("</a></p>\n");
    assert(body@ =~= o + listing_line(*a, href_prefix@));
}

/// A listing page of articles, with a year heading before each run of
/// articles created in the same year.
pub fn render_listing_page(
    page_title: &str,
    heading: &str,
    articles: &Vec<Article>,
    head_includes: &str,
    href_prefix: &str,
) -> (r: String)
    ensures
        r@ == listing_page_text(
            page_title@,
            heading@,
            listing_fold(articles@, href_prefix@).body,
            head_includes@,
            href_prefix@,
        ),
{
    let mut body = String::new();
    let mut current_year: Option<i32> = None;
    let mut i: usize = 0;
    assert(articles@.take(0) =~= Seq::<Article>::empty());
    while i < articles.len()
        invariant
            i <= articles@.len(),
            listing_fold(articles@.take(i as int), href_prefix@) == (ListingState {
                year: current_year,
                body: body@,
            }),
        decreases articles.len() - i,
    {
        let a = &articles[i];
        assert(articles@.take(i + 1).drop_last() =~= articles@.take(i as int));
        assert(articles@.take(i + 1).last() == *a);
        let year: Option<i32> = match &a.ctime {
            Some(d) => Some(d.year()),
            None => None,
        };
        let differs = match (year, current_year) {
            (Some(x), Some(z)) => x != z,
            (None, None) => false,
            _ => true,
        };
        assert(differs == (year != current_year));
        assert(year == year_of(*a));
        if differs {
            match year {
                Some(y) => {
                    body.append("<h2>");
                    let mut ys = String::new();
                    push_int(&mut ys, y);
                    push_escaped(&mut body, ys.as_str());
                    body.append("</h2>\n");
                    current_year = year;
                },
                None => {
                    current_year = None;
                },
            }
        }
        push_line(&mut body, a, href_prefix);
        i += 1;
        assert(body@ =~= listing_fold(articles@.take(i as int), href_prefix@).body);
    }
    assert(articles@.take(articles.len() as int) =~= articles@);
    listing_page(page_title, heading, body.as_str(), head_includes, href_prefix)
}

/// `a` is earlier than `b`; no date is earlier than any date.
pub open spec fn date_lt(a: Option<IsoDate>, b: Option<IsoDate>) -> bool {
    match (a, b) {
        (None, Some(_)) => true,
        (Some(x), Some(y)) => x.year < y.year || (x.year == y.year && (x.month < y.month || (x.month == y.month
            && x.day < y.day))),
        _ => false,
    }
}

/// Lexicographic order of texts by character.
pub open spec fn text_le(a: Seq<char>, b: Seq<char>) -> bool
    decreases a.len(),
{
    if a.len() == 0 {
        true
    } else if b.len() == 0 {
        false
    } else if a[0] != b[0] {
        a[0] < b[0]
    } else {
        text_le(a.drop_first(), b.drop_first())
    }
}

/// Listing order: newer first, then by title.
pub open spec fn precedes(a: Article, b: Article) -> bool {
    date_lt(b.ctime, a.ctime) || (a.ctime == b.ctime && text_le(a.title@, b.title@))
}

pub open spec fn listing_sorted(s: Seq<Article>) -> bool {
    forall|i: int, j: int| 0 <= i < j < s.len() ==> precedes(#[trigger] s[i], #[trigger] s[j])
}

proof fn lemma_text_le_total(a: Seq<char>, b: Seq<char>)
    ensures
        text_le(a, b) || text_le(b, a),
    decreases a.len(),
{
    if a.len() > 0 && b.len() > 0 && a[0] == b[0] {
        lemma_text_le_total(a.drop_first(), b.drop_first());
    }
}

proof fn lemma_text_le_trans(a: Seq<char>, b: Seq<char>, c: Seq<char>)
    requires
        text_le(a, b),
        text_le(b, c),
    ensures
        text_le(a, c),
    decreases a.len(),
{
    if a.len() > 0 && b.len() > 0 && c.len() > 0 && a[0] == b[0] && b[0] == c[0] {
        lemma_text_le_trans(a.drop_first(), b.drop_first(), c.drop_first());
    }
}

proof fn lemma_precedes_total(a: Article, b: Article)
    ensures
        precedes(a, b) || precedes(b, a),
{
    lemma_text_le_total(a.title@, b.title@);
}

proof fn lemma_precedes_trans(a: Article, b: Article, c: Article)
    requires
        precedes(a, b),
        precedes(b, c),
    ensures
        precedes(a, c),
{
    if a.ctime == b.ctime && b.ctime == c.ctime {
        lemma_text_le_trans(a.title@, b.title@, c.title@);
    }
}

fn date_before(a: &Option<IsoDate>, b: &Option<IsoDate>) -> (r: bool)
    ensures
        r == date_lt(*a, *b),
{
    match (a, b) {
        (None, Some(_)) => true,
        (Some(x), Some(y)) => x.year < y.year || (x.year == y.year && (x.month < y.month || (x.month == y.month
            && x.day < y.day))),
        _ => false,
    }
}

fn same_date(a: &Option<IsoDate>, b: &Option<IsoDate>) -> (r: bool)
    ensures
        r == (*a == *b),
{
    match (a, b) {
        (None, None) => true,
        (Some(x), Some(y)) => x.year == y.year && x.month == y.month && x.day == y.day,
        _ => false,
    }
}

fn title_le(a: &String, b: &String) -> (r: bool)
    ensures
        r == text_le(a@, b@),
{
    let x = crate::text::chars_of(a.as_str());
    let y = crate::text::chars_of(b.as_str());
    let mut k: usize = 0;
    assert(x@.subrange(0, x@.len() as int) =~= x@);
    assert(y@.subrange(0, y@.len() as int) =~= y@);
    while k < x.len() && k < y.len() && x[k] == y[k]
        invariant
            k <= x@.len(),
            k <= y@.len(),
            x@ == a@,
            y@ == b@,
            text_le(a@, b@) == text_le(x@.subrange(k as int, x@.len() as int), y@.subrange(k as int, y@.len() as int)),
        decreases x.len() - k,
    {
        assert(x@.subrange(k as int, x@.len() as int).drop_first() =~= x@.subrange(k + 1, x@.len() as int));
        assert(y@.subrange(k as int, y@.len() as int).drop_first() =~= y@.subrange(k + 1, y@.len() as int));
        k += 1;
    }
    let ghost xs = x@.subrange(k as int, x@.len() as int);
    let ghost ys = y@.subrange(k as int, y@.len() as int);
    if k == x.len() {
        true
    } else if k == y.len() {
        false
    } else {
        assert(xs[0] == x@[k as int] && ys[0] == y@[k as int]);
        x[k] < y[k]
    }
}

fn article_precedes(a: &Article, b: &Article) -> (r: bool)
    ensures
        r == precedes(*a, *b),
{
    date_before(&b.ctime, &a.ctime) || (same_date(&a.ctime, &b.ctime) && title_le(&a.title, &b.title))
}

/// The articles in listing order: newer first, articles of the same date (or
/// with no date) by title.
pub fn sort_articles(articles: Vec<Article>) -> (r: Vec<Article>)
    ensures
        listing_sorted(r@),
        r@.to_multiset() == articles@.to_multiset(),
{
    let ghost orig = articles@;
    let n = articles.len();
    let mut rest = articles;
    let mut out: Vec<Article> = Vec::new();
    let mut i: usize = 0;
    assert(orig.take(0) =~= Seq::<Article>::empty());
    assert(orig.skip(0) =~= orig);
    while rest.len() > 0
        invariant
            i <= orig.len(),
            i + rest@.len() == orig.len(),
            orig.len() == n,
            rest@ == orig.skip(i as int),
            listing_sorted(out@),
            out@.to_multiset() == orig.take(i as int).to_multiset(),
        decreases rest.len(),
    {
        let x = rest.remove(0);
        assert(x == orig[i as int]);
        assert(rest@ =~= orig.skip(i + 1));
        let mut p: usize = 0;
        while p < out.len() && article_precedes(&out[p], &x)
            invariant
                p <= out@.len(),
                listing_sorted(out@),
                forall|k: int| 0 <= k < p ==> precedes(#[trigger] out@[k], x),
            decreases out.len() - p,
        {
            p += 1;
        }
        proof {
            assert forall|k: int| p <= k < out@.len() implies precedes(x, #[trigger] out@[k]) by {
                if precedes(out@[k], x) {
                    assert(precedes(out@[p as int], out@[k]) || p == k);
                    if p < k {
                        lemma_precedes_trans(out@[p as int], out@[k], x);
                    }
                }
                lemma_precedes_total(out@[k], x);
            }
        }
        let ghost before = out@;
        out.insert(p, x);
        proof {
            assert(out@ == before.insert(p as int, x));
            vstd::seq_lib::to_multiset_insert(before, p as int, x);
            assert(orig.take(i + 1) =~= orig.take(i as int).push(orig[i as int]));
            vstd::seq_lib::to_multiset_build(orig.take(i as int), orig[i as int]);
            assert forall|a: int, b: int| 0 <= a < b < out@.len() implies precedes(
                #[trigger] out@[a],
                #[trigger] out@[b],
            ) by {
                if b < p {
                    assert(out@[a] == before[a] && out@[b] == before[b]);
                } else if b == p {
                    assert(out@[a] == before[a]);
                } else if a == p {
                    assert(out@[b] == before[b - 1]);
                } else if a < p {
                    assert(out@[a] == before[a] && out@[b] == before[b - 1]);
                } else {
                    assert(out@[a] == before[a - 1] && out@[b] == before[b - 1]);
                }
            }
        }
        i += 1;
    }
    assert(orig.take(i as int) =~= orig);
    out
}

/// Strict lexicographic order of texts.
pub open spec fn text_lt(a: Seq<char>, b: Seq<char>) -> bool {
    text_le(a, b) && a != b
}

/// Whether an article carries a tag with this name.
pub open spec fn has_tag(a: Article, name: Seq<char>) -> bool {
    exists|k: int| 0 <= k < a.tags@.len() && #[trigger] a.tags@[k]@ == name
}

/// The tag pages of a list of articles: one entry per tag name, in text order,
/// with the positions of the articles that carry it, in order.
pub open spec fn tag_index_ok(articles: Seq<Article>, r: Seq<(Tag, Vec<usize>)>) -> bool {
    &&& forall|a: int, b: int| 0 <= a < b < r.len() ==> text_lt(#[trigger] r[a].0@, #[trigger] r[b].0@)
    &&& forall|e: int, k: int|
        0 <= e < r.len() && 0 <= k < articles.len() ==> (has_tag(#[trigger] articles[k], r[e].0@) <==> #[trigger] r[
            e
        ].1@.contains(k as usize))
    &&& forall|e: int, a: int, b: int|
        0 <= e < r.len() && 0 <= a < b < r[e].1@.len() ==> #[trigger] r[e].1@[a] < #[trigger] r[e].1@[b]
    &&& forall|k: int, t: int|
        0 <= k < articles.len() && 0 <= t < articles[k].tags@.len() ==> entry_named(r, #[trigger] articles[k].tags@[t]@)
}

/// Some entry of a tag index has this name.
pub open spec fn entry_named(r: Seq<(Tag, Vec<usize>)>, n: Seq<char>) -> bool {
    exists|e: int| 0 <= e < r.len() && #[trigger] r[e].0@ == n
}

proof fn lemma_text_le_antisym(a: Seq<char>, b: Seq<char>)
    requires
        text_le(a, b),
        text_le(b, a),
    ensures
        a == b,
    decreases a.len(),
{
    if a.len() > 0 && b.len() > 0 {
        lemma_text_le_antisym(a.drop_first(), b.drop_first());
        assert(a =~= seq![a[0]] + a.drop_first());
        assert(b =~= seq![b[0]] + b.drop_first());
    }
}

fn texts_equal(a: &str, b: &str) -> (r: bool)
    ensures
        r == (a@ == b@),
{
    let x = crate::text::chars_of(a);
    let y = crate::text::chars_of(b);
    if x.len() != y.len() {
        return false;
    }
    let mut k: usize = 0;
    while k < x.len()
        invariant
            k <= x@.len() == y@.len(),
            x@ == a@,
            y@ == b@,
            forall|m: int| 0 <= m < k ==> x@[m] == y@[m],
        decreases x.len() - k,
    {
        if x[k] != y[k] {
            return false;
        }
        k += 1;
    }
    assert(x@ =~= y@);
    true
}

fn carries(a: &Article, name: &str) -> (r: bool)
    ensures
        r == has_tag(*a, name@),
{
    let mut k: usize = 0;
    while k < a.tags.len()
        invariant
            k <= a.tags@.len(),
            forall|m: int| 0 <= m < k ==> a.tags@[m]@ != name@,
        decreases a.tags.len() - k,
    {
        if texts_equal(a.tags[k].as_str(), name) {
            return true;
        }
        k += 1;
    }
    false
}

/// A name is among the listed tags.
pub open spec fn name_listed(names: Seq<Tag>, n: Seq<char>) -> bool {
    exists|e: int| 0 <= e < names.len() && #[trigger] names[e]@ == n
}

pub open spec fn names_sorted(names: Seq<Tag>) -> bool {
    forall|a: int, b: int| 0 <= a < b < names.len() ==> text_lt(#[trigger] names[a]@, #[trigger] names[b]@)
}

/// Every tag of the first `k` articles, and the first `t` tags of article `k`, are listed.
pub open spec fn names_cover(articles: Seq<Article>, names: Seq<Tag>, k: int, t: int) -> bool {
    &&& forall|kk: int, tt: int|
        0 <= kk < k && 0 <= tt < articles[kk].tags@.len() ==> name_listed(names, #[trigger] articles[kk].tags@[tt]@)
    &&& forall|tt: int| 0 <= tt < t ==> name_listed(names, #[trigger] articles[k].tags@[tt]@)
}

proof fn lemma_listed_after_insert(before: Seq<Tag>, p: int, x: Tag, n: Seq<char>)
    requires
        0 <= p <= before.len(),
        name_listed(before, n),
    ensures
        name_listed(before.insert(p, x), n),
{
    let e = choose|e: int| 0 <= e < before.len() && #[trigger] before[e]@ == n;
    if e < p {
        assert(before.insert(p, x)[e] == before[e]);
    } else {
        assert(before.insert(p, x)[e + 1] == before[e]);
    }
}

/// The sorted, distinct tag names of all articles.
fn collect_tag_names(articles: &Vec<Article>) -> (names: Vec<Tag>)
    ensures
        names_sorted(names@),
        names_cover(articles@, names@, articles@.len() as int, 0),
{
    let mut names: Vec<Tag> = Vec::new();
    let mut k: usize = 0;
    while k < articles.len()
        invariant
            k <= articles@.len(),
            names_sorted(names@),
            names_cover(articles@, names@, k as int, 0),
        decreases articles.len() - k,
    {
        let a = &articles[k];
        let mut t: usize = 0;
        while t < a.tags.len()
            invariant
                k < articles@.len(),
                *a == articles@[k as int],
                t <= a.tags@.len(),
                names_sorted(names@),
                names_cover(articles@, names@, k as int, t as int),
            decreases a.tags.len() - t,
        {
            let tag = &a.tags[t];
            let mut p: usize = 0;
            while p < names.len() && title_le_str(names[p].as_str(), tag.as_str()) && !texts_equal(
                names[p].as_str(),
                tag.as_str(),
            )
                invariant
                    p <= names@.len(),
                    forall|m: int| 0 <= m < p ==> text_lt(#[trigger] names@[m]@, tag@),
                decreases names.len() - p,
            {
                p += 1;
            }
            let ghost before = names@;
            if p < names.len() && texts_equal(names[p].as_str(), tag.as_str()) {
                assert(name_listed(names@, a.tags@[t as int]@));
            } else {
                proof {
                    assert forall|m: int| p <= m < names@.len() implies text_lt(tag@, #[trigger] names@[m]@) by {
                        lemma_text_le_total(names@[p as int]@, tag@);
                        if text_le(names@[p as int]@, tag@) {
                            lemma_text_le_antisym(names@[p as int]@, tag@);
                        }
                        if m > p {
                            assert(text_lt(names@[p as int]@, names@[m]@));
                            lemma_text_lt_trans(tag@, names@[p as int]@, names@[m]@);
                        }
                    }
                }
                let c = tag.copy();
                names.insert(p, c);
                proof {
                    assert(names@ == before.insert(p as int, c));
                    assert forall|x: int, y: int| 0 <= x < y < names@.len() implies text_lt(
                        #[trigger] names@[x]@,
                        #[trigger] names@[y]@,
                    ) by {
                        if y < p {
                            assert(names@[x] == before[x] && names@[y] == before[y]);
                        } else if y == p {
                            assert(names@[x] == before[x]);
                        } else if x == p {
                            assert(names@[y] == before[y - 1]);
                        } else if x < p {
                            assert(names@[x] == before[x] && names@[y] == before[y - 1]);
                            lemma_text_lt_trans(before[x]@, tag@, before[y - 1]@);
                        } else {
                            assert(names@[x] == before[x - 1] && names@[y] == before[y - 1]);
                        }
                    }
                    assert forall|kk: int, tt: int|
                        0 <= kk < k && 0 <= tt < articles@[kk].tags@.len() implies name_listed(
                            names@,
                            #[trigger] articles@[kk].tags@[tt]@,
                        ) by {
                        lemma_listed_after_insert(before, p as int, c, articles@[kk].tags@[tt]@);
                    }
                    assert forall|tt: int| 0 <= tt < t implies name_listed(names@, #[trigger] articles@[k as int].tags@[tt]@) by {
                        lemma_listed_after_insert(before, p as int, c, articles@[k as int].tags@[tt]@);
                    }
                    assert(names@[p as int]@ == a.tags@[t as int]@);
                    assert(name_listed(names@, a.tags@[t as int]@));
                }
            }
            t += 1;
        }
        proof {
            assert forall|kk: int, tt: int|
                0 <= kk < k + 1 && 0 <= tt < articles@[kk].tags@.len() implies name_listed(
                    names@,
                    #[trigger] articles@[kk].tags@[tt]@,
                ) by {
                if kk == k {
                    assert(articles@[k as int].tags@[tt] == a.tags@[tt]);
                }
            }
        }
        k += 1;
    }
    names
}

/// The positions of the articles that carry a tag name, in order.
fn positions_with_tag(articles: &Vec<Article>, name: &Tag) -> (ids: Vec<usize>)
    ensures
        forall|kk: int| 0 <= kk < articles@.len() ==> (has_tag(#[trigger] articles@[kk], name@) <==> ids@.contains(kk as usize)),
        forall|a: int, b: int| 0 <= a < b < ids@.len() ==> #[trigger] ids@[a] < #[trigger] ids@[b],
{
    let mut ids: Vec<usize> = Vec::new();
    let mut k: usize = 0;
    while k < articles.len()
        invariant
            k <= articles@.len(),
            forall|kk: int| 0 <= kk < k ==> (has_tag(#[trigger] articles@[kk], name@) <==> ids@.contains(kk as usize)),
            forall|m: int| 0 <= m < ids@.len() ==> #[trigger] ids@[m] < k,
            forall|a: int, b: int| 0 <= a < b < ids@.len() ==> #[trigger] ids@[a] < #[trigger] ids@[b],
        decreases articles.len() - k,
    {
        let ghost old_ids = ids@;
        let hit = carries(&articles[k], name.as_str());
        if hit {
            ids.push(k);
        }
        proof {
            assert forall|kk: int| 0 <= kk < k + 1 implies (has_tag(#[trigger] articles@[kk], name@)
                <==> ids@.contains(kk as usize)) by {
                if kk < k {
                    if old_ids.contains(kk as usize) {
                        let m = choose|m: int| 0 <= m < old_ids.len() && old_ids[m] == kk as usize;
                        assert(ids@[m] == old_ids[m]);
                    }
                    if ids@.contains(kk as usize) {
                        let m = choose|m: int| 0 <= m < ids@.len() && ids@[m] == kk as usize;
                        if m < old_ids.len() {
                            assert(ids@[m] == old_ids[m]);
                        }
                    }
                } else {
                    if hit {
                        assert(ids@[ids@.len() - 1] == k);
                    } else {
                        if ids@.contains(kk as usize) {
                            let m = choose|m: int| 0 <= m < ids@.len() && ids@[m] == kk as usize;
                            assert(old_ids[m] < k);
                        }
                    }
                }
            }
        }
        k += 1;
    }
    ids
}

/// Groups articles by tag for the tag pages.
pub fn articles_by_tag(articles: &Vec<Article>) -> (r: Vec<(Tag, Vec<usize>)>)
    ensures
        tag_index_ok(articles@, r@),
{
    let names = collect_tag_names(articles);
    let mut out: Vec<(Tag, Vec<usize>)> = Vec::new();
    let mut e: usize = 0;
    while e < names.len()
        invariant
            e <= names@.len(),
            out@.len() == e,
            names_sorted(names@),
            names_cover(articles@, names@, articles@.len() as int, 0),
            forall|x: int| 0 <= x < e ==> (#[trigger] out@[x]).0@ == names@[x]@,
            forall|x: int, kk: int|
                0 <= x < e && 0 <= kk < articles@.len() ==> (has_tag(#[trigger] articles@[kk], out@[x].0@)
                    <==> #[trigger] out@[x].1@.contains(kk as usize)),
            forall|x: int, a: int, b: int|
                0 <= x < e && 0 <= a < b < out@[x].1@.len() ==> #[trigger] out@[x].1@[a] < #[trigger] out@[x].1@[b],
        decreases names.len() - e,
    {
        let ids = positions_with_tag(articles, &names[e]);
        out.push((names[e].copy(), ids));
        e += 1;
    }
    proof {
        assert forall|kk: int, t: int|
            0 <= kk < articles@.len() && 0 <= t < articles@[kk].tags@.len() implies entry_named(
                out@,
                #[trigger] articles@[kk].tags@[t]@,
            ) by {
            assert(name_listed(names@, articles@[kk].tags@[t]@));
            let x = choose|x: int| 0 <= x < names@.len() && #[trigger] names@[x]@ == articles@[kk].tags@[t]@;
            assert(out@[x].0@ == names@[x]@);
        }
        assert forall|a: int, b: int| 0 <= a < b < out@.len() implies text_lt(#[trigger] out@[a].0@, #[trigger] out@[b].0@) by {
            assert(out@[a].0@ == names@[a]@ && out@[b].0@ == names@[b]@);
        }
        assert forall|x: int, kk: int|
            0 <= x < out@.len() && 0 <= kk < articles@.len() implies (has_tag(#[trigger] articles@[kk], out@[x].0@)
                <==> #[trigger] out@[x].1@.contains(kk as usize)) by {}
        assert forall|x: int, a: int, b: int|
            0 <= x < out@.len() && 0 <= a < b < out@[x].1@.len() implies #[trigger] out@[x].1@[a] < #[trigger] out@[x].1@[b] by {}
    }
    out
}

fn title_le_str(a: &str, b: &str) -> (r: bool)
    ensures
        r == text_le(a@, b@),
{
    title_le(&String::from_str(a), &String::from_str(b))
}

proof fn lemma_text_lt_trans(a: Seq<char>, b: Seq<char>, c: Seq<char>)
    requires
        text_lt(a, b),
        text_lt(b, c),
    ensures
        text_lt(a, c),
{
    lemma_text_le_trans(a, b, c);
    if a == c {
        lemma_text_le_antisym(a, b);
    }
}

} // verus!
