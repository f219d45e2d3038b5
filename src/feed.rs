//! The entries of the site's feeds, taken from the newest articles.
use vstd::prelude::*;
use crate::article::Article;
use crate::config::{FEED_ITEM_LIMIT, trim_end_slashes, trim_slashes_end};
use crate::event::opt_view;
use crate::types::{IsoDate, Tag};

verus! {

/// One feed item.
#[derive(Clone, Debug)]
pub struct FeedEntry {
    pub title: String,
    pub url: String,
    pub summary: Option<String>,
    pub tags: Vec<Tag>,
    pub published: Option<IsoDate>,
    pub updated: Option<IsoDate>,
}

pub open spec fn tag_names(v: Seq<Tag>) -> Seq<Seq<char>> {
    v.map_values(|t: Tag| t@)
}

/// The entry for an article: its title, summary and tags, its absolute
/// address, its creation date as publication date, and its update date (or
/// else its creation date) as update date.
pub open spec fn entry_of(e: FeedEntry, a: Article, base: Seq<char>) -> bool {
    &&& e.title@ == a.title@
    &&& e.url@ == trim_slashes_end(base) + seq!['/'] + a.href@
    &&& opt_view(e.summary) == opt_view(a.summary)
    &&& tag_names(e.tags@) == tag_names(a.tags@)
    &&& e.published == a.ctime
    &&& e.updated == match a.updated {
        Some(d) => Some(d),
        None => a.ctime,
    }
}

fn copy_tags(v: &Vec<Tag>) -> (r: Vec<Tag>)
    ensures
        tag_names(r@) == tag_names(v@),
{
    let mut r: Vec<Tag> = Vec::new();
    let mut i: usize = 0;
    while i < v.len()
        invariant
            i <= v@.len(),
            r@.len() == i,
            forall|j: int| 0 <= j < i ==> #[trigger] r@[j]@ == v@[j]@,
        decreases v.len() - i,
    {
        r.push(v[i].copy());
        i += 1;
    }
    assert(tag_names(r@) =~= tag_names(v@));
    r
}

impl FeedEntry {
    /// The feed entry of an article, with links made absolute against `base_url`.
    pub fn from_article(article: &Article, base_url: &str) -> (r: FeedEntry)
        ensures
            entry_of(r, *article, base_url@),
    {
        let mut url = trim_end_slashes(base_url);
        crate::text::push_char(&mut url, '/');
        url.append(article.href.as_str());
        assert(url@ =~= trim_slashes_end(base_url@) + seq!['/'] + article.href@);
        FeedEntry {
            title: article.title.clone(),
            url,
            summary: match &article.summary {
                Some(s) => Some(s.clone()),
                None => None,
            },
            tags: copy_tags(&article.tags),
            published: article.ctime,
            updated: match article.updated {
                Some(d) => Some(d),
                None => article.ctime,
            },
        }
    }
}

/// The entries of the first articles, at most the feed's item limit.
pub fn feed_entries(articles: &Vec<Article>, base_url: &str) -> (r: Vec<FeedEntry>)
    ensures
        r@.len() == if articles@.len() < FEED_ITEM_LIMIT { articles@.len() } else { FEED_ITEM_LIMIT as nat },
        forall|i: int| 0 <= i < r@.len() ==> entry_of(#[trigger] r@[i], articles@[i], base_url@),
{
    let n = if articles.len() < FEED_ITEM_LIMIT { articles.len() } else { FEED_ITEM_LIMIT };
    let mut out: Vec<FeedEntry> = Vec::new();
    let mut i: usize = 0;
    while i < n
        invariant
            i <= n <= articles@.len(),
            out@.len() == i,
            forall|j: int| 0 <= j < i ==> entry_of(#[trigger] out@[j], articles@[j], base_url@),
        decreases n - i,
    {
        out.push(FeedEntry::from_article(&articles[i], base_url));
        i += 1;
    }
    out
}

} // verus!
