//! Site-wide settings and metadata.
use vstd::prelude::*;

verus! {

pub const INPUT_DIR: &'static str = "contents";

pub const OUTPUT_DIR: &'static str = "public";

pub const POSTS_DIR: &'static str = "posts";

pub const TAGS_DIR: &'static str = "tags";

pub const SITE_TITLE: &'static str = "Dysthesis";

pub const SITE_DESCRIPTION: &'static str = "Dysthesis' blog";

pub const SITE_BASE_URL: &'static str = "https://dysthesis.com/";

pub const SITE_AUTHOR: &'static str = "Dysthesis";

/// Fallback image for social cards.
pub const SITE_DEFAULT_OG_IMAGE: &'static str = "assets/social-default.png";

/// Maximum number of items in a feed.
pub const FEED_ITEM_LIMIT: usize = 50;

/// Site metadata used for feeds and absolute links.
#[derive(Clone, Debug)]
pub struct SiteMeta {
    pub title: String,
    pub description: String,
    pub base_url: String,
    pub author: String,
    pub default_image: Option<String>,
}

/// The text without trailing slashes.
pub open spec fn trim_slashes_end(s: Seq<char>) -> Seq<char>
    decreases s.len(),
{
    if s.len() > 0 && s.last() == '/' {
        trim_slashes_end(s.drop_last())
    } else {
        s
    }
}

/// Removes trailing slashes.
pub fn trim_end_slashes(s: &str) -> (r: String)
    ensures
        r@ == trim_slashes_end(s@),
{
    let mut cs = crate::text::chars_of(s);
    while cs.len() > 0 && cs[cs.len() - 1] == '/'
        invariant
            trim_slashes_end(cs@) == trim_slashes_end(s@),
        decreases cs.len(),
    {
        let ghost before = cs@;
        cs.pop();
        assert(cs@ =~= before.drop_last());
    }
    crate::text::string_of(&cs)
}

/// The site's metadata: its fixed title, description, author and default
/// image, and its base address without a trailing slash.
pub fn site_meta() -> (r: SiteMeta)
    ensures
        r.title@ == SITE_TITLE@,
        r.description@ == SITE_DESCRIPTION@,
        r.base_url@ == trim_slashes_end(SITE_BASE_URL@),
        r.author@ == SITE_AUTHOR@,
        r.default_image matches Some(i) && i@ == SITE_DEFAULT_OG_IMAGE@,
{
    SiteMeta {
        title: String::from_str(SITE_TITLE),
        description: String::from_str(SITE_DESCRIPTION),
        base_url: trim_end_slashes(SITE_BASE_URL),
        author: String::from_str(SITE_AUTHOR),
        default_image: Some(String::from_str(SITE_DEFAULT_OG_IMAGE)),
    }
}

} // verus!
