//! Value types with their invariants: dates, tags, relative paths and links.
use vstd::prelude::*;
use crate::markup::{decimal, push_decimal};
use crate::text::{alnum, chars_of, is_alnum, replace_all, replace_str, trim};

verus! {

/// What `time::Date::parse` with the format `[year]-[month]-[day]` gives for a
/// trimmed text: year, month and day, or `None` where it is not a valid date.
pub uninterp spec fn parsed_date(s: Seq<char>) -> Option<(i32, u8, u8)>;

/// Relies on `time::Date::parse` with the format `[year]-[month]-[day]`: a
/// valid calendar date, whose month lies in 1..=12 and day in 1..=31.
#[verifier::external_body]
fn parse_date(s: &str) -> (r: Option<(i32, u8, u8)>)
    ensures
        r == parsed_date(s@),
        r matches Some((y, m, d)) ==> 1 <= m <= 12 && 1 <= d <= 31 && -9999 <= y <= 9999,
{
    let fmt = time::format_description::parse("[year]-[month]-[day]").ok()?;
    let d = time::Date::parse(s, &fmt).ok()?;
    Some((d.year(), d.month() as u8, d.day()))
}

/// A calendar date, as written in front matter (`YYYY-MM-DD`).
#[derive(Clone, Copy, Debug, PartialEq, Eq, Hash, PartialOrd, Ord)]
pub struct IsoDate {
    pub year: i32,
    pub month: u8,
    pub day: u8,
}

pub open spec fn pad_to(s: Seq<char>, n: nat) -> Seq<char>
    decreases n,
{
    if s.len() >= n || n == 0 {
        s
    } else {
        seq!['0'] + pad_to(s, (n - 1) as nat)
    }
}

/// The `YYYY-MM-DD` text of a date; a negative year carries a sign.
pub open spec fn date_text(y: int, m: nat, d: nat) -> Seq<char> {
    (if y < 0 { seq!['-'] + pad_to(decimal((-y) as nat), 4) } else { pad_to(decimal(y as nat), 4) }) + seq!['-']
        + pad_to(decimal(m), 2) + seq!['-'] + pad_to(decimal(d), 2)
}

fn push_padded(out: &mut String, n: usize, width: usize)
    ensures
        final(out)@ == old(out)@ + pad_to(decimal(n as nat), width as nat),
{
    let mut digits = String::new();
    push_decimal(&mut digits, n);
    let ghost dv = digits@;
    let len = digits.as_str().unicode_len();
    let mut zeros: usize = 0;
    let mut k = width;
    while k > 0 && len < k
        invariant
            k <= width,
            zeros == width - k,
            pad_to(dv, width as nat) == Seq::new(zeros as nat, |_i| '0') + pad_to(dv, k as nat),
            len == dv.len(),
        decreases k,
    {
        assert(Seq::new(zeros as nat, |_i| '0') + seq!['0'] =~= Seq::new((zeros + 1) as nat, |_i| '0'));
        assert(Seq::new(zeros as nat, |_i| '0') + (seq!['0'] + pad_to(dv, (k - 1) as nat)) =~= Seq::new(
            (zeros + 1) as nat,
            |_i| '0',
        ) + pad_to(dv, (k - 1) as nat));
        zeros += 1;
        k -= 1;
    }
    assert(pad_to(dv, k as nat) == dv);
    let ghost o = out@;
    let mut z: usize = 0;
    while z < zeros
        invariant
            z <= zeros,
            out@ == o + Seq::new(z as nat, |_i| '0'),
        decreases zeros - z,
    {
        crate::text::push_char(out, '0');
        z += 1;
        assert(out@ =~= o + Seq::new(z as nat, |_i| '0'));
    }
    out.append(digits.as_str());
    assert(out@ =~= o + pad_to(dv, width as nat));
}

impl IsoDate {
    /// Parses a `YYYY-MM-DD` date, ignoring surrounding whitespace.
    pub fn parse(s: &str) -> (r: Option<IsoDate>)
        ensures
            r == match parsed_date(trim(s@)) {
                Some((y, m, d)) => Some(IsoDate { year: y, month: m, day: d }),
                None => None,
            },
            r matches Some(d) ==> -9999 <= d.year <= 9999 && 1 <= d.month <= 12 && 1 <= d.day <= 31,
    {
        let t = crate::text::trim_str(s);
        match parse_date(t.as_str()) {
            Some((y, m, d)) => Some(IsoDate { year: y, month: m, day: d }),
            None => None,
        }
    }

    /// The `YYYY-MM-DD` text of the date.
    pub fn as_str(&self) -> (r: String)
        ensures
            r@ == date_text(self.year as int, self.month as nat, self.day as nat),
    {
        let mut out = String::new();
        if self.year < 0 {
            crate::text::push_char(&mut out, '-');
            let y = (0 - (self.year as i64)) as usize;
            push_padded(&mut out, y, 4);
        } else {
            push_padded(&mut out, self.year as usize, 4);
        }
        crate::text::push_char(&mut out, '-');
        push_padded(&mut out, self.month as usize, 2);
        crate::text::push_char(&mut out, '-');
        push_padded(&mut out, self.day as usize, 2);
        assert(out@ =~= date_text(self.year as int, self.month as nat, self.day as nat));
        out
    }

    pub fn year(&self) -> (r: i32)
        ensures
            r == self.year,
    {
        self.year
    }
}

/// A valid tag: non-empty, of alphanumerics, `-` and `_` only.
pub open spec fn valid_tag(s: Seq<char>) -> bool {
    s.len() > 0 && forall|i: int| 0 <= i < s.len() ==> is_alnum(#[trigger] s[i]) || s[i] == '-' || s[i] == '_'
}

/// A tag that categorises articles.
#[derive(Clone, Debug, PartialEq, Eq, Hash, PartialOrd, Ord)]
pub struct Tag {
    name: String,
}

impl View for Tag {
    type V = Seq<char>;

    closed spec fn view(&self) -> Seq<char> {
        self.name@
    }
}

impl Tag {
    pub open spec fn wf(&self) -> bool {
        valid_tag(self@)
    }

    /// Accepts a tag made only of alphanumerics, `-` and `_`.
    pub fn parse(raw: &str) -> (r: Option<Tag>)
        ensures
            r is Some <==> valid_tag(raw@),
            r matches Some(t) ==> t@ == raw@ && t.wf(),
    {
        let cs = chars_of(raw);
        if cs.len() == 0 {
            return None;
        }
        let mut i: usize = 0;
        while i < cs.len()
            invariant
                i <= cs@.len(),
                cs@ == raw@,
                forall|k: int| 0 <= k < i ==> is_alnum(#[trigger] cs@[k]) || cs@[k] == '-' || cs@[k] == '_',
            decreases cs.len() - i,
        {
            let ch = cs[i];
            if !(alnum(ch) || ch == '-' || ch == '_') {
                return None;
            }
            i += 1;
        }
        Some(Tag { name: String::from_str(raw) })
    }

    pub fn as_str(&self) -> (r: &str)
        ensures
            r@ == self@,
    {
        self.name.as_str()
    }

    /// A copy of the tag.
    pub fn copy(&self) -> (r: Tag)
        ensures
            r@ == self@,
    {
        Tag { name: self.name.clone() }
    }
}

/// The tags of an article.
#[derive(Clone, Debug, PartialEq, Eq)]
pub struct Tags(pub Vec<Tag>);

impl Tags {
    pub fn new(tags: Vec<Tag>) -> (r: Tags)
        ensures
            r.0@ == tags@,
    {
        Tags(tags)
    }

    pub fn is_empty(&self) -> (r: bool)
        ensures
            r == (self.0@.len() == 0),
    {
        self.0.len() == 0
    }
}

/// A path relative to the site root: it does not start at the file system root.
#[derive(Clone, Debug, PartialEq, Eq, Hash)]
pub struct RelPath {
    path: String,
}

impl View for RelPath {
    type V = Seq<char>;

    closed spec fn view(&self) -> Seq<char> {
        self.path@
    }
}

pub open spec fn is_absolute(p: Seq<char>) -> bool {
    p.len() > 0 && p[0] == '/'
}

impl RelPath {
    /// Accepts a path only where it is relative.
    pub fn new(p: String) -> (r: Option<RelPath>)
        ensures
            r is Some <==> !is_absolute(p@),
            r matches Some(x) ==> x@ == p@,
    {
        let cs = chars_of(p.as_str());
        if cs.len() > 0 && cs[0] == '/' {
            None
        } else {
            Some(RelPath { path: p })
        }
    }

    pub fn as_path(&self) -> (r: &str)
        ensures
            r@ == self@,
    {
        self.path.as_str()
    }
}

/// A link target written with forward slashes.
#[derive(Clone, Debug, PartialEq, Eq, Hash)]
pub struct Href {
    href: String,
}

impl View for Href {
    type V = Seq<char>;

    closed spec fn view(&self) -> Seq<char> {
        self.href@
    }
}

impl Href {
    /// The link for a relative path: backslashes become slashes.
    pub fn from_rel(rel: &RelPath) -> (r: Href)
        ensures
            r@ == replace_all(rel@, seq!['\\'], seq!['/']),
    {
        proof {
            reveal_strlit("\\");
            reveal_strlit("/");
        }
        assert("\\"@ =~= seq!['\\']);
        assert("/"@ =~= seq!['/']);
        Href { href: replace_str(rel.as_path(), "\\", "/") }
    }

    pub fn as_str(&self) -> (r: &str)
        ensures
            r@ == self@,
    {
        self.href.as_str()
    }
}

} // verus!
