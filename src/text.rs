//! Character-level helpers: HTML escaping, anchor slugs and relative prefixes.
use vstd::prelude::*;

verus! {

/// What `char::is_alphanumeric` answers for a character.
pub uninterp spec fn is_alnum(c: char) -> bool;

/// The characters of `char::to_lowercase` for a character.
pub uninterp spec fn lower_of(c: char) -> Seq<char>;

/// Relies on `str::chars`: the characters of a string, in order.
#[verifier::external_body]
pub(crate) fn chars_of(s: &str) -> (r: Vec<char>)
    ensures
        r@ == s@,
{
    s.chars().collect()
}

/// Relies on `FromIterator<char>` for `String`: the string of these characters.
#[verifier::external_body]
pub(crate) fn string_of(v: &Vec<char>) -> (r: String)
    ensures
        r@ == v@,
{
    v.iter().collect()
}

/// Relies on `String::push`: appends one character.
#[verifier::external_body]
pub(crate) fn push_char(s: &mut String, c: char)
    ensures
        final(s)@ == old(s)@.push(c),
{
    s.push(c)
}

/// Relies on `char::is_alphanumeric`.
#[verifier::external_body]
pub(crate) fn alnum(c: char) -> (r: bool)
    ensures
        r == is_alnum(c),
{
    c.is_alphanumeric()
}

/// Relies on `char::to_lowercase`: the lower-case form of one character.
#[verifier::external_body]
pub(crate) fn lowercase_chars(c: char) -> (r: Vec<char>)
    ensures
        r@ == lower_of(c),
{
    c.to_lowercase().collect()
}

/// The escape of one character: the five markup-significant characters become entities.
pub open spec fn escape_char(c: char) -> Seq<char> {
    if c == '&' {
        seq!['&', 'a', 'm', 'p', ';']
    } else if c == '<' {
        seq!['&', 'l', 't', ';']
    } else if c == '>' {
        seq!['&', 'g', 't', ';']
    } else if c == '"' {
        seq!['&', 'q', 'u', 'o', 't', ';']
    } else if c == '\'' {
        seq!['&', '#', 'x', '2', '7', ';']
    } else {
        seq![c]
    }
}

/// The escape of a string: each character escaped in turn.
pub open spec fn escaped(s: Seq<char>) -> Seq<char>
    decreases s.len(),
{
    if s.len() == 0 {
        Seq::empty()
    } else {
        escaped(s.drop_last()) + escape_char(s.last())
    }
}

/// Text with no markup-significant character escapes to itself.
pub proof fn law_escape_identity_on_safe_text(s: Seq<char>)
    requires
        forall|i: int|
            0 <= i < s.len() ==> #[trigger] s[i] != '&' && s[i] != '<' && s[i] != '>' && s[i] != '"'
                && s[i] != '\'',
    ensures
        escaped(s) == s,
    decreases s.len(),
{
    if s.len() > 0 {
        assert forall|i: int| 0 <= i < s.drop_last().len() implies #[trigger] s.drop_last()[i] != '&'
            && s.drop_last()[i] != '<' && s.drop_last()[i] != '>' && s.drop_last()[i] != '"'
            && s.drop_last()[i] != '\'' by {
            assert(s.drop_last()[i] == s[i]);
        }
        law_escape_identity_on_safe_text(s.drop_last());
        assert(s[s.len() - 1] == s.last());
        assert(escaped(s) =~= s);
    }
}

/// Escaped text holds no angle bracket and no quote character.
pub proof fn law_escaped_has_no_markup_chars(s: Seq<char>)
    ensures
        forall|i: int|
            0 <= i < escaped(s).len() ==> #[trigger] escaped(s)[i] != '<' && escaped(s)[i] != '>' && escaped(s)[i]
                != '"' && escaped(s)[i] != '\'',
    decreases s.len(),
{
    if s.len() > 0 {
        law_escaped_has_no_markup_chars(s.drop_last());
        let p = escaped(s.drop_last());
        let c = escape_char(s.last());
        assert forall|i: int| 0 <= i < escaped(s).len() implies #[trigger] escaped(s)[i] != '<' && escaped(s)[i]
            != '>' && escaped(s)[i] != '"' && escaped(s)[i] != '\'' by {
            if i < p.len() {
                assert(escaped(s)[i] == p[i]);
            } else {
                assert(escaped(s)[i] == c[i - p.len()]);
            }
        }
    }
}

/// Appends the escape of `s` to `out`.
pub fn push_escaped(out: &mut String, s: &str)
    ensures
        final(out)@ == old(out)@ + escaped(s@),
{
    let cs = chars_of(s);
    let ghost start = out@;
    let mut i: usize = 0;
    proof {
        reveal_strlit("&amp;");
        reveal_strlit("&lt;");
        reveal_strlit("&gt;");
        reveal_strlit("&quot;");
        reveal_strlit("&#x27;");
    }
    while i < cs.len()
        invariant
            i <= cs@.len(),
            cs@ == s@,
            out@ == start + escaped(cs@.take(i as int)),
        decreases cs.len() - i,
    {
        let ch = cs[i];
        proof {
            reveal_strlit("&amp;");
            reveal_strlit("&lt;");
            reveal_strlit("&gt;");
            reveal_strlit("&quot;");
            reveal_strlit("&#x27;");
        }
        assert("&amp;"@ =~= seq!['&', 'a', 'm', 'p', ';']);
        assert("&lt;"@ =~= seq!['&', 'l', 't', ';']);
        assert("&gt;"@ =~= seq!['&', 'g', 't', ';']);
        assert("&quot;"@ =~= seq!['&', 'q', 'u', 'o', 't', ';']);
        assert("&#x27;"@ =~= seq!['&', '#', 'x', '2', '7', ';']);
        if ch == '&' {
            out.append("&amp;");
        } else if ch == '<' {
            out.append("&lt;");
        } else if ch == '>' {
            out.append("&gt;");
        } else if ch == '"' {
            out.append("&quot;");
        } else if ch == '\'' {
            out.append("&#x27;");
        } else {
            push_char(out, ch);
        }
        assert(cs@.take(i + 1).drop_last() =~= cs@.take(i as int));
        assert(cs@.take(i + 1).last() == ch);
        i += 1;
        assert(out@ =~= start + escaped(cs@.take(i as int)));
    }
    assert(cs@.take(cs.len() as int) =~= cs@);
}

/// HTML-escapes text content.
pub fn escape_text(s: &str) -> (r: String)
    ensures
        r@ == escaped(s@),
{
    let mut out = String::new();
    push_escaped(&mut out, s);
    out
}

/// HTML-escapes an attribute value; the rules are those of text content.
pub fn escape_attr(s: &str) -> (r: String)
    ensures
        r@ == escaped(s@),
{
    escape_text(s)
}

/// Escapes raw source text, as shown in a plain code listing.
pub fn escape_html(raw: &str) -> (r: String)
    ensures
        r@ == escaped(raw@),
{
    escape_text(raw)
}

/// One step of the slug scan over (characters so far, whether the last one is a joining dash).
pub open spec fn slug_step(acc: (Seq<char>, bool), c: char) -> (Seq<char>, bool) {
    if is_alnum(c) {
        (acc.0 + lower_of(c), false)
    } else if acc.0.len() > 0 && !acc.1 {
        (acc.0.push('-'), true)
    } else {
        acc
    }
}

pub open spec fn slug_scan(s: Seq<char>) -> (Seq<char>, bool)
    decreases s.len(),
{
    if s.len() == 0 {
        (Seq::empty(), false)
    } else {
        slug_step(slug_scan(s.drop_last()), s.last())
    }
}

pub open spec fn trim_end_dashes(s: Seq<char>) -> Seq<char>
    decreases s.len(),
{
    if s.len() > 0 && s.last() == '-' {
        trim_end_dashes(s.drop_last())
    } else {
        s
    }
}

/// The id used where a title has no alphanumeric character.
pub open spec fn fallback_slug() -> Seq<char> {
    seq!['s', 'e', 'c', 't', 'i', 'o', 'n']
}

/// The slug of a title: its alphanumeric runs lower-cased and joined by single
/// dashes, with no dash at either end; never empty.
pub open spec fn slug_of(s: Seq<char>) -> Seq<char> {
    let t = trim_end_dashes(slug_scan(s).0);
    if t.len() == 0 {
        fallback_slug()
    } else {
        t
    }
}

/// Computes a slug suitable for ids and anchors.
pub fn slugify(input: &str) -> (r: String)
    ensures
        r@ == slug_of(input@),
        r@.len() > 0,
{
    let cs = chars_of(input);
    let mut out: Vec<char> = Vec::new();
    let mut prev_dash = false;
    let mut i: usize = 0;
    while i < cs.len()
        invariant
            i <= cs@.len(),
            cs@ == input@,
            (out@, prev_dash) == slug_scan(cs@.take(i as int)),
        decreases cs.len() - i,
    {
        let ch = cs[i];
        assert(cs@.take(i + 1).drop_last() =~= cs@.take(i as int));
        if alnum(ch) {
            let mut lc = lowercase_chars(ch);
            out.append(&mut lc);
            prev_dash = false;
        } else if out.len() > 0 && !prev_dash {
            out.push('-');
            prev_dash = true;
        }
        i += 1;
    }
    assert(cs@.take(cs.len() as int) =~= cs@);
    while out.len() > 0 && out[out.len() - 1] == '-'
        invariant
            trim_end_dashes(out@) == trim_end_dashes(slug_scan(input@).0),
        decreases out.len(),
    {
        out.pop();
    }
    if out.len() == 0 {
        proof {
            reveal_strlit("section");
        }
        String::from_str("section")
    } else {
        string_of(&out)
    }
}

/// Scan of a path: (components completed so far, the segment being read).
/// A component is a non-empty segment between slashes other than `.`.
pub open spec fn path_scan(p: Seq<char>) -> (nat, Seq<char>)
    decreases p.len(),
{
    if p.len() == 0 {
        (0, Seq::empty())
    } else {
        let prev = path_scan(p.drop_last());
        if p.last() == '/' {
            (prev.0 + segment_weight(prev.1), Seq::empty())
        } else {
            (prev.0, prev.1.push(p.last()))
        }
    }
}

pub open spec fn segment_weight(seg: Seq<char>) -> nat {
    if seg.len() == 0 || seg == seq!['.'] {
        0
    } else {
        1
    }
}

/// Number of components of a slash-separated path.
pub open spec fn component_count(p: Seq<char>) -> nat {
    path_scan(p).0 + segment_weight(path_scan(p).1)
}

/// Number of directories above the file that a relative path names.
pub open spec fn parent_depth(p: Seq<char>) -> nat {
    if component_count(p) == 0 {
        0
    } else {
        (component_count(p) - 1) as nat
    }
}

/// `n` copies of `../`.
pub open spec fn ups(n: nat) -> Seq<char>
    decreases n,
{
    if n == 0 {
        Seq::empty()
    } else {
        ups((n - 1) as nat) + seq!['.', '.', '/']
    }
}

/// Prefix needed to navigate from a relative output path back to the root.
pub fn prefix_to_root(rel_out: &str) -> (r: String)
    ensures
        r@ == ups(parent_depth(rel_out@)),
{
    let cs = chars_of(rel_out);
    let mut count: usize = 0;
    let mut seg: Vec<char> = Vec::new();
    let mut i: usize = 0;
    while i < cs.len()
        invariant
            i <= cs@.len(),
            cs@ == rel_out@,
            (count as nat, seg@) == path_scan(cs@.take(i as int)),
            count + seg@.len() <= i,
        decreases cs.len() - i,
    {
        let ch = cs[i];
        assert(cs@.take(i + 1).drop_last() =~= cs@.take(i as int));
        if ch == '/' {
            if seg.len() > 0 && !(seg.len() == 1 && seg[0] == '.') {
                count = count + 1;
            } else {
                assert(segment_weight(seg@) == 0) by {
                    if seg@.len() == 1 && seg@[0] == '.' {
                        assert(seg@ =~= seq!['.']);
                    }
                }
            }
            seg = Vec::new();
            assert(seg@ =~= Seq::<char>::empty());
        } else {
            seg.push(ch);
        }
        i += 1;
    }
    assert(cs@.take(cs.len() as int) =~= cs@);
    if seg.len() > 0 && !(seg.len() == 1 && seg[0] == '.') {
        count = count + 1;
    } else {
        assert(segment_weight(seg@) == 0) by {
            if seg@.len() == 1 && seg@[0] == '.' {
                assert(seg@ =~= seq!['.']);
            }
        }
    }
    let depth: usize = if count == 0 { 0 } else { count - 1 };
    let mut out = String::new();
    let mut k: usize = 0;
    proof {
        reveal_strlit("../");
    }
    while k < depth
        invariant
            k <= depth,
            out@ == ups(k as nat),
        decreases depth - k,
    {
        proof {
            reveal_strlit("../");
        }
        assert("../"@ =~= seq!['.', '.', '/']);
        out.append("../");
        k += 1;
    }
    out
}

/// The characters with the Unicode White_Space property, which is what
/// `char::is_whitespace` tests.
pub open spec fn is_ws(c: char) -> bool {
    ('\u{9}' <= c && c <= '\u{d}') || c == ' ' || c == '\u{85}' || c == '\u{a0}' || c == '\u{1680}' || ('\u{2000}'
        <= c && c <= '\u{200a}') || c == '\u{2028}' || c == '\u{2029}' || c == '\u{202f}' || c == '\u{205f}' || c
        == '\u{3000}'
}

/// Whether a character is whitespace.
pub fn whitespace(c: char) -> (r: bool)
    ensures
        r == is_ws(c),
{
    ('\u{9}' <= c && c <= '\u{d}') || c == ' ' || c == '\u{85}' || c == '\u{a0}' || c == '\u{1680}' || ('\u{2000}'
        <= c && c <= '\u{200a}') || c == '\u{2028}' || c == '\u{2029}' || c == '\u{202f}' || c == '\u{205f}' || c
        == '\u{3000}'
}

/// Where the text starts once leading whitespace is skipped.
pub open spec fn ws_prefix_len(s: Seq<char>) -> nat
    decreases s.len(),
{
    if s.len() > 0 && is_ws(s[0]) {
        1 + ws_prefix_len(s.drop_first())
    } else {
        0
    }
}

/// The text without trailing whitespace.
pub open spec fn trim_end(s: Seq<char>) -> Seq<char>
    decreases s.len(),
{
    if s.len() > 0 && is_ws(s.last()) {
        trim_end(s.drop_last())
    } else {
        s
    }
}

/// The text without leading and trailing whitespace.
pub open spec fn trim(s: Seq<char>) -> Seq<char> {
    trim_end(s.subrange(ws_prefix_len(s) as int, s.len() as int))
}

pub proof fn lemma_trim_end_prefix(s: Seq<char>)
    ensures
        trim_end(s).len() <= s.len(),
        trim_end(s) == s.subrange(0, trim_end(s).len() as int),
    decreases s.len(),
{
    if s.len() > 0 && is_ws(s.last()) {
        lemma_trim_end_prefix(s.drop_last());
        assert(s.drop_last().subrange(0, trim_end(s).len() as int) =~= s.subrange(0, trim_end(s).len() as int));
    } else {
        assert(s.subrange(0, s.len() as int) =~= s);
    }
}

/// Length of the text once trailing whitespace is dropped.
pub fn trim_end_len(cs: &Vec<char>, end: usize) -> (r: usize)
    requires
        end <= cs@.len(),
    ensures
        r <= end,
        cs@.subrange(0, r as int) == trim_end(cs@.subrange(0, end as int)),
{
    let mut j = end;
    while j > 0 && whitespace(cs[j - 1])
        invariant
            j <= end <= cs@.len(),
            trim_end(cs@.subrange(0, j as int)) == trim_end(cs@.subrange(0, end as int)),
        decreases j,
    {
        assert(cs@.subrange(0, j as int).drop_last() =~= cs@.subrange(0, j - 1));
        j -= 1;
    }
    assert(trim_end(cs@.subrange(0, j as int)) == cs@.subrange(0, j as int));
    j
}

/// Removes leading and trailing whitespace.
pub fn trim_str(s: &str) -> (r: String)
    ensures
        r@ == trim(s@),
{
    let cs = chars_of(s);
    let mut b: usize = 0;
    assert(cs@.subrange(0, cs@.len() as int) =~= cs@);
    while b < cs.len() && whitespace(cs[b])
        invariant
            b <= cs@.len(),
            cs@ == s@,
            ws_prefix_len(s@) == b + ws_prefix_len(cs@.subrange(b as int, cs@.len() as int)),
        decreases cs.len() - b,
    {
        assert(cs@.subrange(b as int, cs@.len() as int).drop_first() =~= cs@.subrange(b + 1, cs@.len() as int));
        b += 1;
    }
    assert(ws_prefix_len(cs@.subrange(b as int, cs@.len() as int)) == 0);
    let e = trim_end_len(&cs, cs.len());
    let ghost rest = cs@.subrange(b as int, cs@.len() as int);
    proof {
        lemma_trim_end_prefix(rest);
        lemma_trim_end_prefix(cs@);
    }
    let mut out: Vec<char> = Vec::new();
    let mut k: usize = b;
    let stop: usize = if e > b { e } else { b };
    proof {
        assert(cs@.subrange(0, e as int) == trim_end(cs@));
        trim_end_tail(cs@, b as int);
    }
    while k < stop
        invariant
            b <= k <= stop <= cs@.len(),
            out@ == cs@.subrange(b as int, k as int),
        decreases stop - k,
    {
        out.push(cs[k]);
        k += 1;
        assert(out@ =~= cs@.subrange(b as int, k as int));
    }
    assert(out@ =~= trim(s@));
    string_of(&out)
}

/// The tail from `b` with trailing whitespace dropped is the trimmed whole cut at `b`.
proof fn trim_end_tail(s: Seq<char>, b: int)
    requires
        0 <= b <= s.len(),
    ensures
        ({
            let t = trim_end(s).len() as int;
            trim_end(s.subrange(b, s.len() as int)) == if t > b { s.subrange(b, t) } else { Seq::empty() }
        }),
    decreases s.len(),
{
    let t = trim_end(s).len() as int;
    lemma_trim_end_prefix(s);
    if s.len() > 0 && is_ws(s.last()) {
        if b < s.len() {
            assert(s.subrange(b, s.len() as int).last() == s.last());
            assert(s.subrange(b, s.len() as int).drop_last() =~= s.drop_last().subrange(b, s.drop_last().len() as int));
            trim_end_tail(s.drop_last(), b);
            lemma_trim_end_prefix(s.drop_last());
            assert(trim_end(s) == trim_end(s.drop_last()));
            if t > b {
                assert(s.drop_last().subrange(b, t) =~= s.subrange(b, t));
            }
        } else {
            lemma_trim_end_prefix(s.drop_last());
            assert(s.subrange(b, s.len() as int) =~= Seq::<char>::empty());
        }
    } else {
        if b < s.len() {
            assert(s.subrange(b, s.len() as int).last() == s.last());
        } else {
            assert(s.subrange(b, s.len() as int) =~= Seq::<char>::empty());
        }
    }
}

/// `s` with every occurrence of `pat` replaced by `rep`, scanning left to right.
pub open spec fn replace_all(s: Seq<char>, pat: Seq<char>, rep: Seq<char>) -> Seq<char>
    decreases s.len(),
{
    if pat.len() == 0 || s.len() < pat.len() {
        s
    } else if s.subrange(0, pat.len() as int) == pat {
        rep + replace_all(s.subrange(pat.len() as int, s.len() as int), pat, rep)
    } else {
        seq![s[0]] + replace_all(s.drop_first(), pat, rep)
    }
}

fn starts_at(cs: &Vec<char>, i: usize, pat: &Vec<char>) -> (r: bool)
    requires
        i <= cs@.len(),
    ensures
        r == (cs@.len() - i >= pat@.len() && cs@.subrange(i as int, i + pat@.len()) == pat@),
{
    if cs.len() - i < pat.len() {
        return false;
    }
    let mut k: usize = 0;
    while k < pat.len()
        invariant
            k <= pat@.len(),
            i <= cs@.len(),
            i + pat@.len() <= cs@.len(),
            forall|m: int| 0 <= m < k ==> cs@[i + m] == pat@[m],
        decreases pat.len() - k,
    {
        let n = cs.len();
        assert(i + k < n);
        let at = i + k;
        if cs[at] != pat[k] {
            assert(cs@.subrange(i as int, i + pat@.len())[k as int] != pat@[k as int]);
            return false;
        }
        k += 1;
    }
    assert(cs@.subrange(i as int, i + pat@.len()) =~= pat@);
    true
}

/// Replaces every occurrence of `pat` in `s` by `rep`.
pub fn replace_str(s: &str, pat: &str, rep: &str) -> (r: String)
    requires
        pat@.len() > 0,
    ensures
        r@ == replace_all(s@, pat@, rep@),
{
    let cs = chars_of(s);
    let ps = chars_of(pat);
    let rs = chars_of(rep);
    let mut out: Vec<char> = Vec::new();
    let mut i: usize = 0;
    assert(cs@.subrange(0, cs@.len() as int) =~= cs@);
    assert(out@ + replace_all(cs@, ps@, rs@) =~= replace_all(cs@, ps@, rs@));
    while i < cs.len()
        invariant
            i <= cs@.len(),
            cs@ == s@,
            ps@ == pat@,
            rs@ == rep@,
            ps@.len() > 0,
            out@ + replace_all(cs@.subrange(i as int, cs@.len() as int), ps@, rs@) == replace_all(cs@, ps@, rs@),
        decreases cs.len() - i,
    {
        let ghost rest = cs@.subrange(i as int, cs@.len() as int);
        let ghost before = out@;
        if starts_at(&cs, i, &ps) {
            assert(rest.subrange(0, ps@.len() as int) =~= cs@.subrange(i as int, i + ps@.len()));
            assert(rest.subrange(ps@.len() as int, rest.len() as int) =~= cs@.subrange(i + ps@.len(), cs@.len() as int));
            let mut copy = rs.clone();
            out.append(&mut copy);
            i = i + ps.len();
            assert(before + replace_all(rest, ps@, rs@) =~= out@ + replace_all(cs@.subrange(i as int, cs@.len() as int), ps@, rs@));
        } else {
            proof {
                if rest.len() >= ps@.len() {
                    assert(rest.subrange(0, ps@.len() as int) =~= cs@.subrange(i as int, i + ps@.len()));
                }
            }
            assert(rest.drop_first() =~= cs@.subrange(i + 1, cs@.len() as int));
            out.push(cs[i]);
            i += 1;
            assert(before + replace_all(rest, ps@, rs@) =~= out@ + replace_all(cs@.subrange(i as int, cs@.len() as int), ps@, rs@));
        }
    }
    assert(cs@.subrange(i as int, cs@.len() as int) =~= Seq::<char>::empty());
    assert(out@ + Seq::<char>::empty() =~= out@);
    string_of(&out)
}

} // verus!
