use ssg::text::{escape_html, escape_text, prefix_to_root, slugify, whitespace};
use ssg::types::{Href, IsoDate, RelPath, Tag, Tags};

#[test]
fn iso_date_roundtrips() {
    for (year, month, day) in [(1970, 1, 1), (2024, 2, 28), (2100, 12, 9), (1999, 10, 17)] {
        let s = format!("{year:04}-{month:02}-{day:02}");
        let parsed = IsoDate::parse(&s).expect("valid date");
        assert_eq!(parsed.as_str(), s);
        assert_eq!(parsed.year(), year);
    }
    assert_eq!(IsoDate::parse("  2024-03-01 \n").map(|d| d.as_str()), Some("2024-03-01".to_string()));
}

#[test]
fn iso_date_rejects_out_of_range() {
    for (year, month, day) in [(1970, 13, 32), (2024, 99, 99), (2100, 20, 40)] {
        let s = format!("{year:04}-{month:02}-{day:02}");
        assert!(IsoDate::parse(&s).is_none());
    }
    assert!(IsoDate::parse("2023-02-29").is_none());
}

#[test]
fn tag_parse_accepts_valid() {
    for s in ["rust", "A_b-9", "-", "_x_", "Zz09"] {
        let tag = Tag::parse(s).expect("should parse");
        assert_eq!(tag.as_str(), s);
    }
}

#[test]
fn tag_parse_rejects_invalid() {
    for bad in [" ", "!", "@", "#", "$", "%", "^", "&", "*", "+", "=", "?", ",", ";", ":", "/", "."] {
        for (prefix, suffix) in [("", ""), ("ab", ""), ("", "x_1"), ("é", "-")] {
            let s = format!("{prefix}{bad}{suffix}");
            assert!(Tag::parse(&s).is_none());
        }
    }
    assert!(Tag::parse("").is_none());
    assert!(Tags::new(vec![]).is_empty());
}

#[test]
fn rel_path_accepts_relative() {
    for p in ["a", "a/b", "x1/y2/z3"] {
        let rel = RelPath::new(p.to_string()).expect("must accept relative");
        assert_eq!(rel.as_path(), p);
    }
}

#[test]
fn rel_path_rejects_absolute() {
    assert!(RelPath::new("/tmp/abs/path".to_string()).is_none());
}

#[test]
fn href_uses_forward_slashes() {
    for (p, expected) in [("a/b", "a/b"), ("a\\b\\c.html", "a/b/c.html"), ("x", "x")] {
        let rel = RelPath::new(p.to_string()).expect("relative");
        let href = Href::from_rel(&rel).as_str().to_string();
        assert!(!href.contains('\\'));
        assert_eq!(href, expected);
    }
}

#[test]
fn escape_text_removes_angle_and_quotes() {
    for s in ["<script>", "a\"b'c", "&<>\"'", "plain", ""] {
        let escaped = escape_text(s);
        for ch in ['<', '>', '"', '\''] {
            assert!(!escaped.contains(ch));
        }
    }
    assert_eq!(escape_text("<a href='x'>&</a>"), "&lt;a href=&#x27;x&#x27;&gt;&amp;&lt;/a&gt;");
    assert_eq!(escape_html("\"q\""), "&quot;q&quot;");
}

#[test]
fn escape_text_noops_when_safe() {
    for s in ["", "hello world", "ünïcødé ✓", "1 + 1 = 2"] {
        assert_eq!(escape_text(s), s);
    }
}

#[test]
fn slugify_constrains_charset() {
    for input in ["", "Hello, World!", "  spaced   out  ", "ÄÖ ü", "---", "a\tb\nc"] {
        let slug = slugify(input);
        assert!(!slug.is_empty());
        assert!(!slug.contains(char::is_whitespace));
    }
    assert_eq!(slugify("Hello, World!"), "hello-world");
    assert_eq!(slugify("!!!"), "section");
    assert_eq!(slugify("ÄB c"), "äb-c");
}

#[test]
fn prefix_to_root_matches_depth() {
    assert_eq!(prefix_to_root("index.md"), "");
    assert_eq!(prefix_to_root("a/index.md"), "../");
    assert_eq!(prefix_to_root("a/b/c.md"), "../../");
    assert_eq!(prefix_to_root("a//b/./c.md"), "../../");
    assert_eq!(prefix_to_root(""), "");
}

#[test]
fn whitespace_matches_std_for_every_char() {
    for c in (0u32..=0x10FFFF).filter_map(char::from_u32) {
        assert_eq!(whitespace(c), c.is_whitespace(), "{:?}", c);
    }
}
