use hns::entities::{decode_entities, matches_at, replace_chars, replace_nbsp};
use hns::lines::normalize_lines;
use hns::text::{from_chars, is_space_char, to_chars, trim_bounds, trim_chars};

fn chars(s: &str) -> Vec<char> {
    s.chars().collect()
}

fn lines_by_std(s: &str) -> String {
    s.lines().map(|line| line.trim()).filter(|line| !line.is_empty()).collect::<Vec<&str>>().join("\n")
}

#[test]
fn to_chars_gives_the_characters() {
    assert_eq!(to_chars("aé\u{a0}\u{1F600}z"), vec!['a', 'é', '\u{a0}', '\u{1F600}', 'z']);
    assert_eq!(to_chars(""), Vec::<char>::new());
}

#[test]
fn from_chars_gives_the_string() {
    assert_eq!(from_chars(&vec!['a', 'é', '\u{1F600}', '\n']), "aé\u{1F600}\n");
    assert_eq!(from_chars(&Vec::new()), "");
}

#[test]
fn white_space_is_what_std_calls_white_space() {
    let mut code: u32 = 0;
    while code <= 0x10FFFF {
        if let Some(c) = char::from_u32(code) {
            assert_eq!(is_space_char(c), c.is_whitespace(), "U+{:04X}", code);
        }
        code += 1;
    }
}

#[test]
fn trim_bounds_finds_the_stretch() {
    let v = chars("ab  cd \t ef");
    assert_eq!(trim_bounds(&v, 0, v.len()), (0, v.len()));
    assert_eq!(trim_bounds(&v, 2, 9), (4, 6));
    assert_eq!(trim_bounds(&v, 2, 4), (4, 4));
    assert_eq!(trim_bounds(&v, 3, 3), (3, 3));
}

#[test]
fn trim_chars_agrees_with_std() {
    for s in ["", " ", "a", "  a  ", "\t\n a b \r\n", "\u{a0}x\u{3000}", "a  b", "\u{200b}x "] {
        assert_eq!(from_chars(&trim_chars(&chars(s))), s.trim(), "{:?}", s);
    }
}

#[test]
fn replace_chars_agrees_with_std() {
    let cases = [
        ("", "a", "b"),
        ("aaa", "aa", "b"),
        ("aaaa", "aa", "b"),
        ("abcabc", "bc", ""),
        ("abab", "ab", "abab"),
        ("x&amp;y", "&amp;", "&"),
        ("&amp", "&amp;", "&"),
        ("short", "longer than the text", "x"),
        ("a.b.c", ".", "::"),
    ];
    for (s, pat, to) in cases {
        let got = replace_chars(&chars(s), &chars(pat), &chars(to));
        assert_eq!(from_chars(&got), s.replace(pat, to), "{:?} {:?} {:?}", s, pat, to);
    }
}

#[test]
fn matches_at_compares_in_place() {
    let v = chars("hello");
    assert!(matches_at(&v, 0, &chars("he")));
    assert!(matches_at(&v, 3, &chars("lo")));
    assert!(!matches_at(&v, 4, &chars("lo")));
    assert!(!matches_at(&v, 1, &chars("he")));
    assert!(matches_at(&v, 5, &chars("")));
    assert!(!matches_at(&v, 5, &chars("o")));
}

#[test]
fn replace_nbsp_touches_nothing_else() {
    assert_eq!(from_chars(&replace_nbsp(&chars("a\u{a0}\u{a0}b \u{2007}c"))), "a  b \u{2007}c");
}

#[test]
fn decode_entities_decodes_the_four() {
    assert_eq!(decode_entities("&#x27;"), "'");
    assert_eq!(decode_entities("&quot;"), "\"");
    assert_eq!(decode_entities("&amp;"), "&");
    assert_eq!(decode_entities("&#x2F;"), "/");
    assert_eq!(
        decode_entities("Tom &amp; Jerry&#x27;s &quot;home&quot; at http:&#x2F;&#x2F;x"),
        "Tom & Jerry's \"home\" at http://x"
    );
}

#[test]
fn decode_entities_leaves_others() {
    assert_eq!(decode_entities("&nbsp;"), "&nbsp;");
    assert_eq!(decode_entities("&lt;&gt;&#39;&#x2f;&AMP;"), "&lt;&gt;&#39;&#x2f;&AMP;");
    assert_eq!(decode_entities("&amp"), "&amp");
    assert_eq!(decode_entities("plain text"), "plain text");
    assert_eq!(decode_entities(""), "");
}

#[test]
fn decode_entities_works_in_order() {
    assert_eq!(decode_entities("&amp;#x2F;"), "/");
    assert_eq!(decode_entities("&amp;quot;"), "&quot;");
    assert_eq!(decode_entities("&amp;#x27;"), "&#x27;");
    assert_eq!(decode_entities("&amp;amp;"), "&amp;");
}

#[test]
fn decode_entities_turns_escaped_line_feeds() {
    assert_eq!(decode_entities("a\\nb"), "a\nb");
    assert_eq!(decode_entities("a\\\\nb"), "a\\\nb");
    assert_eq!(decode_entities("a\nb\\"), "a\nb\\");
}

#[test]
fn normalize_lines_trims_and_drops() {
    assert_eq!(normalize_lines("  a  \n\n \t \n  b\n"), "a\nb");
    assert_eq!(normalize_lines("a\r\nb\r\n"), "a\nb");
    assert_eq!(normalize_lines("one line"), "one line");
    assert_eq!(normalize_lines("inner  space   stays"), "inner  space   stays");
}

#[test]
fn normalize_lines_of_nothing_is_empty() {
    assert_eq!(normalize_lines(""), "");
    assert_eq!(normalize_lines("\n"), "");
    assert_eq!(normalize_lines(" \n\t\n\u{a0}\n   "), "");
}

#[test]
fn normalize_lines_leaves_no_blank_line() {
    let out = normalize_lines("\n\n a \n   \n\u{3000}\n b \n\n\n c\n\n");
    assert_eq!(out, "a\nb\nc");
    for line in out.split('\n') {
        assert!(!line.is_empty());
        assert_eq!(line.trim(), line);
    }
}

#[test]
fn normalize_lines_is_idempotent() {
    for s in ["", "a", " a \n\n b ", "\r\n x \r\n", "a\\nb", "  \n  ", "a\n\n\nb\nc  \n"] {
        let once = normalize_lines(s);
        assert_eq!(normalize_lines(&once), once, "{:?}", s);
    }
}

#[test]
fn normalize_lines_agrees_with_std() {
    for s in ["", "a", " a \n\n b ", "\r\n x \r\n", "x\r", "\r", "a\rb\n", "  \n  ", "a\n\n\nb\nc  \n", "\u{a0}a\u{a0}\n\u{2028}b"] {
        assert_eq!(normalize_lines(s), lines_by_std(s), "{:?}", s);
    }
}
