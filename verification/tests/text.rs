use maleme::text::{chars_of, count_occurrences, escape_html, format_i64, format_u64, format_usize, is_whitespace, replace_all, string_from_chars, trim};

#[test]
fn trims_unicode_whitespace() {
    assert_eq!(trim("  first \n"), "first");
    assert_eq!(trim("\u{3000}\u{a0}中 文\u{2029}"), "中 文");
    assert_eq!(trim(" \t "), "");
    assert_eq!(trim(""), "");
    assert_eq!(trim("x"), "x");
    assert!(is_whitespace('\u{85}'));
    assert!(!is_whitespace('\u{200b}'));
}

#[test]
fn escapes_html_specials() {
    assert_eq!(escape_html("a<b>&\"c'"), "a&lt;b&gt;&amp;&quot;c'");
    assert_eq!(escape_html("&amp;"), "&amp;amp;");
    assert_eq!(escape_html(""), "");
}

#[test]
fn replaces_left_to_right_without_overlap() {
    assert_eq!(replace_all("aaaa", "aa", "b"), "bb");
    assert_eq!(replace_all("aaa", "aa", "b"), "ba");
    assert_eq!(replace_all("x</y</", "</", "<\\/"), "x<\\/y<\\/");
    assert_eq!(replace_all("", "</", "<\\/"), "");
}

#[test]
fn counts_non_overlapping_occurrences() {
    let text = chars_of("aaaa");
    assert_eq!(count_occurrences(&text, &chars_of("aa")), 2);
    assert_eq!(count_occurrences(&text, &chars_of("a")), 4);
    assert_eq!(count_occurrences(&text, &chars_of("b")), 0);
    assert_eq!(count_occurrences(&chars_of("傻逼傻逼x傻"), &chars_of("傻逼")), 2);
}

#[test]
fn formats_integers_in_decimal() {
    assert_eq!(format_i64(0), "0");
    assert_eq!(format_i64(-42), "-42");
    assert_eq!(format_i64(i64::MIN), i64::MIN.to_string());
    assert_eq!(format_i64(i64::MAX), i64::MAX.to_string());
    assert_eq!(format_u64(u64::MAX), u64::MAX.to_string());
    assert_eq!(format_usize(1234), "1234");
}

#[test]
fn chars_round_trip() {
    let cs = chars_of("héllo 傻");
    assert_eq!(cs.len(), 7);
    assert_eq!(string_from_chars(&cs), "héllo 傻");
}

fn unescape(s: &str) -> String {
    let mut out = String::new();
    let mut rest = s;
    while !rest.is_empty() {
        let mut matched = false;
        for (entity, c) in [("&lt;", '<'), ("&gt;", '>'), ("&quot;", '"'), ("&amp;", '&')] {
            if rest.starts_with(entity) {
                out.push(c);
                rest = &rest[entity.len()..];
                matched = true;
                break;
            }
        }
        if !matched {
            let c = rest.chars().next().unwrap();
            out.push(c);
            rest = &rest[c.len_utf8()..];
        }
    }
    out
}

#[test]
fn escaping_is_undone_by_one_unescape_pass() {
    for s in ["a<b>&\"c'", "&lt;", "&amp;lt;", "", "傻&逼", "<<>>\"\"&&"] {
        let escaped = escape_html(s);
        assert!(!escaped.contains('<') && !escaped.contains('>') && !escaped.contains('"'));
        assert_eq!(unescape(&escaped), s);
    }
}
