use duck_geocoder::text::{
    contains, double, ends_with, join, parse_i32, parse_u32, parse_u64, push_decimal, same_text,
    sort_texts, split, starts_with, tail_after_last, text_less, to_upper, trim,
};

fn texts(list: &[&str]) -> Vec<String> {
    list.iter().map(|s| s.to_string()).collect()
}

#[test]
fn splits_at_every_mark() {
    assert_eq!(split("a,b,,c", ','), texts(&["a", "b", "", "c"]));
    assert_eq!(split("", ','), texts(&[""]));
    assert_eq!(split(",", ','), texts(&["", ""]));
}

#[test]
fn doubled_quotes_read_back() {
    for text in ["it's", "''", "", "平'仮'名"] {
        assert_eq!(double(text, '\'').replace("''", "'"), text);
    }
    assert_eq!(double("a'b", '\''), "a''b");
}

#[test]
fn sorts_by_code_points() {
    assert_eq!(
        sort_texts(&texts(&["b", "a", "区", "ab", "a"])),
        texts(&["a", "a", "ab", "b", "区"])
    );
    assert!(text_less("a", "ab"));
    assert!(!text_less("a", "a"));
}

#[test]
fn numbers_read_back() {
    for n in [0u64, 7, 10, 1_000_000, u64::MAX] {
        let mut text = String::new();
        push_decimal(&mut text, n);
        assert_eq!(text, n.to_string());
        assert_eq!(parse_u64(&text), Some(n));
    }
    assert_eq!(parse_u64("18446744073709551616"), None);
    assert_eq!(parse_u64("+5"), Some(5));
    assert_eq!(parse_u64("-5"), None);
    assert_eq!(parse_u64(""), None);
    assert_eq!(parse_u32("4294967296"), None);
    assert_eq!(parse_u32("6668"), Some(6668));
    assert_eq!(parse_i32("-2147483648"), Some(i32::MIN));
    assert_eq!(parse_i32("2147483648"), None);
    assert_eq!(parse_i32("*"), None);
}

#[test]
fn trims_wide_spaces() {
    assert_eq!(trim("\u{3000} a b\n"), "a b");
    assert_eq!(trim(" \t "), "");
}

#[test]
fn searches_in_texts() {
    assert!(starts_with("udx/bldg/a.gml", "udx/"));
    assert!(ends_with("a.gml", ".gml"));
    assert!(!ends_with("ml", ".gml"));
    assert!(contains("abc", "bc"));
    assert!(contains("abc", ""));
    assert!(!contains("abc", "cb"));
    assert_eq!(tail_after_last("a/b/c", '/'), "c");
    assert_eq!(tail_after_last("abc", '/'), "abc");
    assert_eq!(to_upper("Point 点"), "POINT 点");
    assert!(same_text("区", "区"));
    assert_eq!(join(&texts(&["a", "b"]), ", "), "a, b");
}
