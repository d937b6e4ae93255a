//! Text, numbers and order.
use gh_logs_grab::number::{decimal_text, parse_u32, signed_decimal_text};
use gh_logs_grab::order::{put_entry, text_precedes};
use gh_logs_grab::text::{
    contains, ends_with, find, is_space_char, join, lines, replace, same, split, split_once,
    starts_with, trim, trim_end, trim_start,
};

#[test]
fn white_space_is_that_of_unicode() {
    for n in 0..=0x10ffff_u32 {
        if let Some(c) = char::from_u32(n) {
            assert_eq!(is_space_char(c), c.is_whitespace(), "{:x}", n);
        }
    }
}

#[test]
fn text_is_trimmed() {
    assert_eq!(trim("\t \u{3000}a b\u{a0}\r\n"), "a b");
    assert_eq!(trim_start("  a "), "a ");
    assert_eq!(trim_end("  a "), "  a");
    assert_eq!(trim(" \n "), "");
    assert_eq!(trim(""), "");
}

#[test]
fn text_is_searched() {
    assert_eq!(find("äbcbc", "bc"), Some(1));
    assert_eq!(find("abc", "cb"), None);
    assert!(contains("abc", ""));
    assert!(contains("abc", "bc"));
    assert!(!contains("abc", "ac"));
    assert!(starts_with("abc", "ab"));
    assert!(!starts_with("ab", "abc"));
    assert!(ends_with("abc", "bc"));
    assert!(!ends_with("bc", "abc"));
    assert!(same("é", "é"));
    assert!(!same("a", "ab"));
}

#[test]
fn text_is_split() {
    assert_eq!(split("a//b", "/"), vec!["a", "", "b"]);
    assert_eq!(split("", "/"), vec![""]);
    assert_eq!(split_once("k: v: w", ": "), Some(("k", "v: w")));
    assert_eq!(split_once("kv", ":"), None);
}

#[test]
fn lines_are_those_of_std() {
    for text in ["", "\n", "a", "a\n", "a\r\nb", "a\r", "a\n\nb\r\n", "\r\n\n\r"] {
        let expected: Vec<String> = text.lines().map(|line| line.to_string()).collect();
        assert_eq!(lines(text), expected, "{:?}", text);
    }
}

#[test]
fn text_is_replaced_and_joined() {
    assert_eq!(replace("a/b/c", '/', '_'), "a_b_c");
    assert_eq!(join(&vec!["a".to_string(), "".to_string(), "b".to_string()], ", "), "a, , b");
    assert_eq!(join(&vec![], ", "), "");
}

#[test]
fn numbers_are_written_in_decimal() {
    assert_eq!(decimal_text(0), "0");
    assert_eq!(decimal_text(1205), "1205");
    assert_eq!(decimal_text(u128::MAX), u128::MAX.to_string());
    assert_eq!(signed_decimal_text(-17), "-17");
    assert_eq!(signed_decimal_text(i64::MIN), i64::MIN.to_string());
}

#[test]
fn numbers_are_read_as_std_reads_them() {
    for text in ["", "0", "007", "+5", "+", "-1", "4294967295", "4294967296", "12a", "٣"] {
        assert_eq!(parse_u32(text), text.parse::<u32>().ok(), "{:?}", text);
    }
}

#[test]
fn written_numbers_are_read_back() {
    for n in [0, 9, 10, 99, 100, 4711, u32::MAX] {
        assert_eq!(parse_u32(&decimal_text(n as u128)), Some(n));
    }
}

#[test]
fn texts_are_ordered_as_std_orders_them() {
    let texts = ["", "a", "aa", "ab", "b", "Z", "é", "中", "😀", "\u{ffff}"];
    for a in texts {
        for b in texts {
            assert_eq!(text_precedes(a, b), a < b, "{:?} {:?}", a, b);
        }
    }
}

#[test]
fn entries_are_kept_by_key() {
    let mut entries: Vec<(String, usize)> = Vec::new();
    put_entry(&mut entries, "b".to_string(), 1);
    put_entry(&mut entries, "a".to_string(), 2);
    put_entry(&mut entries, "c".to_string(), 3);
    put_entry(&mut entries, "b".to_string(), 4);
    assert_eq!(
        entries,
        vec![("a".to_string(), 2), ("b".to_string(), 4), ("c".to_string(), 3)]
    );
}
