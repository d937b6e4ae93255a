//! What the patterns match, spelled out and held against the regular expressions.
use gh_logs_grab::patterns::{
    DIGIT_RE, JEST_AT_RE, JEST_ERROR_RE, JEST_FAIL_RE, JEST_LINE_RE, LINE_NUMBER_RE,
    PYTEST_FAILED_RE, RUST_FAILURE_HEADER_RE, RUST_PANIC_RE, RUST_RUNNING_RE,
};
use regex::Regex;

type Groups = Option<Vec<Option<String>>>;

fn text(s: &[char]) -> Option<String> {
    Some(s.iter().collect())
}

fn run_end(s: &[char], holds: fn(char) -> bool, from: usize) -> usize {
    let mut i = from.min(s.len());
    while i < s.len() && holds(s[i]) {
        i += 1;
    }
    i
}

fn space_end(s: &[char], i: usize) -> usize {
    run_end(s, |c| c.is_whitespace(), i)
}

fn word_end(s: &[char], i: usize) -> usize {
    run_end(s, |c| !c.is_whitespace(), i)
}

fn is_decimal(c: char) -> bool {
    c.is_ascii_digit() || c == '٣'
}

fn decimals_end(s: &[char], i: usize) -> usize {
    run_end(s, is_decimal, i)
}

fn decimals_start(s: &[char], i: usize) -> usize {
    let mut i = i;
    while i > 0 && is_decimal(s[i - 1]) {
        i -= 1;
    }
    i
}

fn stands_at(s: &[char], pattern: &str, i: usize) -> bool {
    i <= s.len() && s[i..].iter().collect::<String>().starts_with(pattern)
}

fn leftmost(s: &[char], at: fn(&[char], usize) -> Groups) -> Groups {
    (0..s.len()).find_map(|p| at(s, p))
}

fn pytest_at(s: &[char], p: usize) -> Groups {
    for word in ["FAILED", "ERROR"] {
        let w = p + word.len();
        if stands_at(s, word, p) {
            let a = space_end(s, w);
            let b = word_end(s, a);
            let c = space_end(s, b);
            let d = space_end(s, c + 1);
            if w < a && a < b && b < c && c < s.len() && s[c] == '-' && c + 1 < d
                && !s[d..].contains(&'\n')
            {
                return Some(vec![
                    text(&s[p..]),
                    Some(word.to_string()),
                    text(&s[a..b]),
                    text(&s[d..]),
                ]);
            }
        }
    }
    None
}

fn line_number_at(s: &[char], p: usize) -> Groups {
    let q = decimals_end(s, p + 1);
    if s[p] == ':' && p + 1 < q && q < s.len() && s[q] == ':' {
        Some(vec![text(&s[p..=q]), text(&s[p + 1..q])])
    } else {
        None
    }
}

fn file_end(s: &[char], k: usize) -> Option<usize> {
    let end = word_end(s, k);
    (k + 1..end).rev().find_map(|d| {
        [".tsx", ".jsx", ".mjs", ".cjs", ".ts", ".js"]
            .iter()
            .find(|extension| stands_at(s, extension, d))
            .map(|extension| d + extension.len())
    })
}

fn jest_header_at(s: &[char], p: usize) -> Groups {
    let k = space_end(s, p + 4);
    if !stands_at(s, "FAIL", p) || k == p + 4 {
        return None;
    }
    if stands_at(s, "browser:", k) {
        let m = space_end(s, k + 8);
        let r = word_end(s, m);
        let t = space_end(s, r);
        if m < r && r < t {
            if let Some(end) = file_end(s, t) {
                return Some(vec![text(&s[p..end]), text(&s[m..r]), text(&s[t..end])]);
            }
        }
    }
    file_end(s, k).map(|end| vec![text(&s[p..end]), None, text(&s[k..end])])
}

fn jest_error_at(s: &[char], p: usize) -> Groups {
    let k = space_end(s, p + 1);
    let from = if k < s.len() { k } else { s.len() - 1 };
    if s[p] == '●' && p + 1 < k && p + 1 < from && !s[from..].contains(&'\n') {
        Some(vec![text(&s[p..]), text(&s[from..])])
    } else {
        None
    }
}

fn jest_line_at(s: &[char], p: usize) -> Groups {
    let q = decimals_end(s, p + 1);
    let r = decimals_end(s, q + 1);
    let ends = r == s.len() || r + 1 == s.len() && s[r] == ')';
    if (s[p] == ':' || s[p] == '/') && p + 1 < q && q < s.len() && s[q] == ':' && q + 1 < r && ends {
        Some(vec![text(&s[p..]), text(&s[p + 1..q])])
    } else {
        None
    }
}

fn header_groups(s: &[char]) -> Groups {
    let whole: String = s.iter().collect();
    let name = whole.strip_prefix("---- ")?.strip_suffix(" stdout ----")?;
    if name.is_empty() || name.contains('\n') {
        None
    } else {
        Some(vec![Some(whole.clone()), Some(name.to_string())])
    }
}

fn panic_tail(s: &[char]) -> Option<(usize, usize)> {
    let z = s.len().checked_sub(1)?;
    let y = decimals_start(s, z);
    if s[z] != ':' || y <= 1 || y == z || s[y - 1] != ':' {
        return None;
    }
    let x = decimals_start(s, y - 1);
    if x == 0 || x == y - 1 || s[x - 1] != ':' {
        return None;
    }
    Some((x - 1, y - 1))
}

fn panic_groups(s: &[char]) -> Groups {
    if !stands_at(s, "thread '", 0) {
        return None;
    }
    let (colon, end) = panic_tail(s)?;
    for e in 9..s.len() {
        if s[e - 1] == '\n' {
            return None;
        }
        if stands_at(s, "' ", e) {
            let a = e + 2;
            let c = decimals_end(s, a + 1);
            let b = if stands_at(s, "(", a) && a + 1 < c && stands_at(s, ") ", c) { c + 2 } else { a };
            let file = b + 12;
            if stands_at(s, "panicked at ", b) && file < colon && !s[file..colon].contains(&'\n') {
                return Some(vec![
                    text(s),
                    text(&s[8..e]),
                    text(&s[file..colon]),
                    text(&s[colon + 1..end]),
                ]);
            }
        }
    }
    None
}

fn running_at(s: &[char], p: usize) -> Groups {
    if !stands_at(s, "Running", p) {
        return None;
    }
    for j in (p + 8..=space_end(s, p + 7)).rev() {
        for g in j..s.len() {
            let h = space_end(s, g);
            if j < g && s[g].is_whitespace() && stands_at(s, "(target/", h) {
                return Some(vec![text(&s[p..h + 8]), text(&s[j..g])]);
            }
            if s[g] == '\n' {
                break;
            }
        }
    }
    None
}

/// Calls `check` with every text of up to `length` of the parts, between `before` and `after`.
fn for_all_texts(
    parts: &[&str],
    length: usize,
    before: &str,
    after: &str,
    check: &mut dyn FnMut(&str),
) {
    let mut texts: Vec<String> = vec![String::new()];
    for round in 0..=length {
        for inner in &texts {
            check(&format!("{}{}{}", before, inner, after));
        }
        if round < length {
            texts = texts
                .iter()
                .flat_map(|inner| parts.iter().map(move |part| format!("{}{}", inner, part)))
                .collect();
        }
    }
}

fn groups_of(re: &Regex, s: &str) -> Groups {
    re.captures(s).map(|found| {
        found.iter().map(|group| group.map(|part| part.as_str().to_string())).collect()
    })
}

fn compare(
    pattern: &str,
    parts: &[&str],
    length: usize,
    before: &str,
    after: &str,
    groups: &dyn Fn(&[char]) -> Groups,
) {
    let re = Regex::new(pattern).unwrap();
    let mut matches = 0;
    for_all_texts(parts, length, before, after, &mut |s| {
        let chars: Vec<char> = s.chars().collect();
        let expected = groups_of(&re, s);
        if expected.is_some() {
            matches += 1;
        }
        assert_eq!(groups(&chars), expected, "{:?}", s);
    });
    assert!(matches > 0);
}

#[test]
fn failed_tests_of_pytest_match() {
    let parts = ["FAILED", "ERROR", " ", "-", "a", "\n"];
    compare(PYTEST_FAILED_RE, &parts, 6, "", "", &|s| leftmost(s, pytest_at));
    compare(PYTEST_FAILED_RE, &parts, 5, "FAILED ", "", &|s| leftmost(s, pytest_at));
    compare(PYTEST_FAILED_RE, &parts, 5, "ERROR a -", "", &|s| leftmost(s, pytest_at));
}

#[test]
fn line_numbers_match() {
    compare(LINE_NUMBER_RE, &[":", "1", "٣", "a"], 7, "", "", &|s| leftmost(s, line_number_at));
}

#[test]
fn headers_of_jest_match() {
    let parts = ["FAIL", " ", "browser:", "a", ".ts", ".", "x", ".mjs"];
    compare(JEST_FAIL_RE, &parts, 4, "", "", &|s| leftmost(s, jest_header_at));
    compare(JEST_FAIL_RE, &parts, 5, "FAIL ", "", &|s| leftmost(s, jest_header_at));
    compare(JEST_FAIL_RE, &parts, 4, "FAIL browser:", ".js", &|s| leftmost(s, jest_header_at));
}

#[test]
fn errors_of_jest_match() {
    compare(JEST_ERROR_RE, &["●", " ", "a", "\n"], 7, "", "", &|s| leftmost(s, jest_error_at));
}

#[test]
fn frames_of_jest_match() {
    let re = Regex::new(JEST_AT_RE).unwrap();
    for_all_texts(&[" ", "at", "a", "\n", "\u{3000}"], 6, "", "", &mut |s| {
        let chars: Vec<char> = s.chars().collect();
        let k = space_end(&chars, 0);
        let yes = 0 < k
            && stands_at(&chars, "at", k)
            && k + 2 < chars.len()
            && chars[k + 2].is_whitespace();
        assert_eq!(yes, re.is_match(s), "{:?}", s);
    });
}

#[test]
fn line_numbers_of_jest_match() {
    let parts = [":", "/", "1", ")", "a"];
    compare(JEST_LINE_RE, &parts, 6, "", "", &|s| leftmost(s, jest_line_at));
}

#[test]
fn headers_of_rust_match() {
    let parts = ["---- ", " stdout ----", "a", " ", "\n"];
    compare(RUST_FAILURE_HEADER_RE, &parts, 6, "", "", &header_groups);
}

#[test]
fn panics_of_rust_match() {
    let parts = ["' ", "panicked at ", "(1) ", "a", ":1", ":", "\n"];
    compare(RUST_PANIC_RE, &parts, 4, "thread '", ":1:2:", &panic_groups);
    compare(RUST_PANIC_RE, &parts, 5, "thread 'a' panicked at ", "", &panic_groups);
    compare(RUST_PANIC_RE, &parts, 4, "thread 'a' (1) ", ":3:4:", &panic_groups);
}

#[test]
fn announcements_of_rust_match() {
    let parts = ["Running", " ", "a", "(target/", "\n"];
    compare(RUST_RUNNING_RE, &parts, 6, "", "", &|s| leftmost(s, running_at));
    compare(RUST_RUNNING_RE, &parts, 5, "Running ", " (target/", &|s| leftmost(s, running_at));
}

#[test]
fn digits_of_ascii_are_decimal() {
    let re = Regex::new(DIGIT_RE).unwrap();
    for n in 0..128_u32 {
        let c = char::from_u32(n).unwrap();
        assert_eq!(re.is_match(&c.to_string()), c.is_ascii_digit());
    }
    assert!(re.is_match("٣"));
    assert!(!re.is_match("½"));
}
