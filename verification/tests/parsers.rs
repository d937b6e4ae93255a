//! Reading test errors from logs.
use gh_logs_grab::parsers::jest::{self, JestFailure, JestLine};
use gh_logs_grab::parsers::pytest::{self, PytestFailure, PytestLine};
use gh_logs_grab::parsers::rust_test::{self, extract_error_type, RustLine, RustPanic};
use gh_logs_grab::matching::{group, take_first};
use gh_logs_grab::parsers::{
    all_parsers, strip_ansi, strip_timestamp, JestParser, PytestParser, RustTestParser,
    TestErrorParser,
};

#[test]
fn ansi_sequences_are_removed() {
    assert_eq!(strip_ansi("\u{1b}[31mred\u{1b}[0m and \u{1b}[1;32mgreen\u{1b}[m"), "red and green");
}

#[test]
fn text_without_ansi_sequences_stays() {
    assert_eq!(strip_ansi("plain [31m text"), "plain [31m text");
}

#[test]
fn timestamps_are_removed_from_the_start_of_a_line() {
    assert_eq!(strip_timestamp("2024-01-02T03:04:05.678901Z hello"), "hello");
    assert_eq!(strip_timestamp("2024-01-02T03:04:05.6Z  two"), " two");
}

#[test]
fn lines_without_a_timestamp_stay() {
    assert_eq!(strip_timestamp("at 2024-01-02T03:04:05.678Z hello"), "at 2024-01-02T03:04:05.678Z hello");
    assert_eq!(strip_timestamp("2024-01-02T03:04:05Z hello"), "2024-01-02T03:04:05Z hello");
    assert_eq!(strip_timestamp(""), "");
}

#[test]
fn parsers_run_in_order() {
    let parsers = all_parsers();
    let names: Vec<&str> = parsers.iter().map(|parser| parser.framework()).collect();
    assert_eq!(names, vec!["pytest", "jest", "rust"]);
}

fn groups(texts: &[Option<&str>]) -> Option<Vec<Option<String>>> {
    Some(texts.iter().map(|text| text.map(|text| text.to_string())).collect())
}

#[test]
fn groups_of_a_match_are_read() {
    let found = groups(&[Some("all"), Some("one"), None]);
    assert_eq!(take_first(&found).as_deref(), Some("one"));
    assert_eq!(take_first(&groups(&[Some("all")])), None);
    assert_eq!(take_first(&None), None);
    assert_eq!(group(&found.unwrap(), 2), None);
}

#[test]
fn failures_are_read_from_groups() {
    let failure =
        pytest::read_failure(&groups(&[Some("all"), Some("FAILED"), Some("a.py"), Some("E")]));
    let failure = failure.unwrap();
    assert_eq!(failure.test_path, "a.py");
    assert_eq!(failure.error_info, "E");
    assert!(pytest::read_failure(&None).is_none());
    let header = jest::read_failure(&groups(&[Some("all"), Some("webkit"), Some("a.ts")])).unwrap();
    assert_eq!(header.browser.as_deref(), Some("webkit"));
    assert_eq!(header.test_file, "a.ts");
    assert!(jest::read_failure(&None).is_none());
    let panic =
        rust_test::read_panic(&groups(&[Some("all"), Some("t"), Some("a.rs"), Some("3")])).unwrap();
    assert_eq!(panic.file, "a.rs");
    assert_eq!(panic.number, "3");
    assert!(rust_test::read_panic(&None).is_none());
}

// ---------------------------------------------------------------------------
// pytest
// ---------------------------------------------------------------------------

#[test]
fn pytest_reads_a_failure() {
    let log = "FAILED a/b.py::TestA::test_x - ValueError: bad: value\n\
               E   first\n\
               E\n\
               a/b.py:12: ValueError\n\
               \x20   E   second  \n\
               a/c.py:34: in call\n\
               ===== short =====\n\
               E   late\n";
    let errors = PytestParser.parse(log, "Core tests", "Core_tests-failure.log");
    assert_eq!(errors.len(), 1);
    let error = &errors[0];
    assert_eq!(error.framework, "pytest");
    assert_eq!(error.test_file, "a/b.py");
    assert_eq!(error.test_name, "TestA::test_x");
    assert_eq!(error.error_type, "ValueError");
    assert_eq!(error.message, "bad: value");
    assert_eq!(error.line, Some(34));
    assert_eq!(error.occurrences.len(), 1);
    assert_eq!(error.occurrences[0].job, "Core tests");
    assert_eq!(error.occurrences[0].log_file, "Core_tests-failure.log");
    assert_eq!(error.occurrences[0].traceback.as_deref(), Some("first\nsecond"));
}

#[test]
fn pytest_reads_a_failure_without_a_message() {
    let log = "2024-01-02T03:04:05.0Z ERROR tests/x.py - Broken\r\nE   ignored\r\n";
    let errors = PytestParser.parse(log, "j", "l");
    assert_eq!(errors.len(), 1);
    assert_eq!(errors[0].test_file, "tests/x.py");
    assert_eq!(errors[0].test_name, "");
    assert_eq!(errors[0].error_type, "Broken");
    assert_eq!(errors[0].message, "");
    assert_eq!(errors[0].line, None);
    assert_eq!(errors[0].occurrences[0].traceback, None);
}

#[test]
fn pytest_has_an_error_for_each_failure() {
    let log = "FAILED a.py::x - E: 1\nFAILED a.py::y - E: 2\nFAILED a.py::z no dash\nERROR b.py::w - E: 3";
    let errors = PytestParser.parse(log, "j", "l");
    let names: Vec<&str> = errors.iter().map(|error| error.test_name.as_str()).collect();
    assert_eq!(names, vec!["x", "y", "w"]);
}

#[test]
fn pytest_looks_twenty_nine_lines_ahead() {
    let mut near = String::from("FAILED a.py::x - E: m\n");
    for _ in 0..28 {
        near.push_str("filler\n");
    }
    let mut far = near.clone();
    far.push_str("filler\n");
    near.push_str("a.py:7: E\n");
    far.push_str("a.py:7: E\n");
    assert_eq!(PytestParser.parse(&near, "j", "l")[0].line, Some(7));
    assert_eq!(PytestParser.parse(&far, "j", "l")[0].line, None);
}

#[test]
fn pytest_line_numbers_that_do_not_fit_are_left_out() {
    let log = "FAILED a.py::x - E: m\na.py:3: E\na.py:99999999999: E\n";
    assert_eq!(PytestParser.parse(log, "j", "l")[0].line, None);
}

fn pytest_line(text: &str, failure: Option<(&str, &str)>, number: Option<&str>) -> PytestLine {
    PytestLine {
        text: text.to_string(),
        failure: failure.map(|(path, info)| PytestFailure {
            test_path: path.to_string(),
            error_info: info.to_string(),
        }),
        number: number.map(|digits| digits.to_string()),
    }
}

#[test]
fn pytest_errors_follow_from_matched_lines() {
    let lines = vec![
        pytest_line("first", Some(("a.py::t::u", " K : m ")), None),
        pytest_line("  E   why", None, Some("5")),
        pytest_line("FAILED next", None, None),
        pytest_line("E   not mine", None, Some("6")),
    ];
    let errors = pytest::errors_of_lines(&lines, "job", "log");
    assert_eq!(errors.len(), 1);
    assert_eq!(errors[0].test_file, "a.py");
    assert_eq!(errors[0].test_name, "t::u");
    assert_eq!(errors[0].error_type, "K");
    assert_eq!(errors[0].message, "m");
    assert_eq!(errors[0].line, Some(5));
    assert_eq!(errors[0].occurrences[0].traceback.as_deref(), Some("why"));
}

// ---------------------------------------------------------------------------
// Jest
// ---------------------------------------------------------------------------

#[test]
fn jest_reads_an_error_of_a_failed_file() {
    let log = "2024-01-02T03:04:05.1Z \u{1b}[31mFAIL\u{1b}[0m src/a.test.ts\n\
               2024-01-02T03:04:05.1Z   ● suite › works\n\
               2024-01-02T03:04:05.1Z \n\
               2024-01-02T03:04:05.1Z     TypeError: x is not a function\n\
               2024-01-02T03:04:05.1Z       at Object.<anonymous> (src/a.test.ts:12:34)\n\
               2024-01-02T03:04:05.1Z       at run (node_modules/x.js:5:6)\n\
               2024-01-02T03:04:05.1Z Test Suites: 1 failed\n";
    let errors = JestParser.parse(log, "Jest", "Jest-failure.log");
    assert_eq!(errors.len(), 1);
    let error = &errors[0];
    assert_eq!(error.framework, "jest");
    assert_eq!(error.test_file, "src/a.test.ts");
    assert_eq!(error.test_name, "suite › works");
    assert_eq!(error.error_type, "TypeError");
    assert_eq!(error.message, "x is not a function");
    assert_eq!(error.line, Some(12));
    assert_eq!(
        error.occurrences[0].traceback.as_deref(),
        Some("at Object.<anonymous> (src/a.test.ts:12:34)\nat run (node_modules/x.js:5:6)")
    );
}

#[test]
fn jest_names_the_browser() {
    let log = "FAIL browser: chromium src/b.stories.tsx\n  ● story › renders\n\n    no colon here\n";
    let errors = JestParser.parse(log, "j", "l");
    assert_eq!(errors.len(), 1);
    assert_eq!(errors[0].test_name, "story › renders [chromium]");
    assert_eq!(errors[0].error_type, "story › renders");
    assert_eq!(errors[0].message, "no colon here");
    assert_eq!(errors[0].line, None);
    assert_eq!(errors[0].occurrences[0].traceback, None);
}

#[test]
fn jest_records_a_failed_file_without_errors() {
    let log = "FAIL browser: webkit src/c.test.js\nnothing\nFAIL src/d.test.mjs\nPASS src/e.test.js\n";
    let errors = JestParser.parse(log, "j", "l");
    assert_eq!(errors.len(), 2);
    assert_eq!(errors[0].test_file, "src/c.test.js");
    assert_eq!(errors[0].test_name, "(suite) [webkit]");
    assert_eq!(errors[0].error_type, "SuiteFailed");
    assert_eq!(errors[0].message, "");
    assert_eq!(errors[1].test_file, "src/d.test.mjs");
    assert_eq!(errors[1].test_name, "(suite)");
}

#[test]
fn jest_skips_console_output() {
    let log = "FAIL src/f.test.ts\n  ● Console\n\n    console.log hi\n";
    assert!(JestParser.parse(log, "j", "l").is_empty());
}

#[test]
fn jest_reads_several_errors_of_a_file() {
    let log = "FAIL src/g.test.ts\n  ● a\n    E: 1\n  ● b\n    E: 2\nPASS x\n  ● c\n    E: 3\n";
    let errors = JestParser.parse(log, "j", "l");
    let names: Vec<&str> = errors.iter().map(|error| error.test_name.as_str()).collect();
    assert_eq!(names, vec!["a", "b"]);
    let messages: Vec<&str> = errors.iter().map(|error| error.message.as_str()).collect();
    assert_eq!(messages, vec!["1", "2"]);
}

fn jest_line(text: &str) -> JestLine {
    JestLine { text: text.to_string(), failure: None, error: None, is_frame: false, number: None }
}

#[test]
fn jest_errors_follow_from_matched_lines() {
    let mut header = jest_line("head");
    header.failure =
        Some(JestFailure { browser: Some("firefox".to_string()), test_file: "f.ts".to_string() });
    let mut name = jest_line("name");
    name.error = Some(" broken ".to_string());
    let mut frame = jest_line("  at x ");
    frame.is_frame = true;
    frame.number = Some("x".to_string());
    let mut other_frame = jest_line("at y");
    other_frame.is_frame = true;
    other_frame.number = Some("8".to_string());
    let lines = vec![header, name, jest_line("  "), frame, jest_line(" K: m "), other_frame];
    let errors = jest::errors_of_lines(&lines, "job", "log");
    assert_eq!(errors.len(), 1);
    assert_eq!(errors[0].test_file, "f.ts");
    assert_eq!(errors[0].test_name, "broken [firefox]");
    assert_eq!(errors[0].error_type, "K");
    assert_eq!(errors[0].message, "m");
    assert_eq!(errors[0].line, Some(8));
    assert_eq!(errors[0].occurrences[0].traceback.as_deref(), Some("at x\nat y"));
}

// ---------------------------------------------------------------------------
// Rust
// ---------------------------------------------------------------------------

#[test]
fn rust_reads_a_failed_test() {
    let log = "     Running tests/grpc.rs (target/debug/deps/grpc-abc)\n\
               ---- store::works stdout ----\n\
               \n\
               thread 'store::works' (4711) panicked at tests/grpc.rs:42:10:\n\
               called `Result::unwrap()` on an `Err` value: Boom\n\
               stack backtrace:\n\
               \x20  0: std::panicking::begin\n\
               \x20            at /rustc/abc/library/std/src/panicking.rs:1:2\n\
               \x20  1: grpc::store::works\n\
               \x20            at ./tests/grpc.rs:42:10\n\
               \x20  2: core::ops::function::FnOnce::call_once\n\
               note: run with more\n\
               \n\
               failures:\n\
               \x20   store::works\n";
    let errors = RustTestParser.parse(log, "Rust", "Rust-failure.log");
    assert_eq!(errors.len(), 1);
    let error = &errors[0];
    assert_eq!(error.framework, "rust");
    assert_eq!(error.test_file, "tests/grpc.rs");
    assert_eq!(error.test_name, "store::works");
    assert_eq!(error.error_type, "unwrap");
    assert_eq!(error.message, "called `Result::unwrap()` on an `Err` value: Boom");
    assert_eq!(error.line, Some(42));
    assert_eq!(
        error.occurrences[0].traceback.as_deref(),
        Some("1: grpc::store::works at ./tests/grpc.rs:42:10")
    );
}

#[test]
fn rust_errors_have_a_kind() {
    let log = "   Running unittests src/lib.rs (target/debug/deps/x)\n---- t stdout ----\nno panic here\n";
    let errors = RustTestParser.parse(log, "j", "l");
    assert_eq!(errors.len(), 1);
    assert_eq!(errors[0].test_file, "unittests src/lib.rs");
    assert_eq!(errors[0].error_type, "panic");
    assert_eq!(errors[0].message, "");
    assert_eq!(errors[0].line, None);
    assert_eq!(errors[0].occurrences[0].traceback, None);
}

#[test]
fn rust_keeps_all_frames_if_none_is_its_own() {
    let log = "---- t stdout ----\nstack backtrace:\n0: a\n at /rustc/x\n1: core::ops::function\n\nafter\n";
    let errors = RustTestParser.parse(log, "j", "l");
    assert_eq!(
        errors[0].occurrences[0].traceback.as_deref(),
        Some("0: a at /rustc/x\n1: core::ops::function")
    );
}

#[test]
fn rust_reads_several_failed_tests() {
    let log = "---- a stdout ----\nthread 'a' panicked at main.rs:1:2:\nindex out of bounds: 3\n\
               ---- b stdout ----\nthread 'b' panicked at src/b.rs:3:4:\nassertion failed: x\n\
               test result: FAILED\n";
    let errors = RustTestParser.parse(log, "j", "l");
    assert_eq!(errors.len(), 2);
    assert_eq!(errors[0].test_file, "");
    assert_eq!(errors[0].error_type, "index_out_of_bounds");
    assert_eq!(errors[0].line, Some(1));
    assert_eq!(errors[1].test_file, "src/b.rs");
    assert_eq!(errors[1].error_type, "assertion");
}

#[test]
fn error_types_are_told_from_messages() {
    assert_eq!(extract_error_type("called `Result::unwrap()` on an `Err` value: x"), "unwrap");
    assert_eq!(extract_error_type("called `Option::unwrap()` on a `None` value"), "unwrap");
    assert_eq!(extract_error_type("assertion `left == right` failed"), "assertion");
    assert_eq!(extract_error_type("index out of bounds: the len is 3"), "index_out_of_bounds");
    assert_eq!(extract_error_type(" StoreError : gone"), "StoreError");
    assert_eq!(extract_error_type("not a kind: gone"), "panic");
    assert_eq!(extract_error_type("no colon"), "panic");
    assert_eq!(extract_error_type(": nothing before"), "");
    let long = "x".repeat(39);
    assert_eq!(extract_error_type(&format!("{}: m", long)), long);
    assert_eq!(extract_error_type(&format!("{}x: m", long)), "panic");
    let wide = "é".repeat(20);
    assert_eq!(extract_error_type(&format!("{}: m", wide)), "panic");
}

fn rust_line(text: &str) -> RustLine {
    RustLine {
        text: text.to_string(),
        running: None,
        failure: None,
        opens_failure: false,
        panicked: None,
    }
}

#[test]
fn rust_errors_follow_from_matched_lines() {
    let mut running = rust_line("run");
    running.running = Some("tests/a.rs".to_string());
    let mut header = rust_line("head");
    header.failure = Some("mod::t".to_string());
    let mut panic = rust_line("panic");
    panic.panicked = Some(RustPanic { file: "no_path".to_string(), number: "17".to_string() });
    let mut next = rust_line("next");
    next.opens_failure = true;
    let lines =
        vec![running, header, panic, rust_line("  "), rust_line(" Kind: m "), next, rust_line("end")];
    let errors = rust_test::errors_of_lines(&lines, "job", "log");
    assert_eq!(errors.len(), 1);
    assert_eq!(errors[0].test_file, "tests/a.rs");
    assert_eq!(errors[0].test_name, "mod::t");
    assert_eq!(errors[0].error_type, "Kind");
    assert_eq!(errors[0].message, "Kind: m");
    assert_eq!(errors[0].line, Some(17));
}

#[test]
fn errors_name_their_log() {
    let log = "FAILED a.py::x - E: 1\nFAIL src/a.test.ts\n---- t stdout ----\n";
    for parser in all_parsers() {
        let errors = parser.parse(log, "the job", "the log");
        assert_eq!(errors.len(), 1);
        assert_eq!(errors[0].framework, parser.framework());
        assert_eq!(errors[0].occurrences.len(), 1);
        assert_eq!(errors[0].occurrences[0].job, "the job");
        assert_eq!(errors[0].occurrences[0].log_file, "the log");
    }
}

// ---------------------------------------------------------------------------
// What the patterns match
// ---------------------------------------------------------------------------

fn styles_removed(text: &[char]) -> String {
    let mut result = String::new();
    let mut i = 0;
    while i < text.len() {
        let mut end = None;
        if text[i] == '\x1b' && i + 1 < text.len() && text[i + 1] == '[' {
            let mut m = i + 2;
            while m < text.len() && (text[m].is_ascii_digit() || text[m] == ';') {
                m += 1;
            }
            if m < text.len() && text[m] == 'm' {
                end = Some(m + 1);
            }
        }
        match end {
            Some(next) => i = next,
            None => {
                result.push(text[i]);
                i += 1;
            }
        }
    }
    result
}

#[test]
fn styles_are_escapes_with_numbers() {
    let alphabet = ['\x1b', '[', '1', ';', 'm', 'x', '٣'];
    let mut texts: Vec<Vec<char>> = vec![vec![]];
    for _ in 0..5 {
        let longer: Vec<Vec<char>> = texts
            .iter()
            .flat_map(|text| {
                alphabet.iter().map(move |&c| {
                    let mut next = text.clone();
                    next.push(c);
                    next
                })
            })
            .collect();
        texts = longer;
        for text in &texts {
            let whole: String = text.iter().collect();
            assert_eq!(strip_ansi(&whole), styles_removed(text), "{:?}", whole);
        }
    }
    assert_eq!(strip_ansi("\x1b[\x1b[0m0m"), "\x1b[0m");
    assert_eq!(strip_ansi("\x1b[31"), "\x1b[31");
}

#[test]
fn one_timestamp_is_removed() {
    let stamp = "2024-01-02T03:04:05.678Z";
    for rest in ["", "x", " x", "2024-01-02T03:04:05.6Z y", "\tz", "é"] {
        assert_eq!(strip_timestamp(&format!("{} {}", stamp, rest)), rest);
    }
    assert_eq!(strip_timestamp(&format!("{}x", stamp)), "x");
    assert_eq!(strip_timestamp(&format!("{}\u{3000}x", stamp)), "x");
    assert_eq!(strip_timestamp("٢٠٢٤-٠١-٠٢T٠٣:٠٤:٠٥.٦Z x"), "x");
}

#[test]
fn timestamps_have_one_form() {
    let stamp: Vec<char> = "2024-01-02T03:04:05.678Z".chars().collect();
    for place in 0..stamp.len() {
        for c in ['7', '-', 'T', ':', '.', 'Z', ' ', 'a', 'é', '½', '²', '٣'] {
            let mut changed = stamp.clone();
            changed[place] = c;
            let is_digit = |c: char| c.is_ascii_digit() || c == '٣';
            let fits = if stamp[place].is_ascii_digit() {
                is_digit(c) || (c == 'Z' && place > 20)
            } else {
                c == stamp[place]
            };
            let line: String = changed.iter().collect::<String>() + " rest";
            let expected: String = if !fits {
                line.clone()
            } else if c == 'Z' && place > 20 && place < stamp.len() - 1 {
                line.chars().skip(place + 1).collect()
            } else {
                "rest".to_string()
            };
            assert_eq!(strip_timestamp(&line), expected, "{:?}", line);
        }
        let shorter: String =
            stamp.iter().enumerate().filter(|(i, _)| *i != place).map(|(_, c)| *c).collect();
        let line = shorter + " rest";
        let expected = if (20..23).contains(&place) { "rest" } else { line.as_str() };
        assert_eq!(strip_timestamp(&line), expected);
    }
}

#[test]
fn rust_headers_are_matched_whole() {
    let names = |log: &str| -> Vec<String> {
        RustTestParser.parse(log, "j", "l").into_iter().map(|error| error.test_name).collect()
    };
    assert_eq!(names("---- a stdout ----"), vec!["a"]);
    assert_eq!(names("---- a b stdout ----"), vec!["a b"]);
    assert_eq!(names("---- a stdout ---- stdout ----"), vec!["a stdout ----"]);
    assert_eq!(names("----   stdout ----"), vec![" "]);
    for line in [
        "----  stdout ----",
        "---- stdout ----",
        " ---- a stdout ----",
        "---- a stdout ---- ",
        "---- a stdout ----x",
        "--- a stdout ----",
        "---- a stderr ----",
    ] {
        assert!(names(line).is_empty(), "{:?}", line);
    }
}

#[test]
fn rust_logs_have_an_error_for_each_header() {
    let log = "---- a stdout ----\n\
               ---- b stdout ----\n\
               Running x (target/ y\n\
               noise\n\
               ---- Running z (target/ stdout ----\n\
               failures:\n\
               ---- a stdout ----\n";
    let errors = RustTestParser.parse(log, "j", "l");
    let names: Vec<&str> = errors.iter().map(|error| error.test_name.as_str()).collect();
    assert_eq!(names, vec!["a", "b", "a"]);
    let after_end = "---- a stdout ----\nfailures:\n---- Running z (target/ stdout ----\n";
    assert_eq!(RustTestParser.parse(after_end, "j", "l").len(), 1);
}

#[test]
fn jest_errors_are_of_test_files() {
    for extension in ["ts", "tsx", "js", "jsx", "mjs", "cjs"] {
        let errors = JestParser.parse(&format!("FAIL  src/a.test.{}", extension), "j", "l");
        assert_eq!(errors.len(), 1);
        assert_eq!(errors[0].test_file, format!("src/a.test.{}", extension));
    }
    assert!(JestParser.parse("FAIL src/a.py\nFAIL .ts\nFAIL\n", "j", "l").is_empty());
    assert!(JestParser.parse("fail src/a.ts\n  ● x\n", "j", "l").is_empty());
    let cut_short = JestParser.parse("FAIL src/a.tsz b", "j", "l");
    assert_eq!(cut_short[0].test_file, "src/a.ts");
}

#[test]
fn pytest_paths_hold_no_white_space() {
    let errors = PytestParser.parse("xFAILED a.py::b  -  K: m\nERROR\tc.py\t-\tK", "j", "l");
    assert_eq!(errors.len(), 2);
    assert_eq!(errors[0].test_file, "a.py");
    assert_eq!(errors[0].test_name, "b");
    assert_eq!(errors[1].test_file, "c.py");
    assert!(PytestParser.parse("failed a.py - K: m\nPASSED b.py - K", "j", "l").is_empty());
    assert!(PytestParser.parse("FAILED a b - K: m", "j", "l").is_empty());
}

#[test]
fn names_change_the_places_only() {
    let log = "FAILED a.py::x - E: 1\nE   why\nFAIL src/a.test.ts\n  ● t\n    K: m\n---- t stdout ----\n";
    for parser in all_parsers() {
        let some = parser.parse(log, "job", "log");
        let others = parser.parse(log, "other job", "other log");
        assert_eq!(some.len(), others.len());
        for (a, b) in some.iter().zip(&others) {
            assert_eq!(b.occurrences[0].job, "other job");
            assert_eq!(b.occurrences[0].log_file, "other log");
            let mut again = b.clone();
            again.occurrences[0].job = "job".to_string();
            again.occurrences[0].log_file = "log".to_string();
            assert_eq!(format!("{:?}", a), format!("{:?}", again));
        }
    }
}
