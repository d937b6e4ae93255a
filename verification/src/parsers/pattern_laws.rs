//! What the lines look like that the readers understand.
use super::jest_laws::{failed_file, named_error};
use super::laws::law_styles_are_removed;
use super::pytest_laws::{failed_test, gives_number, number_on};
use super::rust_laws::{announced, panic_on};
use super::{jest, jest_laws, pytest, rust_test, without_ansi};
use crate::number::{is_digit, parsed_u32};
use crate::patterns::{
    binary_end, decimals_end, decimals_start, ends_style, extension_end, file_end, file_end_before,
    has_extension, is_decimal, is_frame_text, is_test_file, is_unspaced, jest_error_at,
    jest_header_at, jest_line_at, leftmost, line_number_at, not_decimal, not_spaces, panic_from,
    panic_tail, panicked_from, pytest_at, pytest_with, running_at, space_end, spaces, time_end,
    word_end, Groups,
};
use crate::seqs::{lemma_next_where, lemma_next_where_is};
use crate::text::{is_space, lemma_found_from, mentions, occurs_at, trimmed};
use crate::text_laws::{is_white, law_trimming_leaves_the_middle};
use vstd::prelude::*;

verus! {

/// Whether `s` holds nothing but the digits `0` to `9`.
pub open spec fn all_digits(s: Seq<char>) -> bool {
    forall|i: int| 0 <= i < s.len() ==> is_digit(#[trigger] s[i])
}

/// The leftmost match starts at `p` if one starts there and none before it.
proof fn lemma_leftmost_is(s: Seq<char>, at: spec_fn(int) -> Option<Groups>, i: int, p: int)
    requires
        0 <= i <= p < s.len(),
        at(p) is Some,
        forall|j: int| i <= j < p ==> (#[trigger] at(j)) is None,
    ensures
        leftmost(s, at, i) == at(p),
    decreases p - i,
{
    if i < p {
        lemma_leftmost_is(s, at, i + 1, p);
    }
}

// ---------------------------------------------------------------------------
// Times and styles
// ---------------------------------------------------------------------------

/// A date and a time of day with a fraction, in universal time, is a time.
pub proof fn law_times_are_dates_and_times_of_day(
    year: Seq<char>,
    month: Seq<char>,
    day: Seq<char>,
    hour: Seq<char>,
    minute: Seq<char>,
    second: Seq<char>,
    fraction: Seq<char>,
)
    requires
        all_digits(year) && year.len() == 4,
        all_digits(month) && month.len() == 2,
        all_digits(day) && day.len() == 2,
        all_digits(hour) && hour.len() == 2,
        all_digits(minute) && minute.len() == 2,
        all_digits(second) && second.len() == 2,
        all_digits(fraction) && fraction.len() > 0,
    ensures
        ({
            let stamp = year + seq!['-'] + month + seq!['-'] + day + seq!['T'] + hour + seq![':']
                + minute + seq![':'] + second + seq!['.'] + fraction + seq!['Z'];
            time_end(stamp) == Some(stamp.len() as int)
        }),
{
    let stamp = year + seq!['-'] + month + seq!['-'] + day + seq!['T'] + hour + seq![':'] + minute
        + seq![':'] + second + seq!['.'] + fraction + seq!['Z'];
    let z = 20 + fraction.len() as int;
    assert forall|i: int| 0 <= i < 4 implies is_decimal(#[trigger] stamp[i]) by {
        assert(stamp[i] == year[i]);
    }
    assert forall|i: int| 5 <= i < 7 implies is_decimal(#[trigger] stamp[i]) by {
        assert(stamp[i] == month[i - 5]);
    }
    assert forall|i: int| 8 <= i < 10 implies is_decimal(#[trigger] stamp[i]) by {
        assert(stamp[i] == day[i - 8]);
    }
    assert forall|i: int| 11 <= i < 13 implies is_decimal(#[trigger] stamp[i]) by {
        assert(stamp[i] == hour[i - 11]);
    }
    assert forall|i: int| 14 <= i < 16 implies is_decimal(#[trigger] stamp[i]) by {
        assert(stamp[i] == minute[i - 14]);
    }
    assert forall|i: int| 17 <= i < 19 implies is_decimal(#[trigger] stamp[i]) by {
        assert(stamp[i] == second[i - 17]);
    }
    assert forall|i: int| 20 <= i < z implies !not_decimal()(#[trigger] stamp[i]) by {
        assert(stamp[i] == fraction[i - 20]);
    }
    assert(stamp[z] == 'Z');
    assert(not_decimal()(stamp[z]));
    lemma_next_where_is(stamp, not_decimal(), 20, z);
}

/// An escape, a bracket, numbers with semicolons and an `m` are a style sequence, which is removed,
/// whatever follows it.
pub proof fn law_numbers_make_a_style(numbers: Seq<char>, rest: Seq<char>)
    requires
        forall|i: int|
            0 <= i < numbers.len() ==> is_digit(#[trigger] numbers[i]) || numbers[i] == ';',
    ensures
        without_ansi(seq!['\x1b', '['] + numbers + seq!['m'] + rest) == without_ansi(rest),
{
    let style = seq!['\x1b', '['] + numbers + seq!['m'];
    let k = 2 + numbers.len() as int;
    assert forall|i: int| 2 <= i < k implies !ends_style()(#[trigger] style[i]) by {
        assert(style[i] == numbers[i - 2]);
    }
    assert(style[k] == 'm');
    assert(ends_style()(style[k]));
    lemma_next_where_is(style, ends_style(), 2, k);
    law_styles_are_removed(style, rest);
}

// ---------------------------------------------------------------------------
// Rust
// ---------------------------------------------------------------------------

/// Digits that reach back to a colon start behind it.
proof fn lemma_digits_start(s: Seq<char>, from: int, to: int)
    requires
        0 < from <= to <= s.len(),
        forall|i: int| from <= i < to ==> is_decimal(#[trigger] s[i]),
        s[from - 1] == ':',
    ensures
        decimals_start(s, to) == from,
    decreases to - from,
{
    if from < to {
        lemma_digits_start(s, from, to - 1);
    }
}

/// A line reports a panic if it names the thread, the file, the line and the column.
pub proof fn law_panics_are_reported(
    before: Seq<char>,
    thread: Seq<char>,
    file: Seq<char>,
    line: Seq<char>,
    column: Seq<char>,
    behind: Seq<char>,
)
    requires
        is_white(before),
        is_white(behind),
        thread.len() > 0 && !thread.contains('\'') && !thread.contains('\n'),
        file.len() > 0 && !file.contains('\n'),
        all_digits(line) && line.len() > 0,
        all_digits(column) && column.len() > 0,
    ensures
        panic_on(
            before + ("thread '"@ + thread + "' panicked at "@ + file + ":"@ + line + ":"@ + column
                + ":"@) + behind,
        ) == Some(rust_test::RustPanicModel { file, number: line }),
{
    reveal_strlit("thread '");
    reveal_strlit("' panicked at ");
    reveal_strlit("panicked at ");
    reveal_strlit("' ");
    reveal_strlit("(");
    reveal_strlit(":");
    let s = "thread '"@ + thread + "' panicked at "@ + file + ":"@ + line + ":"@ + column + ":"@;
    let e = 8 + thread.len() as int;
    let a = e + 2;
    let f = a + 12;
    let colon = f + file.len() as int;
    let y = colon + 1 + line.len() as int;
    let z = y + 1 + column.len() as int;
    assert(s.len() == z + 1);
    assert(s[0] == 't' && s[z] == ':' && s[colon] == ':' && s[y] == ':');
    law_trimming_leaves_the_middle(before, s, behind);
    assert forall|i: int| y + 1 <= i < z implies is_decimal(#[trigger] s[i]) by {
        assert(s[i] == column[i - y - 1]);
    }
    assert forall|i: int| colon + 1 <= i < y implies is_decimal(#[trigger] s[i]) by {
        assert(s[i] == line[i - colon - 1]);
    }
    lemma_digits_start(s, y + 1, z);
    lemma_digits_start(s, colon + 1, y);
    assert(panic_tail(s) == Some((colon, y)));
    assert(s.subrange(0, 8) =~= "thread '"@);
    assert(s.subrange(e, e + 2) =~= "' "@);
    assert(s.subrange(a, a + 12) =~= "panicked at "@);
    assert(s[a] == 'p');
    assert(s.subrange(a, a + 1)[0] == 'p');
    assert(!occurs_at(s, "("@, a));
    assert(panicked_from(s, e) == a);
    assert(s.subrange(f, colon) =~= file);
    assert(s.subrange(colon + 1, y) =~= line);
    lemma_thread(s, thread, e, 9);
    assert(s[e - 1] == thread.last());
    assert(thread.contains(thread.last()));
}

/// The name of a thread ends at its first quote.
proof fn lemma_thread(s: Seq<char>, thread: Seq<char>, e: int, i: int)
    requires
        "thread '"@.len() == 8,
        "' "@.len() == 2 && "' "@[0] == '\'',
        9 <= i <= e == 8 + thread.len(),
        e < s.len(),
        forall|j: int| 0 <= j < thread.len() ==> s[8 + j] == #[trigger] thread[j],
        !thread.contains('\'') && !thread.contains('\n'),
    ensures
        panic_from(s, i) == panic_from(s, e),
    decreases e - i,
{
    if i < e {
        lemma_thread(s, thread, e, i + 1);
        assert(s[i] == thread[i - 8]);
        assert(thread.contains(thread[i - 8]));
        assert(s[i - 1] == thread[i - 9]);
        assert(thread.contains(thread[i - 9]));
        assert(!occurs_at(s, "' "@, i)) by {
            if occurs_at(s, "' "@, i) {
                assert(s.subrange(i, i + 2)[0] == s[i]);
            }
        }
    }
}

/// A line announces a test binary if it says that it is running it and where it was built.
pub proof fn law_test_binaries_are_announced(
    before: Seq<char>,
    name: Seq<char>,
    behind: Seq<char>,
)
    requires
        is_white(before),
        name.len() > 0 && !is_space(name[0]) && !is_space(name.last()),
        !name.contains('\n'),
        !mentions(name, "(target/"@),
    ensures
        announced(before + "Running "@ + name + " (target/"@ + behind) == Some(name),
{
    reveal_strlit("Running ");
    reveal_strlit("Running");
    reveal_strlit(" (target/");
    reveal_strlit("(target/");
    let s = before + "Running "@ + name + " (target/"@ + behind;
    let p = before.len() as int;
    let j = p + 8;
    let g = j + name.len() as int;
    let at = |q: int| running_at(s, q);
    assert(s.subrange(p, p + 7) =~= "Running"@);
    assert(s[p + 7] == ' ');
    assert(s[j] == name[0]);
    assert(spaces_run(s, p + 7, j));
    lemma_space_end(s, p + 7, j);
    assert(s[g] == ' ' && s[g + 1] == '(');
    lemma_space_end(s, g, g + 1);
    assert(s.subrange(g + 1, g + 9) =~= "(target/"@);
    assert(occurs_at(s, "(target/"@, g + 1));
    assert forall|i: int| 0 <= i < name.len() implies s[j + i] == #[trigger] name[i] by {}
    lemma_binary(s, name, j, g, j);
    assert(s.subrange(j, g) =~= name);
    assert forall|q: int| 0 <= q < p implies (#[trigger] at(q)) is None by {
        if occurs_at(s, "Running"@, q) {
            assert(s.subrange(q, q + 7)[0] == s[q]);
            assert(s[q] == before[q]);
            assert(is_space(before[q]));
        }
    }
    assert(at(p) is Some);
    lemma_leftmost_is(s, at, 0, p);
}

/// Whether there is white space from `i` up to `k`, and no more.
spec fn spaces_run(s: Seq<char>, i: int, k: int) -> bool {
    &&& 0 <= i <= k < s.len()
    &&& forall|l: int| i <= l < k ==> is_space(#[trigger] s[l])
    &&& !is_space(s[k])
}

proof fn lemma_space_end(s: Seq<char>, i: int, k: int)
    requires
        spaces_run(s, i, k),
    ensures
        space_end(s, i) == k,
{
    assert forall|l: int| i <= l < k implies !not_spaces()(#[trigger] s[l]) by {}
    assert(not_spaces()(s[k]));
    lemma_next_where_is(s, not_spaces(), i, k);
}

/// The name of a test binary ends before the first directory.
proof fn lemma_binary(s: Seq<char>, name: Seq<char>, j: int, g: int, i: int)
    requires
        0 <= j <= i <= g == j + name.len(),
        g + 9 <= s.len(),
        name.len() > 0 && !is_space(name.last()),
        !name.contains('\n'),
        !mentions(name, "(target/"@),
        forall|k: int| 0 <= k < name.len() ==> s[j + k] == #[trigger] name[k],
        is_space(s[g]),
        space_end(s, g) == g + 1,
        occurs_at(s, "(target/"@, g + 1),
    ensures
        binary_end(s, j, i) == Some(g),
    decreases g - i,
{
    reveal_strlit("(target/");
    if i < g {
        lemma_binary(s, name, j, g, i + 1);
        assert(s[i] == name[i - j]);
        assert(name.contains(name[i - j]));
        let k = space_end(s, i);
        lemma_next_where(s, not_spaces(), i);
        if is_space(s[i]) && occurs_at(s, "(target/"@, k) {
            assert(k < g) by {
                if g <= k {
                    assert(s[g - 1] == name[g - 1 - j]);
                    assert(!not_spaces()(s[g - 1]));
                }
            }
            let word = s.subrange(k, k + 8);
            assert(word == "(target/"@);
            assert(k + 8 <= g) by {
                if g < k + 8 {
                    assert(word[g - k] == s[g]);
                    assert(!is_space("(target/"@[g - k]));
                }
            }
            assert(name.subrange(k - j, k - j + 8) =~= word) by {
                assert forall|l: int| 0 <= l < 8 implies name[k - j + l] == #[trigger] word[l] by {
                    assert(s[j + (k - j + l)] == name[k - j + l]);
                }
            }
            assert(occurs_at(name, "(target/"@, k - j));
            lemma_found_from(name, "(target/"@, 0);
        }
    }
}

// ---------------------------------------------------------------------------
// Jest
// ---------------------------------------------------------------------------

/// What follows a bullet and a space is the name of an error.
pub proof fn law_bullets_name_errors(before: Seq<char>, name: Seq<char>)
    requires
        !before.contains('●'),
        name.len() > 0 && !is_space(name[0]),
        !name.contains('\n'),
    ensures
        named_error(before + seq!['●', ' '] + name) == Some(trimmed(name)),
{
    let s = before + seq!['●', ' '] + name;
    let p = before.len() as int;
    let at = |q: int| jest_error_at(s, q);
    assert(s[p] == '●' && s[p + 1] == ' ' && s[p + 2] == name[0]);
    assert(spaces_run(s, p + 1, p + 2));
    lemma_space_end(s, p + 1, p + 2);
    assert(s.skip(p + 2) =~= name);
    assert forall|q: int| 0 <= q < p implies (#[trigger] at(q)) is None by {
        assert(s[q] == before[q]);
        assert(before.contains(before[q]));
    }
    assert(at(p) is Some);
    lemma_leftmost_is(s, at, 0, p);
}

/// The dot of an extension is found.
proof fn lemma_extension_found(s: Seq<char>, k: int, file: Seq<char>, d: int)
    requires
        0 <= k,
        k + file.len() <= s.len(),
        s.subrange(k, k + file.len()) == file,
        k + file.len() == s.len() || is_space(s[k + file.len()]),
        is_test_file(file),
        k + file.len() - 4 <= d < k + file.len(),
        extension_length(file) <= k + file.len() - d ==> d == k + file.len() - extension_length(file),
    ensures
        file_end_before(s, k, d) == Some(k + file.len()) || extension_length(file) > k + file.len()
            - d,
        extension_length(file) > k + file.len() - d ==> extension_end(s, d) is None,
{
    let end = k + file.len() as int;
    let n = extension_length(file);
    reveal_strlit(".tsx");
    reveal_strlit(".jsx");
    reveal_strlit(".mjs");
    reveal_strlit(".cjs");
    reveal_strlit(".ts");
    reveal_strlit(".js");
    lemma_extension_length(file);
    assert forall|i: int| 0 <= i < file.len() implies s[k + i] == #[trigger] file[i] by {
        assert(s.subrange(k, end)[i] == s[k + i]);
    }
    let dot = end - n;
    assert(s[dot] == '.' && forall|i: int| dot < i < end ==> s[i] != '.') by {
        assert(s[dot] == file[file.len() - n]);
        assert forall|i: int| dot < i < end implies s[i] != '.' by {
            assert(s[k + (i - k)] == file[i - k]);
        }
    }
    lemma_occurs(s, ".tsx"@, d);
    lemma_occurs(s, ".jsx"@, d);
    lemma_occurs(s, ".mjs"@, d);
    lemma_occurs(s, ".cjs"@, d);
    lemma_occurs(s, ".ts"@, d);
    lemma_occurs(s, ".js"@, d);
    assert(".tsx"@[0] == '.' && ".tsx"@[1] == 't' && ".tsx"@[2] == 's' && ".tsx"@[3] == 'x');
    assert(".jsx"@[0] == '.' && ".jsx"@[1] == 'j' && ".jsx"@[2] == 's' && ".jsx"@[3] == 'x');
    assert(".mjs"@[0] == '.' && ".mjs"@[1] == 'm' && ".mjs"@[2] == 'j' && ".mjs"@[3] == 's');
    assert(".cjs"@[0] == '.' && ".cjs"@[1] == 'c' && ".cjs"@[2] == 'j' && ".cjs"@[3] == 's');
    assert(".ts"@[0] == '.' && ".ts"@[1] == 't' && ".ts"@[2] == 's');
    assert(".js"@[0] == '.' && ".js"@[1] == 'j' && ".js"@[2] == 's');
    if d == dot {
        let rest = file.skip(file.len() - n);
        assert(rest[1] == file[file.len() - n + 1] && rest[2] == file[file.len() - n + 2]);
        if n == 4 {
            assert(rest[3] == file[file.len() - n + 3]);
        }
        assert(s[dot + 1] == file[file.len() - n + 1]);
        assert(s[dot + 2] == file[file.len() - n + 2]);
        if n == 4 {
            assert(s[dot + 3] == file[file.len() - n + 3]);
        }
        assert(extension_end(s, d) == Some(end));
    }
}

/// A pattern stands where its characters do.
proof fn lemma_occurs(s: Seq<char>, pattern: Seq<char>, d: int)
    requires
        0 <= d,
    ensures
        occurs_at(s, pattern, d) <==> d + pattern.len() <= s.len() && forall|i: int|
            0 <= i < pattern.len() ==> s[d + i] == #[trigger] pattern[i],
{
    if d + pattern.len() <= s.len() {
        let part = s.subrange(d, d + pattern.len());
        if forall|i: int| 0 <= i < pattern.len() ==> s[d + i] == #[trigger] pattern[i] {
            assert(part =~= pattern);
        }
        if part == pattern {
            assert forall|i: int| 0 <= i < pattern.len() implies s[d + i] == #[trigger] pattern[
            i] by {
                assert(part[i] == s[d + i]);
            }
        }
    }
}

/// How long the extension of a test file is.
spec fn extension_length(file: Seq<char>) -> int {
    if file.len() >= 3 && file[file.len() - 3] == '.' {
        3
    } else {
        4
    }
}

proof fn lemma_extension_length(file: Seq<char>)
    requires
        is_test_file(file),
    ensures
        ({
            let n = extension_length(file);
            let tail = file.skip(file.len() - n);
            &&& n < file.len()
            &&& tail == ".ts"@ || tail == ".js"@ || tail == ".tsx"@ || tail == ".jsx"@ || tail
                == ".mjs"@ || tail == ".cjs"@
            &&& tail[0] == '.'
            &&& forall|i: int| file.len() - n < i < file.len() ==> file[i] != '.'
            &&& forall|i: int| 0 <= i < n ==> #[trigger] tail[i] == file[file.len() - n + i]
        }),
{
    reveal_strlit(".tsx");
    reveal_strlit(".jsx");
    reveal_strlit(".mjs");
    reveal_strlit(".cjs");
    reveal_strlit(".ts");
    reveal_strlit(".js");
    let l = file.len() as int;
    let ext = if has_extension(file, ".ts"@) {
        ".ts"@
    } else if has_extension(file, ".tsx"@) {
        ".tsx"@
    } else if has_extension(file, ".js"@) {
        ".js"@
    } else if has_extension(file, ".jsx"@) {
        ".jsx"@
    } else if has_extension(file, ".mjs"@) {
        ".mjs"@
    } else {
        ".cjs"@
    };
    assert(has_extension(file, ext));
    let part = file.subrange(l - ext.len(), l);
    assert(part == ext);
    assert forall|i: int| 0 <= i < ext.len() implies file[l - ext.len() + i] == #[trigger] ext[i] by {
        assert(part[i] == file[l - ext.len() + i]);
    }
    assert(file[l - ext.len()] == ext[0]);
    assert(file[l - ext.len() + 1] == ext[1]);
    assert(file[l - ext.len() + 2] == ext[2]);
    if ext.len() == 4 {
        assert(file[l - ext.len() + 3] == ext[3]);
    }
    assert(extension_length(file) == ext.len());
    assert(file.skip(l - ext.len()) =~= part);
}

/// A test file that stands at `k`, up to white space, is found.
proof fn lemma_file_found(s: Seq<char>, k: int, file: Seq<char>)
    requires
        0 <= k,
        k + file.len() <= s.len(),
        s.subrange(k, k + file.len()) == file,
        k + file.len() == s.len() || is_space(s[k + file.len()]),
        is_test_file(file),
    ensures
        file_end(s, k) == Some(k + file.len()),
{
    let end = k + file.len() as int;
    let n = extension_length(file);
    lemma_extension_length(file);
    assert forall|i: int| k <= i < end implies !spaces()(#[trigger] s[i]) by {
        assert(s.subrange(k, end)[i - k] == s[i]);
        assert(!is_space(file[i - k]));
    }
    if end < s.len() {
        assert(spaces()(s[end]));
    }
    lemma_next_where_is(s, spaces(), k, end);
    assert(word_end(s, k) == end);
    lemma_extension_found(s, k, file, end - 1);
    lemma_extension_found(s, k, file, end - 2);
    assert(file_end_before(s, k, end - 1) == file_end_before(s, k, end - 2));
    assert(file_end_before(s, k, end - 2) == file_end_before(s, k, end - 3));
    if n == 4 {
        lemma_extension_found(s, k, file, end - 3);
        assert(file_end_before(s, k, end - 3) == file_end_before(s, k, end - 4));
        lemma_extension_found(s, k, file, end - 4);
    } else {
        lemma_extension_found(s, k, file, end - 3);
    }
}

/// A line that says that a test file failed is the header of that file, without a browser unless it
/// names one.
pub proof fn law_headers_name_test_files(
    before: Seq<char>,
    browser: Seq<char>,
    file: Seq<char>,
    behind: Seq<char>,
)
    requires
        !before.contains('F'),
        is_test_file(file),
        !"browser:"@.is_prefix_of(file),
        browser.len() > 0 && is_unspaced(browser),
        behind.len() == 0 || is_space(behind[0]),
    ensures
        failed_file(before + "FAIL "@ + file + behind) == Some(
            jest::JestFailureModel { browser: None, test_file: file },
        ),
        failed_file(before + "FAIL browser: "@ + browser + " "@ + file + behind) == Some(
            jest::JestFailureModel { browser: Some(browser), test_file: file },
        ),
{
    lemma_plain_header(before, file, behind);
    lemma_browser_header(before, browser, file, behind);
}

proof fn lemma_plain_header(before: Seq<char>, file: Seq<char>, behind: Seq<char>)
    requires
        !before.contains('F'),
        is_test_file(file),
        !"browser:"@.is_prefix_of(file),
        behind.len() == 0 || is_space(behind[0]),
    ensures
        failed_file(before + "FAIL "@ + file + behind) == Some(
            jest::JestFailureModel { browser: None, test_file: file },
        ),
{
    reveal_strlit("FAIL ");
    reveal_strlit("FAIL");
    reveal_strlit("browser:");
    let s = before + "FAIL "@ + file + behind;
    let p = before.len() as int;
    let k = p + 5;
    let end = k + file.len() as int;
    let at = |q: int| jest_header_at(s, q);
    lemma_extension_length(file);
    assert(s.subrange(p, p + 4) =~= "FAIL"@);
    assert(s[p + 4] == ' ' && s[k] == file[0]);
    assert(!is_space(file[0]));
    assert(spaces_run(s, p + 4, k));
    lemma_space_end(s, p + 4, k);
    assert(s.subrange(k, end) =~= file);
    if end < s.len() {
        assert(s[end] == behind[0]);
    }
    lemma_file_found(s, k, file);
    assert(!occurs_at(s, "browser:"@, k)) by {
        if occurs_at(s, "browser:"@, k) {
            let word = s.subrange(k, k + 8);
            assert(word == "browser:"@);
            if end < k + 8 {
                assert(word[end - k] == s[end]);
                assert(!is_space("browser:"@[end - k]));
            } else {
                assert(file.subrange(0, 8) =~= word);
            }
        }
    }
    lemma_no_header_before(s, before);
    assert(at(p) is Some);
    lemma_leftmost_is(s, at, 0, p);
}

/// No header starts before the first `F`.
proof fn lemma_no_header_before(s: Seq<char>, before: Seq<char>)
    requires
        !before.contains('F'),
        before.len() <= s.len(),
        forall|i: int| 0 <= i < before.len() ==> s[i] == #[trigger] before[i],
    ensures
        ({
            let at = |q: int| jest_header_at(s, q);
            forall|q: int| 0 <= q < before.len() ==> (#[trigger] at(q)) is None
        }),
{
    reveal_strlit("FAIL");
    let at = |q: int| jest_header_at(s, q);
    assert forall|q: int| 0 <= q < before.len() implies (#[trigger] at(q)) is None by {
        assert(s[q] == before[q]);
        assert(before.contains(before[q]));
        if occurs_at(s, "FAIL"@, q) {
            assert(s.subrange(q, q + 4)[0] == s[q]);
        }
    }
}

proof fn lemma_browser_header(
    before: Seq<char>,
    browser: Seq<char>,
    file: Seq<char>,
    behind: Seq<char>,
)
    requires
        !before.contains('F'),
        is_test_file(file),
        browser.len() > 0 && is_unspaced(browser),
        behind.len() == 0 || is_space(behind[0]),
    ensures
        failed_file(before + "FAIL browser: "@ + browser + " "@ + file + behind) == Some(
            jest::JestFailureModel { browser: Some(browser), test_file: file },
        ),
{
    reveal_strlit("FAIL browser: ");
    reveal_strlit("FAIL");
    reveal_strlit("browser:");
    reveal_strlit(" ");
    let s = before + "FAIL browser: "@ + browser + " "@ + file + behind;
    let p = before.len() as int;
    let k = p + 5;
    let m = k + 9;
    let r = m + browser.len() as int;
    let t = r + 1;
    let end = t + file.len() as int;
    let at = |q: int| jest_header_at(s, q);
    lemma_extension_length(file);
    assert(s.subrange(p, p + 4) =~= "FAIL"@);
    assert(s.subrange(k, k + 8) =~= "browser:"@);
    assert(s[p + 4] == ' ' && s[k] == 'b' && s[k + 8] == ' ' && s[m] == browser[0] && s[r] == ' '
        && s[t] == file[0]);
    assert(!is_space(browser[0]) && !is_space(file[0]));
    assert(spaces_run(s, p + 4, k));
    lemma_space_end(s, p + 4, k);
    assert(spaces_run(s, k + 8, m));
    lemma_space_end(s, k + 8, m);
    assert forall|i: int| m <= i < r implies !spaces()(#[trigger] s[i]) by {
        assert(s[i] == browser[i - m]);
    }
    assert(spaces()(s[r]));
    lemma_next_where_is(s, spaces(), m, r);
    assert(spaces_run(s, r, t));
    lemma_space_end(s, r, t);
    assert(s.subrange(t, end) =~= file);
    assert(s.subrange(m, r) =~= browser);
    if end < s.len() {
        assert(s[end] == behind[0]);
    }
    lemma_file_found(s, t, file);
    lemma_no_header_before(s, before);
    assert(at(p) is Some);
    lemma_leftmost_is(s, at, 0, p);
}

/// Where digits end.
proof fn lemma_digits_end(s: Seq<char>, from: int, to: int)
    requires
        0 <= from <= to <= s.len(),
        forall|i: int| from <= i < to ==> is_decimal(#[trigger] s[i]),
        to == s.len() || !is_decimal(s[to]),
    ensures
        decimals_end(s, from) == to,
{
    assert forall|i: int| from <= i < to implies !not_decimal()(#[trigger] s[i]) by {}
    if to < s.len() {
        assert(not_decimal()(s[to]));
    }
    lemma_next_where_is(s, not_decimal(), from, to);
}

/// A stack frame that ends with a line and a column, in a bracket or not, gives the line.
pub proof fn law_frames_give_their_line(
    before: Seq<char>,
    place: Seq<char>,
    line: Seq<char>,
    column: Seq<char>,
    closed: bool,
)
    requires
        before.len() > 0 && is_white(before),
        all_digits(line) && line.len() > 0,
        all_digits(column) && column.len() > 0,
    ensures
        ({
            let text = before + ("at "@ + place + ":"@ + line + ":"@ + column + if closed {
                ")"@
            } else {
                Seq::<char>::empty()
            });
            is_frame_text(text) && jest_laws::number_on(text) == parsed_u32(line)
        }),
{
    reveal_strlit("at ");
    reveal_strlit("at");
    reveal_strlit(":");
    reveal_strlit(")");
    let tail = if closed {
        ")"@
    } else {
        Seq::<char>::empty()
    };
    let s = "at "@ + place + ":"@ + line + ":"@ + column + tail;
    let text = before + s;
    let k = before.len() as int;
    let p = 3 + place.len() as int;
    let y = p + 1 + line.len() as int;
    let z = y + 1 + column.len() as int;
    let at = |q: int| jest_line_at(s, q);
    assert(s[0] == 'a' && s[p] == ':' && s[y] == ':');
    assert(text[k] == 'a' && text[k + 2] == ' ');
    assert(text.subrange(k, k + 2) =~= "at"@);
    assert forall|l: int| 0 <= l < k implies is_space(#[trigger] text[l]) by {
        assert(text[l] == before[l]);
    }
    assert(spaces_run(text, 0, k));
    lemma_space_end(text, 0, k);
    assert forall|i: int| y + 1 <= i < z implies is_decimal(#[trigger] s[i]) by {
        assert(s[i] == column[i - y - 1]);
    }
    assert forall|i: int| p + 1 <= i < y implies is_decimal(#[trigger] s[i]) by {
        assert(s[i] == line[i - p - 1]);
    }
    if closed {
        assert(s[z] == ')' && s.last() == ')');
    } else {
        assert(s.last() == column.last());
        assert(is_digit(column[column.len() - 1]));
    }
    assert(is_white(Seq::<char>::empty()));
    law_trimming_leaves_the_middle(before, s, Seq::<char>::empty());
    assert(before + s + Seq::<char>::empty() =~= text);
    lemma_digits_end(s, y + 1, z);
    lemma_digits_end(s, p + 1, y);
    assert(s.subrange(p + 1, y) =~= line);
    assert forall|q: int| 0 <= q < p implies (#[trigger] at(q)) is None by {
        let e = decimals_end(s, q + 1);
        lemma_next_where(s, not_decimal(), q + 1);
        assert(e <= p) by {
            if p < e {
                assert(!not_decimal()(s[p]));
            }
        }
        if e == p {
            assert(decimals_end(s, p + 1) == y);
        } else {
            let r = decimals_end(s, e + 1);
            lemma_next_where(s, not_decimal(), e + 1);
            assert(r <= p) by {
                if p < r {
                    assert(!not_decimal()(s[p]));
                }
            }
        }
    }
    assert(at(p) is Some);
    lemma_leftmost_is(s, at, 0, p);
}

// ---------------------------------------------------------------------------
// pytest
// ---------------------------------------------------------------------------

/// A line of the short summary names a failed test behind the word, and what is said of it behind a
/// hyphen.
pub proof fn law_summary_lines_name_tests(
    before: Seq<char>,
    word: Seq<char>,
    path: Seq<char>,
    info: Seq<char>,
)
    requires
        !before.contains('F') && !before.contains('E'),
        word == "FAILED"@ || word == "ERROR"@,
        path.len() > 0 && is_unspaced(path),
        info.len() > 0 && !is_space(info[0]),
        !info.contains('\n'),
    ensures
        failed_test(before + word + " "@ + path + " - "@ + info) == Some(
            pytest::PytestFailureModel { test_path: path, error_info: info },
        ),
{
    reveal_strlit("FAILED");
    reveal_strlit("ERROR");
    reveal_strlit(" ");
    reveal_strlit(" - ");
    let s = before + word + " "@ + path + " - "@ + info;
    let p = before.len() as int;
    let w = p + word.len() as int;
    let a = w + 1;
    let b = a + path.len() as int;
    let at = |q: int| pytest_at(s, q);
    assert(s.subrange(p, w) =~= word);
    assert(s[w] == ' ');
    assert(s[a] == path[0]);
    assert(spaces_run(s, w, a));
    lemma_space_end(s, w, a);
    assert(s[b] == ' ' && s[b + 1] == '-' && s[b + 2] == ' ' && s[b + 3] == info[0]);
    assert forall|i: int| a <= i < b implies !spaces()(#[trigger] s[i]) by {
        assert(s[i] == path[i - a]);
    }
    assert(spaces()(s[b]));
    lemma_next_where_is(s, spaces(), a, b);
    assert(spaces_run(s, b, b + 1));
    lemma_space_end(s, b, b + 1);
    assert(spaces_run(s, b + 2, b + 3));
    lemma_space_end(s, b + 2, b + 3);
    assert(s.skip(b + 3) =~= info);
    assert(s.subrange(a, b) =~= path);
    assert(pytest_with(s, word, p) is Some);
    if word == "ERROR"@ {
        assert(!occurs_at(s, "FAILED"@, p)) by {
            if occurs_at(s, "FAILED"@, p) {
                assert(s.subrange(p, p + 6)[0] == s[p]);
                assert(s.subrange(p, w)[0] == s[p]);
            }
        }
    }
    assert forall|q: int| 0 <= q < p implies (#[trigger] at(q)) is None by {
        assert(s[q] == before[q]);
        assert(before.contains(before[q]));
        if occurs_at(s, "FAILED"@, q) {
            assert(s.subrange(q, q + 6)[0] == s[q]);
        }
        if occurs_at(s, "ERROR"@, q) {
            assert(s.subrange(q, q + 5)[0] == s[q]);
        }
    }
    assert(at(p) is Some);
    lemma_leftmost_is(s, at, 0, p);
}

/// A line with a place in a Python file gives its line number.
pub proof fn law_python_places_give_their_line(
    before: Seq<char>,
    line: Seq<char>,
    behind: Seq<char>,
)
    requires
        !before.contains(':'),
        all_digits(line) && line.len() > 0,
    ensures
        gives_number(before + ".py:"@ + line + ":"@ + behind),
        number_on(before + ".py:"@ + line + ":"@ + behind) == parsed_u32(line),
{
    reveal_strlit(".py:");
    reveal_strlit(":");
    let s = before + ".py:"@ + line + ":"@ + behind;
    let b = before.len() as int;
    let p = b + 3;
    let q = p + 1 + line.len() as int;
    let at = |i: int| line_number_at(s, i);
    assert(mentions(s, ".py:"@)) by {
        assert(s.subrange(b, b + 4) =~= ".py:"@);
        assert(occurs_at(s, ".py:"@, b));
        lemma_found_from(s, ".py:"@, 0);
    }
    assert(s[p] == ':' && s[q] == ':' && s[b] == '.' && s[b + 1] == 'p' && s[b + 2] == 'y');
    assert forall|i: int| p + 1 <= i < q implies is_decimal(#[trigger] s[i]) by {
        assert(s[i] == line[i - p - 1]);
    }
    lemma_digits_end(s, p + 1, q);
    assert(s.subrange(p + 1, q) =~= line);
    assert forall|i: int| 0 <= i < p implies (#[trigger] at(i)) is None by {
        if i < b {
            assert(s[i] == before[i]);
            assert(before.contains(before[i]));
        }
    }
    assert(at(p) is Some);
    lemma_leftmost_is(s, at, 0, p);
}

} // verus!
