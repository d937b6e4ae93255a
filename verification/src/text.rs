//! Text as sequences of characters: trimming, searching, splitting, replacing and joining.
use vstd::prelude::*;

verus! {

/// `String::push` appends one character.
pub assume_specification[ String::push ](text: &mut String, c: char)
    ensures
        final(text)@ == old(text)@.push(c),
;

/// The characters of a text.
pub fn chars_of(text: &str) -> (chars: Vec<char>)
    ensures
        chars@ == text@,
{
    let mut chars: Vec<char> = Vec::new();
    for c in it: text.chars()
        invariant
            it.seq() == text@,
            chars@ == it.seq().take(it.index() as int),
    {
        chars.push(c);
    }
    chars
}

/// The text made of the characters from `from` up to `to`.
pub fn text_between(chars: &Vec<char>, from: usize, to: usize) -> (text: String)
    requires
        from <= to <= chars@.len(),
    ensures
        text@ == chars@.subrange(from as int, to as int),
{
    let mut text = String::new();
    let mut i: usize = from;
    while i < to
        invariant
            from <= i <= to <= chars@.len(),
            text@ == chars@.subrange(from as int, i as int),
        decreases to - i,
    {
        text.push(chars[i]);
        i += 1;
        assert(text@ =~= chars@.subrange(from as int, i as int));
    }
    text
}

// ---------------------------------------------------------------------------
// White space
// ---------------------------------------------------------------------------

/// The characters with the Unicode property `White_Space`.
pub open spec fn is_space(c: char) -> bool {
    let n = c as u32;
    ||| 0x9 <= n <= 0xd
    ||| n == 0x20
    ||| n == 0x85
    ||| n == 0xa0
    ||| n == 0x1680
    ||| 0x2000 <= n <= 0x200a
    ||| n == 0x2028
    ||| n == 0x2029
    ||| n == 0x202f
    ||| n == 0x205f
    ||| n == 0x3000
}

/// Whether `c` is white space.
pub fn is_space_char(c: char) -> (yes: bool)
    ensures
        yes == is_space(c),
{
    let n: u32 = c as u32;
    (0x9 <= n && n <= 0xd) || n == 0x20 || n == 0x85 || n == 0xa0 || n == 0x1680 || (0x2000 <= n
        && n <= 0x200a) || n == 0x2028 || n == 0x2029 || n == 0x202f || n == 0x205f || n == 0x3000
}

/// `s` without its leading white space.
pub open spec fn trimmed_start(s: Seq<char>) -> Seq<char>
    decreases s.len(),
{
    if s.len() > 0 && is_space(s[0]) {
        trimmed_start(s.drop_first())
    } else {
        s
    }
}

/// `s` without its trailing white space.
pub open spec fn trimmed_end(s: Seq<char>) -> Seq<char>
    decreases s.len(),
{
    if s.len() > 0 && is_space(s.last()) {
        trimmed_end(s.drop_last())
    } else {
        s
    }
}

/// `s` without white space at either end.
pub open spec fn trimmed(s: Seq<char>) -> Seq<char> {
    trimmed_end(trimmed_start(s))
}

/// Whether `s` holds nothing but white space.
pub open spec fn is_blank(s: Seq<char>) -> bool {
    trimmed(s).len() == 0
}

/// Removes leading white space.
pub fn trim_start<'a>(text: &'a str) -> (rest: &'a str)
    ensures
        rest@ == trimmed_start(text@),
{
    let chars = chars_of(text);
    let mut i: usize = 0;
    assert(text@.skip(0) =~= text@);
    while i < chars.len() && is_space_char(chars[i])
        invariant
            chars@ == text@,
            i <= chars@.len(),
            trimmed_start(text@.skip(i as int)) == trimmed_start(text@),
        decreases chars@.len() - i,
    {
        assert(text@.skip(i as int).drop_first() =~= text@.skip(i + 1));
        i += 1;
    }
    assert(text@.skip(i as int) =~= text@.subrange(i as int, text@.len() as int));
    text.substring_char(i, chars.len())
}

/// Removes trailing white space.
pub fn trim_end<'a>(text: &'a str) -> (rest: &'a str)
    ensures
        rest@ == trimmed_end(text@),
{
    let chars = chars_of(text);
    let mut i: usize = chars.len();
    assert(text@.take(i as int) =~= text@);
    while i > 0 && is_space_char(chars[i - 1])
        invariant
            chars@ == text@,
            i <= chars@.len(),
            trimmed_end(text@.take(i as int)) == trimmed_end(text@),
        decreases i,
    {
        assert(text@.take(i as int).drop_last() =~= text@.take(i - 1));
        i -= 1;
    }
    assert(text@.take(i as int) =~= text@.subrange(0, i as int));
    text.substring_char(0, i)
}

/// Removes white space at both ends.
pub fn trim<'a>(text: &'a str) -> (rest: &'a str)
    ensures
        rest@ == trimmed(text@),
{
    trim_end(trim_start(text))
}

// ---------------------------------------------------------------------------
// Searching
// ---------------------------------------------------------------------------

/// Whether `pattern` stands in `s` at position `i`.
pub open spec fn occurs_at(s: Seq<char>, pattern: Seq<char>, i: int) -> bool {
    &&& 0 <= i
    &&& i + pattern.len() <= s.len()
    &&& s.subrange(i, i + pattern.len()) == pattern
}

/// The first position at or after `i` at which `pattern` stands in `s`.
pub open spec fn found_from(s: Seq<char>, pattern: Seq<char>, i: int) -> Option<int>
    decreases s.len() - i + 1,
{
    if i < 0 || i + pattern.len() > s.len() {
        None
    } else if occurs_at(s, pattern, i) {
        Some(i)
    } else {
        found_from(s, pattern, i + 1)
    }
}

/// The first position at which `pattern` stands in `s`.
pub open spec fn found(s: Seq<char>, pattern: Seq<char>) -> Option<int> {
    found_from(s, pattern, 0)
}

/// Whether `pattern` stands anywhere in `s`.
pub open spec fn mentions(s: Seq<char>, pattern: Seq<char>) -> bool {
    found(s, pattern) is Some
}

/// `s` cut at the first `pattern`: what comes before it and what comes after it.
pub open spec fn cut(s: Seq<char>, pattern: Seq<char>) -> Option<(Seq<char>, Seq<char>)> {
    match found(s, pattern) {
        Some(k) => Some((s.take(k), s.skip(k + pattern.len()))),
        None => None,
    }
}

/// `found_from` gives the least position at which the pattern stands.
pub proof fn lemma_found_from(s: Seq<char>, pattern: Seq<char>, i: int)
    requires
        0 <= i,
    ensures
        match found_from(s, pattern, i) {
            Some(k) => i <= k && occurs_at(s, pattern, k) && (forall|j: int|
                i <= j < k ==> !#[trigger] occurs_at(s, pattern, j)),
            None => forall|j: int| i <= j ==> !#[trigger] occurs_at(s, pattern, j),
        },
    decreases s.len() - i + 1,
{
    if i + pattern.len() <= s.len() && !occurs_at(s, pattern, i) {
        lemma_found_from(s, pattern, i + 1);
    }
}

/// A position at which the pattern stands, with none such before it, is where it is found.
pub proof fn lemma_found_is(s: Seq<char>, pattern: Seq<char>, k: int)
    requires
        occurs_at(s, pattern, k),
        forall|j: int| 0 <= j < k ==> !#[trigger] occurs_at(s, pattern, j),
    ensures
        found(s, pattern) == Some(k),
{
    lemma_found_from(s, pattern, 0);
}

/// What stands in the end of a text stands in the text.
pub proof fn lemma_suffix_mentions(s: Seq<char>, whole: Seq<char>, pattern: Seq<char>)
    requires
        s.is_suffix_of(whole),
        mentions(s, pattern),
    ensures
        mentions(whole, pattern),
{
    lemma_found_from(s, pattern, 0);
    lemma_found_from(whole, pattern, 0);
    let k = found(s, pattern)->0;
    let shift = whole.len() - s.len();
    assert(whole.subrange(shift + k, shift + k + pattern.len()) =~= s.subrange(
        k,
        k + pattern.len(),
    ));
    assert(occurs_at(whole, pattern, shift + k));
}

fn occurs_here(chars: &Vec<char>, pattern: &Vec<char>, i: usize) -> (yes: bool)
    requires
        i + pattern@.len() <= chars@.len(),
    ensures
        yes == occurs_at(chars@, pattern@, i as int),
{
    let length: usize = chars.len();
    let mut j: usize = 0;
    while j < pattern.len()
        invariant
            j <= pattern@.len(),
            i + pattern@.len() <= length == chars@.len(),
            forall|k: int| 0 <= k < j ==> chars@[i + k] == pattern@[k],
        decreases pattern@.len() - j,
    {
        if chars[i + j] != pattern[j] {
            assert(chars@.subrange(i as int, i + pattern@.len())[j as int] != pattern@[j as int]);
            return false;
        }
        j += 1;
    }
    assert(chars@.subrange(i as int, i + pattern@.len()) =~= pattern@);
    true
}

/// Finds the first place, counted in characters, at which `pattern` stands in `text`.
pub fn find(text: &str, pattern: &str) -> (position: Option<usize>)
    ensures
        match position {
            Some(k) => found(text@, pattern@) == Some(k as int) && k + pattern@.len() <= text@.len(),
            None => found(text@, pattern@) is None,
        },
{
    let chars = chars_of(text);
    let wanted = chars_of(pattern);
    let mut i: usize = 0;
    if wanted.len() > chars.len() {
        return None;
    }
    let last: usize = chars.len() - wanted.len();
    loop
        invariant
            chars@ == text@,
            wanted@ == pattern@,
            last + wanted@.len() == chars@.len(),
            i <= last,
            found_from(text@, pattern@, i as int) == found(text@, pattern@),
        decreases last - i,
    {
        if occurs_here(&chars, &wanted, i) {
            return Some(i);
        }
        if i == last {
            assert(found_from(text@, pattern@, i + 1) is None);
            return None;
        }
        i += 1;
    }
}

/// Whether `pattern` stands anywhere in `text`.
pub fn contains(text: &str, pattern: &str) -> (yes: bool)
    ensures
        yes == mentions(text@, pattern@),
{
    find(text, pattern).is_some()
}

/// Whether `text` begins with `prefix`.
pub fn starts_with(text: &str, prefix: &str) -> (yes: bool)
    ensures
        yes == prefix@.is_prefix_of(text@),
{
    let chars = chars_of(text);
    let wanted = chars_of(prefix);
    if wanted.len() > chars.len() {
        return false;
    }
    let yes = occurs_here(&chars, &wanted, 0);
    assert(yes == prefix@.is_prefix_of(text@));
    yes
}

/// Whether `text` ends with `suffix`.
pub fn ends_with(text: &str, suffix: &str) -> (yes: bool)
    ensures
        yes == suffix@.is_suffix_of(text@),
{
    let chars = chars_of(text);
    let wanted = chars_of(suffix);
    if wanted.len() > chars.len() {
        return false;
    }
    let yes = occurs_here(&chars, &wanted, chars.len() - wanted.len());
    assert(yes == suffix@.is_suffix_of(text@));
    yes
}

/// Whether two texts hold the same characters.
pub fn same(a: &str, b: &str) -> (yes: bool)
    ensures
        yes == (a@ == b@),
{
    let left = chars_of(a);
    let right = chars_of(b);
    if left.len() != right.len() {
        return false;
    }
    let yes = occurs_here(&left, &right, 0);
    assert(left@.subrange(0, left@.len() as int) =~= left@);
    yes
}

/// Cuts `text` at the first `pattern`.
pub fn split_once<'a>(text: &'a str, pattern: &str) -> (parts: Option<(&'a str, &'a str)>)
    ensures
        parts.deep_view() == cut(text@, pattern@),
{
    match find(text, pattern) {
        None => None,
        Some(k) => {
            let length: usize = text.unicode_len();
            let width: usize = pattern.unicode_len();
            let before = text.substring_char(0, k);
            let after = text.substring_char(k + width, length);
            assert(before@ =~= text@.take(k as int));
            assert(after@ =~= text@.skip(k + pattern@.len()));
            Some((before, after))
        },
    }
}

// ---------------------------------------------------------------------------
// Splitting and joining
// ---------------------------------------------------------------------------

/// The pieces of `s` between the places at which `pattern` stands.
pub open spec fn pieces(s: Seq<char>, pattern: Seq<char>) -> Seq<Seq<char>>
    decreases s.len(),
{
    match cut(s, pattern) {
        Some((before, after)) => {
            if pattern.len() == 0 {
                seq![s]
            } else {
                proof {
                    lemma_found_from(s, pattern, 0);
                }
                seq![before] + pieces(after, pattern)
            }
        },
        None => seq![s],
    }
}

/// Splits `text` at every `pattern`.
pub fn split(text: &str, pattern: &str) -> (parts: Vec<String>)
    requires
        pattern@.len() > 0,
    ensures
        parts.deep_view() == pieces(text@, pattern@),
{
    let mut parts: Vec<String> = Vec::new();
    let mut rest: &str = text;
    loop
        invariant
            pattern@.len() > 0,
            parts.deep_view() + pieces(rest@, pattern@) == pieces(text@, pattern@),
        decreases rest@.len(),
    {
        match split_once(rest, pattern) {
            None => {
                let ghost before = parts.deep_view();
                parts.push(rest.to_owned());
                assert(parts.deep_view() =~= before + seq![rest@]);
                return parts;
            },
            Some((head, tail)) => {
                let ghost before = parts.deep_view();
                let ghost old_rest = rest@;
                parts.push(head.to_owned());
                rest = tail;
                proof {
                    assert(cut(old_rest, pattern@) == Some((head@, tail@)));
                    lemma_found_from(old_rest, pattern@, 0);
                    assert(parts.deep_view() =~= before.push(head@));
                    assert(parts.deep_view() + pieces(rest@, pattern@) =~= before + (seq![head@]
                        + pieces(rest@, pattern@)));
                }
            },
        }
    }
}

/// `s` without one carriage return at its end.
pub open spec fn without_return(s: Seq<char>) -> Seq<char> {
    if s.len() > 0 && s.last() == '\r' {
        s.drop_last()
    } else {
        s
    }
}

/// The lines of `s`. A line feed, with or without a carriage return before it, ends a line; what
/// follows the last line feed is a line too, unless it is empty.
pub open spec fn lines_of(s: Seq<char>) -> Seq<Seq<char>>
    decreases s.len(),
{
    match cut(s, seq!['\n']) {
        Some((line, rest)) => {
            proof {
                lemma_found_from(s, seq!['\n'], 0);
            }
            seq![without_return(line)] + lines_of(rest)
        },
        None => if s.len() == 0 {
            seq![]
        } else {
            seq![s]
        },
    }
}

/// A text whose first line feed stands at `k` is cut there.
proof fn lemma_cut_at_feed(s: Seq<char>, k: int)
    requires
        0 <= k < s.len(),
        s[k] == '\n',
        forall|j: int| 0 <= j < k ==> s[j] != '\n',
    ensures
        cut(s, seq!['\n']) == Some((s.take(k), s.skip(k + 1))),
{
    let feed = seq!['\n'];
    assert(s.subrange(k, k + 1) =~= feed);
    assert forall|j: int| 0 <= j < k implies !#[trigger] occurs_at(s, feed, j) by {
        if occurs_at(s, feed, j) {
            assert(s.subrange(j, j + 1)[0] == '\n');
        }
    }
    lemma_found_is(s, feed, k);
}

/// A text without a line feed is not cut.
proof fn lemma_no_feed(s: Seq<char>)
    requires
        forall|j: int| 0 <= j < s.len() ==> s[j] != '\n',
    ensures
        cut(s, seq!['\n']) is None,
{
    let feed = seq!['\n'];
    lemma_found_from(s, feed, 0);
    if let Some(k) = found(s, feed) {
        assert(s.subrange(k, k + 1)[0] == '\n');
    }
}

/// Splits `text` into lines.
pub fn lines(text: &str) -> (result: Vec<String>)
    ensures
        result.deep_view() == lines_of(text@),
{
    let chars = chars_of(text);
    let mut result: Vec<String> = Vec::new();
    let mut start: usize = 0;
    let mut i: usize = 0;
    assert(text@.skip(0) =~= text@);
    assert(result.deep_view() + lines_of(text@) =~= lines_of(text@));
    while i < chars.len()
        invariant
            chars@ == text@,
            start <= i <= chars@.len(),
            forall|j: int| start <= j < i ==> chars@[j] != '\n',
            result.deep_view() + lines_of(text@.skip(start as int)) == lines_of(text@),
        decreases chars@.len() - i,
    {
        if chars[i] == '\n' {
            let ghost rest = text@.skip(start as int);
            let ghost before = result.deep_view();
            let end: usize = if i > start && chars[i - 1] == '\r' {
                i - 1
            } else {
                i
            };
            let line = text_between(&chars, start, end);
            proof {
                lemma_cut_at_feed(rest, i - start);
                assert(rest.skip(i - start + 1) =~= text@.skip(i + 1));
                assert(without_return(rest.take(i - start)) =~= line@);
                lemma_found_from(rest, seq!['\n'], 0);
            }
            result.push(line);
            start = i + 1;
            assert(result.deep_view() =~= before.push(line@));
            assert(result.deep_view() + lines_of(text@.skip(start as int)) =~= before + (seq![line@]
                + lines_of(text@.skip(start as int))));
        }
        i += 1;
    }
    let ghost rest = text@.skip(start as int);
    let ghost before = result.deep_view();
    proof {
        lemma_no_feed(rest);
    }
    if start < chars.len() {
        let line = text_between(&chars, start, chars.len());
        assert(line@ =~= rest);
        result.push(line);
        assert(result.deep_view() =~= before + seq![line@]);
    } else {
        assert(lines_of(rest) =~= seq![]);
        assert(result.deep_view() =~= before + lines_of(rest));
    }
    result
}

/// `s` with every `from` turned into `to`.
pub open spec fn replaced(s: Seq<char>, from: char, to: char) -> Seq<char> {
    Seq::new(
        s.len(),
        |i: int|
            if s[i] == from {
                to
            } else {
                s[i]
            },
    )
}

/// Replaces every `from` by `to`.
pub fn replace(text: &str, from: char, to: char) -> (result: String)
    ensures
        result@ == replaced(text@, from, to),
{
    let chars = chars_of(text);
    let mut result = String::new();
    let mut i: usize = 0;
    while i < chars.len()
        invariant
            chars@ == text@,
            i <= chars@.len(),
            result@ == replaced(text@, from, to).take(i as int),
        decreases chars@.len() - i,
    {
        let c = if chars[i] == from {
            to
        } else {
            chars[i]
        };
        result.push(c);
        i += 1;
        assert(result@ =~= replaced(text@, from, to).take(i as int));
    }
    assert(replaced(text@, from, to).take(i as int) =~= replaced(text@, from, to));
    result
}

/// The parts one after the other, with `separator` between each two.
pub open spec fn joined(parts: Seq<Seq<char>>, separator: Seq<char>) -> Seq<char>
    decreases parts.len(),
{
    if parts.len() == 0 {
        seq![]
    } else if parts.len() == 1 {
        parts[0]
    } else {
        joined(parts.drop_last(), separator) + separator + parts.last()
    }
}

/// Joins texts with a separator.
pub fn join(parts: &Vec<String>, separator: &str) -> (result: String)
    ensures
        result@ == joined(parts.deep_view(), separator@),
{
    let mut result = String::new();
    let mut i: usize = 0;
    assert(parts.deep_view().take(0) =~= seq![]);
    while i < parts.len()
        invariant
            i <= parts@.len(),
            result@ == joined(parts.deep_view().take(i as int), separator@),
        decreases parts@.len() - i,
    {
        let ghost shorter = parts.deep_view().take(i as int);
        let ghost longer = parts.deep_view().take(i + 1);
        assert(longer.drop_last() =~= shorter);
        if i > 0 {
            result.append(separator);
            result.append(parts[i].as_str());
        } else {
            result.append(parts[i].as_str());
            assert(result@ =~= longer[0]);
        }
        i += 1;
    }
    assert(parts.deep_view().take(i as int) =~= parts.deep_view());
    result
}

/// A part in front of others is joined to them with a separator.
pub proof fn lemma_joined_front(first: Seq<char>, rest: Seq<Seq<char>>, separator: Seq<char>)
    requires
        rest.len() > 0,
    ensures
        joined(seq![first] + rest, separator) == first + separator + joined(rest, separator),
    decreases rest.len(),
{
    let whole = seq![first] + rest;
    assert(whole.last() == rest.last());
    if rest.len() == 1 {
        assert(whole.drop_last() =~= seq![first]);
        assert(joined(whole.drop_last(), separator) == first);
    } else {
        assert(whole.drop_last() =~= seq![first] + rest.drop_last());
        lemma_joined_front(first, rest.drop_last(), separator);
        assert(joined(whole, separator) =~= first + separator + joined(rest, separator));
    }
}

/// A text that is split at a pattern is whole again once its pieces are joined with the pattern.
pub proof fn law_pieces_are_joined_back(s: Seq<char>, pattern: Seq<char>)
    requires
        pattern.len() > 0,
    ensures
        pieces(s, pattern).len() > 0,
        joined(pieces(s, pattern), pattern) == s,
    decreases s.len(),
{
    lemma_found_from(s, pattern, 0);
    if let Some((before, after)) = cut(s, pattern) {
        let k = found(s, pattern)->0;
        law_pieces_are_joined_back(after, pattern);
        lemma_joined_front(before, pieces(after, pattern), pattern);
        assert(s.subrange(k, k + pattern.len()) == pattern);
        assert(s =~= before + pattern + after);
    }
}

} // verus!
