//! What holds of trimmed, cut, split and joined texts.
use crate::text::{
    cut, found, is_blank, is_space, joined, lemma_found_from, lemma_found_is, lemma_joined_front, lines_of,
    mentions, occurs_at, pieces, replaced, trimmed, trimmed_end, trimmed_start,
};
use vstd::prelude::*;

verus! {

// ---------------------------------------------------------------------------
// Trimming
// ---------------------------------------------------------------------------

/// Whether `s` holds nothing but white space.
pub open spec fn is_white(s: Seq<char>) -> bool {
    forall|i: int| 0 <= i < s.len() ==> is_space(#[trigger] s[i])
}

/// White space is made of these characters.
pub proof fn law_white_space(c: char)
    ensures
        is_space(c) <==> seq![
            '\t',
            '\n',
            '\x0b',
            '\x0c',
            '\r',
            ' ',
            '\u{85}',
            '\u{a0}',
            '\u{1680}',
            '\u{2000}',
            '\u{2001}',
            '\u{2002}',
            '\u{2003}',
            '\u{2004}',
            '\u{2005}',
            '\u{2006}',
            '\u{2007}',
            '\u{2008}',
            '\u{2009}',
            '\u{200a}',
            '\u{2028}',
            '\u{2029}',
            '\u{202f}',
            '\u{205f}',
            '\u{3000}',
        ].contains(c),
{
    let all = seq![
        '\t',
        '\n',
        '\x0b',
        '\x0c',
        '\r',
        ' ',
        '\u{85}',
        '\u{a0}',
        '\u{1680}',
        '\u{2000}',
        '\u{2001}',
        '\u{2002}',
        '\u{2003}',
        '\u{2004}',
        '\u{2005}',
        '\u{2006}',
        '\u{2007}',
        '\u{2008}',
        '\u{2009}',
        '\u{200a}',
        '\u{2028}',
        '\u{2029}',
        '\u{202f}',
        '\u{205f}',
        '\u{3000}',
    ];
    let n = c as u32;
    if is_space(c) {
        let k = if n <= 0xd {
            n - 0x9
        } else if n == 0x20 {
            5
        } else if n == 0x85 {
            6
        } else if n == 0xa0 {
            7
        } else if n == 0x1680 {
            8
        } else if n <= 0x200a {
            n - 0x2000 + 9
        } else if n == 0x2028 {
            20
        } else if n == 0x2029 {
            21
        } else if n == 0x202f {
            22
        } else if n == 0x205f {
            23
        } else {
            24
        };
        assert(0 <= k < 25);
        assert(all[k] == c);
    }
}

proof fn lemma_trimmed_start(a: Seq<char>, s: Seq<char>)
    requires
        is_white(a),
        s.len() > 0 ==> !is_space(s[0]),
    ensures
        trimmed_start(a + s) == s,
    decreases a.len(),
{
    let whole = a + s;
    if a.len() > 0 {
        assert(whole[0] == a[0]);
        assert(whole.drop_first() =~= a.drop_first() + s);
        lemma_trimmed_start(a.drop_first(), s);
    } else {
        assert(whole =~= s);
    }
}

proof fn lemma_trimmed_end(s: Seq<char>, b: Seq<char>)
    requires
        is_white(b),
        s.len() > 0 ==> !is_space(s.last()),
    ensures
        trimmed_end(s + b) == s,
    decreases b.len(),
{
    let whole = s + b;
    if b.len() > 0 {
        assert(whole.last() == b.last());
        assert(whole.drop_last() =~= s + b.drop_last());
        lemma_trimmed_end(s, b.drop_last());
    } else {
        assert(whole =~= s);
    }
}

/// Trimming takes the white space at both ends, all of it and nothing else.
pub proof fn law_trimming_leaves_the_middle(a: Seq<char>, s: Seq<char>, b: Seq<char>)
    requires
        is_white(a),
        is_white(b),
        s.len() > 0 ==> !is_space(s[0]) && !is_space(s.last()),
    ensures
        trimmed(a + s + b) == s,
        trimmed_start(a + s) == s,
{
    lemma_trimmed_start(a, s);
    lemma_trimmed_end(s, b);
    if s.len() > 0 {
        assert(a + s + b =~= a + (s + b));
        assert((s + b)[0] == s[0]);
        lemma_trimmed_start(a, s + b);
    } else {
        assert(is_white(a + s + b)) by {
            assert forall|i: int| 0 <= i < (a + s + b).len() implies is_space(
                #[trigger] (a + s + b)[i],
            ) by {
                if i < a.len() {
                    assert((a + s + b)[i] == a[i]);
                } else {
                    assert((a + s + b)[i] == b[i - a.len()]);
                }
            }
        }
        lemma_trimmed_start(a + s + b, s);
        assert(a + s + b + s =~= a + s + b);
        assert(trimmed_start(a + s + b) =~= s);
        lemma_trimmed_end(s, s);
        assert(s + s =~= s);
    }
}

proof fn lemma_white_start(s: Seq<char>)
    ensures
        is_white(s) ==> trimmed_start(s).len() == 0,
        trimmed_start(s).len() > 0 ==> !is_space(trimmed_start(s)[0]),
        trimmed_start(s).len() == 0 ==> is_white(s),
    decreases s.len(),
{
    if s.len() > 0 && is_space(s[0]) {
        lemma_white_start(s.drop_first());
        if is_white(s.drop_first()) {
            assert forall|i: int| 0 <= i < s.len() implies is_space(#[trigger] s[i]) by {
                if i > 0 {
                    assert(s[i] == s.drop_first()[i - 1]);
                }
            }
        }
        if is_white(s) {
            assert(is_white(s.drop_first()));
        }
    }
}

proof fn lemma_end_keeps_front(s: Seq<char>)
    requires
        s.len() > 0,
        !is_space(s[0]),
    ensures
        trimmed_end(s).len() > 0,
    decreases s.len(),
{
    if is_space(s.last()) {
        assert(s.drop_last()[0] == s[0]);
        lemma_end_keeps_front(s.drop_last());
    }
}

/// Nothing is left of a text exactly if it holds nothing but white space.
pub proof fn law_blank_texts_are_white(s: Seq<char>)
    ensures
        is_blank(s) == is_white(s),
{
    lemma_white_start(s);
    if trimmed_start(s).len() > 0 {
        lemma_end_keeps_front(trimmed_start(s));
    }
}

// ---------------------------------------------------------------------------
// Searching
// ---------------------------------------------------------------------------

/// A text mentions each of its parts, and what it mentions is a part of it.
pub proof fn law_mentions_are_parts(s: Seq<char>, pattern: Seq<char>)
    ensures
        mentions(s, pattern) <==> exists|k: int|
            0 <= k && k + pattern.len() <= s.len() && #[trigger] s.subrange(k, k + pattern.len())
                == pattern,
{
    lemma_found_from(s, pattern, 0);
    if mentions(s, pattern) {
        let k = found(s, pattern)->0;
        assert(s.subrange(k, k + pattern.len()) == pattern);
    }
    if exists|k: int|
        0 <= k && k + pattern.len() <= s.len() && #[trigger] s.subrange(k, k + pattern.len())
            == pattern {
        let k = choose|k: int|
            0 <= k && k + pattern.len() <= s.len() && #[trigger] s.subrange(k, k + pattern.len())
                == pattern;
        assert(occurs_at(s, pattern, k));
    }
}

/// A text is cut at the first place where a character stands.
pub proof fn law_text_is_cut_at_the_first(before: Seq<char>, c: char, rest: Seq<char>)
    requires
        !before.contains(c),
    ensures
        cut(before + seq![c] + rest, seq![c]) == Some((before, rest)),
{
    let s = before + seq![c] + rest;
    let k = before.len() as int;
    assert(s.subrange(k, k + 1) =~= seq![c]);
    assert forall|j: int| 0 <= j < k implies !#[trigger] occurs_at(s, seq![c], j) by {
        if occurs_at(s, seq![c], j) {
            assert(s.subrange(j, j + 1)[0] == c);
            assert(before[j] == c);
        }
    }
    lemma_found_is(s, seq![c], k);
    assert(s.take(k) =~= before);
    assert(s.skip(k + 1) =~= rest);
}

/// A text mentions a character exactly if it holds it, and is not cut at one that it does not hold.
pub proof fn law_mentioned_characters_are_held(s: Seq<char>, c: char)
    ensures
        mentions(s, seq![c]) == s.contains(c),
        !s.contains(c) ==> cut(s, seq![c]) is None,
{
    lemma_found_from(s, seq![c], 0);
    if mentions(s, seq![c]) {
        let k = found(s, seq![c])->0;
        assert(s.subrange(k, k + 1)[0] == c);
        assert(s[k] == c);
    }
    if s.contains(c) {
        let k = s.index_of(c);
        assert(s.subrange(k, k + 1) =~= seq![c]);
        assert(occurs_at(s, seq![c], k));
    }
}

// ---------------------------------------------------------------------------
// Splitting and joining
// ---------------------------------------------------------------------------

/// A text without a line feed is one line, unless it is empty.
pub proof fn law_text_without_feeds_is_a_line(line: Seq<char>)
    requires
        !line.contains('\n'),
    ensures
        lines_of(line) == if line.len() == 0 {
            Seq::empty()
        } else {
            seq![line]
        },
{
    law_mentioned_characters_are_held(line, '\n');
}

/// A line feed ends a line, and the lines of what follows it are those that follow the line. One
/// carriage return before the line feed is no part of the line.
pub proof fn law_feeds_end_lines(line: Seq<char>, rest: Seq<char>)
    requires
        !line.contains('\n'),
    ensures
        (line.len() == 0 || line.last() != '\r') ==> lines_of(line + seq!['\n'] + rest) == seq![line]
            + lines_of(rest),
        lines_of(line + seq!['\r'] + seq!['\n'] + rest) == seq![line] + lines_of(rest),
{
    let ended = line + seq!['\r'];
    law_text_is_cut_at_the_first(line, '\n', rest);
    assert(!ended.contains('\n')) by {
        assert forall|i: int| 0 <= i < ended.len() implies ended[i] != '\n' by {
            if i < line.len() {
                assert(line.contains(line[i]));
            }
        }
    }
    law_text_is_cut_at_the_first(ended, '\n', rest);
    assert(ended.drop_last() =~= line);
    lemma_found_from(line + seq!['\n'] + rest, seq!['\n'], 0);
    lemma_found_from(ended + seq!['\n'] + rest, seq!['\n'], 0);
}

/// What stands before the first separator is the first piece, and the pieces of what follows it are
/// the others. A text without the separator is one piece.
pub proof fn law_pieces_lie_between(before: Seq<char>, c: char, rest: Seq<char>)
    requires
        !before.contains(c),
    ensures
        pieces(before + seq![c] + rest, seq![c]) == seq![before] + pieces(rest, seq![c]),
        pieces(before, seq![c]) == seq![before],
{
    law_text_is_cut_at_the_first(before, c, rest);
    law_mentioned_characters_are_held(before, c);
    lemma_found_from(before + seq![c] + rest, seq![c], 0);
}

/// Joined texts stand one behind the other with the separator between them.
pub proof fn law_joined_texts_stand_in_a_row(
    first: Seq<char>,
    rest: Seq<Seq<char>>,
    separator: Seq<char>,
)
    ensures
        joined(seq![], separator) == Seq::<char>::empty(),
        joined(seq![first], separator) == first,
        rest.len() > 0 ==> joined(seq![first] + rest, separator) == first + separator + joined(
            rest,
            separator,
        ),
{
    if rest.len() > 0 {
        lemma_joined_front(first, rest, separator);
    }
}

/// Replacing a character changes it wherever it stands, and nothing else.
pub proof fn law_other_characters_stay(s: Seq<char>, from: char, to: char, i: int)
    requires
        0 <= i < s.len(),
    ensures
        replaced(s, from, to).len() == s.len(),
        s[i] == from ==> replaced(s, from, to)[i] == to,
        s[i] != from ==> replaced(s, from, to)[i] == s[i],
{
}

/// A text is cut at the first place where a pattern stands: both parts and the pattern make it up,
/// and the pattern stands nowhere before. It is not cut if the pattern stands nowhere.
pub proof fn law_cuts_are_at_the_first_place(s: Seq<char>, pattern: Seq<char>)
    ensures
        cut(s, pattern) is None <==> !mentions(s, pattern),
        cut(s, pattern) matches Some((before, rest)) ==> s == before + pattern + rest && forall|
            k: int,
        |
            0 <= k < before.len() ==> #[trigger] s.subrange(k, k + pattern.len()) != pattern,
{
    lemma_found_from(s, pattern, 0);
    if let Some((before, rest)) = cut(s, pattern) {
        let k = found(s, pattern)->0;
        assert(s.subrange(k, k + pattern.len()) == pattern);
        assert(s =~= before + pattern + rest);
        assert forall|j: int| 0 <= j < before.len() implies #[trigger] s.subrange(
            j,
            j + pattern.len(),
        ) != pattern by {
            assert(!occurs_at(s, pattern, j));
        }
    }
}

} // verus!
