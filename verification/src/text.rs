//! Searching, trimming and splitting text, character by character.

use vstd::prelude::*;

verus! {

/// `pattern` stands in `text` at place `at`.
pub open spec fn occurs_at(text: Seq<char>, pattern: Seq<char>, at: int) -> bool {
    0 <= at && at + pattern.len() <= text.len() && text.subrange(at, at + pattern.len())
        == pattern
}

/// `pattern` stands somewhere in `text`.
pub open spec fn contains_text(text: Seq<char>, pattern: Seq<char>) -> bool {
    exists|at: int| occurs_at(text, pattern, at)
}

/// `text` begins with `pattern`.
pub open spec fn starts_with_text(text: Seq<char>, pattern: Seq<char>) -> bool {
    occurs_at(text, pattern, 0)
}

/// `text` ends with `pattern`.
pub open spec fn ends_with_text(text: Seq<char>, pattern: Seq<char>) -> bool {
    occurs_at(text, pattern, text.len() - pattern.len())
}

/// The characters of a string.
pub fn to_chars(text: &str) -> (chars: Vec<char>)
    ensures
        chars@ == text@,
{
    let n: usize = text.unicode_len();
    let mut chars: Vec<char> = Vec::new();
    let mut i: usize = 0;
    while i < n
        invariant
            i <= n,
            n == text@.len(),
            chars@ == text@.take(i as int),
        decreases n - i,
    {
        chars.push(text.get_char(i));
        assert(chars@ =~= text@.take(i + 1));
        i = i + 1;
    }
    assert(text@.take(n as int) =~= text@);
    chars
}

/// Whether `pattern` stands in `text` at place `at`.
pub fn matches_at(text: &Vec<char>, pattern: &Vec<char>, at: usize) -> (found: bool)
    ensures
        found == occurs_at(text@, pattern@, at as int),
{
    if pattern.len() > text.len() || at > text.len() - pattern.len() {
        return false;
    }
    let mut i: usize = 0;
    while i < pattern.len()
        invariant
            i <= pattern.len(),
            at + pattern.len() <= text.len(),
            forall|k: int| 0 <= k < i ==> text@[at + k] == pattern@[k],
        decreases pattern.len() - i,
    {
        if text[at + i] != pattern[i] {
            assert(text@.subrange(at as int, at + pattern.len())[i as int] != pattern@[i as int]);
            return false;
        }
        i = i + 1;
    }
    assert(text@.subrange(at as int, at + pattern.len()) =~= pattern@);
    true
}

/// Whether two strings hold the same characters.
pub fn same_text(a: &str, b: &str) -> (same: bool)
    ensures
        same == (a@ == b@),
{
    let left = to_chars(a);
    let right = to_chars(b);
    if left.len() != right.len() {
        return false;
    }
    let found = matches_at(&left, &right, 0);
    proof {
        assert(left@.subrange(0, left@.len() as int) =~= left@);
    }
    found
}

/// Whether `text` begins with `pattern`.
pub fn starts_with(text: &str, pattern: &str) -> (found: bool)
    ensures
        found == starts_with_text(text@, pattern@),
{
    let chars = to_chars(text);
    let wanted = to_chars(pattern);
    matches_at(&chars, &wanted, 0)
}

/// Whether `text` ends with `pattern`.
pub fn ends_with(text: &str, pattern: &str) -> (found: bool)
    ensures
        found == ends_with_text(text@, pattern@),
{
    let chars = to_chars(text);
    let wanted = to_chars(pattern);
    if wanted.len() > chars.len() {
        return false;
    }
    matches_at(&chars, &wanted, chars.len() - wanted.len())
}

/// Whether `pattern` stands somewhere in the characters of `text`.
pub fn contains_chars(text: &Vec<char>, pattern: &Vec<char>) -> (found: bool)
    ensures
        found == contains_text(text@, pattern@),
{
    if pattern.len() > text.len() {
        assert forall|at: int| !occurs_at(text@, pattern@, at) by {}
        return false;
    }
    let last: usize = text.len() - pattern.len();
    let mut at: usize = 0;
    while at < last
        invariant
            at <= last,
            last == text.len() - pattern.len(),
            pattern.len() <= text.len(),
            forall|k: int| 0 <= k < at ==> !occurs_at(text@, pattern@, k),
        decreases last - at,
    {
        if matches_at(text, pattern, at) {
            return true;
        }
        at = at + 1;
    }
    if matches_at(text, pattern, last) {
        return true;
    }
    assert forall|k: int| !occurs_at(text@, pattern@, k) by {
        if 0 <= k && k + pattern@.len() <= text@.len() {
            assert(k <= last);
        }
    }
    false
}

/// Whether `pattern` stands somewhere in `text`.
pub fn contains(text: &str, pattern: &str) -> (found: bool)
    ensures
        found == contains_text(text@, pattern@),
{
    let chars = to_chars(text);
    let wanted = to_chars(pattern);
    contains_chars(&chars, &wanted)
}

/// The character is white space: one of the characters that Unicode
/// gives the property White_Space. These are the controls from tab to
/// carriage return, the space, next line, the no-break space, the Ogham
/// space mark, the spaces from en quad to hair space, the line and the
/// paragraph separator, the narrow no-break space, the medium mathematical
/// space and the ideographic space.
pub open spec fn white_space(c: char) -> bool {
    let code = c as u32;
    ||| 0x0009 <= code <= 0x000D
    ||| code == 0x0020
    ||| code == 0x0085
    ||| code == 0x00A0
    ||| code == 0x1680
    ||| 0x2000 <= code <= 0x200A
    ||| code == 0x2028
    ||| code == 0x2029
    ||| code == 0x202F
    ||| code == 0x205F
    ||| code == 0x3000
}

/// Whether the character is white space.
pub fn is_space(c: char) -> (space: bool)
    ensures
        space == white_space(c),
{
    let code: u32 = c as u32;
    (0x0009 <= code && code <= 0x000D) || code == 0x0020 || code == 0x0085 || code == 0x00A0
        || code == 0x1680 || (0x2000 <= code && code <= 0x200A) || code == 0x2028 || code
        == 0x2029 || code == 0x202F || code == 0x205F || code == 0x3000
}

/// How many characters of white space stand at the start of a text.
pub open spec fn leading_spaces(text: Seq<char>) -> int
    decreases text.len(),
{
    if text.len() > 0 && white_space(text[0]) {
        1 + leading_spaces(text.drop_first())
    } else {
        0
    }
}

/// How many characters of white space stand at the end of a text.
pub open spec fn trailing_spaces(text: Seq<char>) -> int
    decreases text.len(),
{
    if text.len() > 0 && white_space(text.last()) {
        1 + trailing_spaces(text.drop_last())
    } else {
        0
    }
}

/// The text without the white space at its start and at its end.
pub open spec fn trimmed(text: Seq<char>) -> Seq<char> {
    if leading_spaces(text) >= text.len() {
        Seq::<char>::empty()
    } else {
        text.subrange(leading_spaces(text), text.len() - trailing_spaces(text))
    }
}

/// The white space at the start of a text ends before its first other
/// character.
pub proof fn lemma_leading_spaces(text: Seq<char>, count: int)
    requires
        0 <= count <= text.len(),
        forall|i: int| 0 <= i < count ==> white_space(#[trigger] text[i]),
        count < text.len() ==> !white_space(text[count]),
    ensures
        leading_spaces(text) == count,
    decreases count,
{
    if count > 0 {
        assert(white_space(text[0]));
        let rest = text.drop_first();
        assert forall|i: int| 0 <= i < count - 1 implies white_space(#[trigger] rest[i]) by {
            assert(rest[i] == text[i + 1]);
        }
        lemma_leading_spaces(rest, count - 1);
    }
}

/// The white space at the end of a text begins behind its last other
/// character.
pub proof fn lemma_trailing_spaces(text: Seq<char>, count: int)
    requires
        0 <= count <= text.len(),
        forall|i: int| text.len() - count <= i < text.len() ==> white_space(#[trigger] text[i]),
        count < text.len() ==> !white_space(text[text.len() - count - 1]),
    ensures
        trailing_spaces(text) == count,
    decreases count,
{
    if count > 0 {
        assert(white_space(text[text.len() - 1]));
        let rest = text.drop_last();
        assert forall|i: int| rest.len() - (count - 1) <= i < rest.len() implies white_space(
            #[trigger] rest[i],
        ) by {
            assert(rest[i] == text[i]);
        }
        lemma_trailing_spaces(rest, count - 1);
    }
}

/// Where the text without white space around it begins and ends.
pub fn trim_bounds(text: &Vec<char>) -> (bounds: (usize, usize))
    ensures
        bounds.0 <= bounds.1 <= text.len(),
        text@.subrange(bounds.0 as int, bounds.1 as int) == trimmed(text@),
{
    let n: usize = text.len();
    let mut start: usize = 0;
    while start < n && is_space(text[start])
        invariant
            start <= n,
            n == text.len(),
            forall|i: int| 0 <= i < start ==> white_space(#[trigger] text@[i]),
        decreases n - start,
    {
        start = start + 1;
    }
    proof {
        lemma_leading_spaces(text@, start as int);
    }
    if start == n {
        assert(text@.subrange(n as int, n as int) =~= Seq::<char>::empty());
        return (n, n);
    }
    let mut end: usize = n;
    while end > start + 1 && is_space(text[end - 1])
        invariant
            start < end <= n,
            n == text.len(),
            !white_space(text@[start as int]),
            forall|i: int| end <= i < n ==> white_space(#[trigger] text@[i]),
        decreases end,
    {
        end = end - 1;
    }
    proof {
        if end == start + 1 {
            assert(!white_space(text@[end - 1]));
        }
        lemma_trailing_spaces(text@, n - end);
    }
    (start, end)
}

/// A copy of the characters from `from` up to `to`.
pub fn slice_chars(text: &Vec<char>, from: usize, to: usize) -> (part: Vec<char>)
    requires
        from <= to <= text.len(),
    ensures
        part@ == text@.subrange(from as int, to as int),
{
    let mut part: Vec<char> = Vec::new();
    let mut i: usize = from;
    while i < to
        invariant
            from <= i <= to,
            to <= text.len(),
            part@ == text@.subrange(from as int, i as int),
        decreases to - i,
    {
        part.push(text[i]);
        assert(part@ =~= text@.subrange(from as int, i + 1));
        i = i + 1;
    }
    part
}

/// The characters without the white space at their start and at their
/// end.
pub fn trim_chars(text: &Vec<char>) -> (out: Vec<char>)
    ensures
        out@ == trimmed(text@),
{
    let (start, end) = trim_bounds(text);
    slice_chars(text, start, end)
}

/// The place of the first occurrence of `pattern` in `text` at or behind
/// `from`, if there is one.
pub open spec fn first_occurrence(text: Seq<char>, pattern: Seq<char>, from: int) -> Option<int>
    decreases text.len() - from,
{
    if from < 0 || from + pattern.len() > text.len() {
        None
    } else if occurs_at(text, pattern, from) {
        Some(from)
    } else if from >= text.len() {
        None
    } else {
        first_occurrence(text, pattern, from + 1)
    }
}

/// The place of the first occurrence of `pattern` in `text` at or behind
/// `from`, if there is one.
pub fn find_chars(text: &Vec<char>, pattern: &Vec<char>, from: usize) -> (found: Option<usize>)
    ensures
        match found {
            Some(at) => first_occurrence(text@, pattern@, from as int) == Some(at as int) && from
                <= at && at + pattern.len() <= text.len(),
            None => first_occurrence(text@, pattern@, from as int) is None,
        },
{
    if pattern.len() > text.len() || from > text.len() - pattern.len() {
        return None;
    }
    let last: usize = text.len() - pattern.len();
    let mut at: usize = from;
    while at < last
        invariant
            from <= at <= last,
            last == text.len() - pattern.len(),
            pattern.len() <= text.len(),
            first_occurrence(text@, pattern@, from as int) == first_occurrence(
                text@,
                pattern@,
                at as int,
            ),
        decreases last - at,
    {
        if matches_at(text, pattern, at) {
            return Some(at);
        }
        at = at + 1;
    }
    if matches_at(text, pattern, last) {
        Some(last)
    } else {
        assert(first_occurrence(text@, pattern@, last + 1) is None);
        None
    }
}

/// The place of the first `c` in `text` at or behind `from`; the length
/// of the text where there is none.
pub open spec fn char_position(text: Seq<char>, c: char, from: int) -> int
    decreases text.len() - from,
{
    if from < 0 || from >= text.len() {
        text.len() as int
    } else if text[from] == c {
        from
    } else {
        char_position(text, c, from + 1)
    }
}

/// The place of the first `c` in `text` at or behind `from`; the length
/// of the text where there is none.
pub fn find_char(text: &Vec<char>, c: char, from: usize) -> (at: usize)
    requires
        from <= text.len(),
    ensures
        at == char_position(text@, c, from as int),
        from <= at <= text.len(),
        at < text.len() ==> text@[at as int] == c,
{
    let mut at: usize = from;
    while at < text.len() && text[at] != c
        invariant
            from <= at <= text.len(),
            char_position(text@, c, from as int) == char_position(text@, c, at as int),
        decreases text.len() - at,
    {
        at = at + 1;
    }
    at
}

/// The pieces of a text between the occurrences of `c`, from place `from`
/// on. A text without `c` is one piece.
pub open spec fn split_from(text: Seq<char>, c: char, from: int) -> Seq<Seq<char>>
    decreases text.len() - from,
{
    let at = char_position(text, c, from);
    if from < 0 || from > text.len() || at < from {
        Seq::<Seq<char>>::empty()
    } else if at >= text.len() {
        seq![text.subrange(from, text.len() as int)]
    } else {
        seq![text.subrange(from, at)] + split_from(text, c, at + 1)
    }
}

/// The pieces of a text between the occurrences of `c`.
pub open spec fn split_text(text: Seq<char>, c: char) -> Seq<Seq<char>> {
    split_from(text, c, 0)
}

/// The place of the first `c` lies within the text, at or behind `from`.
pub proof fn lemma_char_position(text: Seq<char>, c: char, from: int)
    requires
        0 <= from <= text.len(),
    ensures
        from <= char_position(text, c, from) <= text.len(),
    decreases text.len() - from,
{
    if from < text.len() && text[from] != c {
        lemma_char_position(text, c, from + 1);
    }
}

/// The views of the pieces.
pub open spec fn pieces_view(pieces: Seq<Vec<char>>) -> Seq<Seq<char>> {
    Seq::new(pieces.len(), |i: int| pieces[i]@)
}

/// The pieces of a text between the occurrences of `c`.
pub fn split_chars(text: &Vec<char>, c: char) -> (pieces: Vec<Vec<char>>)
    ensures
        pieces_view(pieces@) == split_text(text@, c),
        pieces@.len() >= 1,
{
    let mut pieces: Vec<Vec<char>> = Vec::new();
    let mut from: usize = 0;
    loop
        invariant
            from <= text.len(),
            split_text(text@, c) == pieces_view(pieces@) + split_from(text@, c, from as int),
        decreases text.len() - from,
    {
        let at: usize = find_char(text, c, from);
        let ghost before = pieces_view(pieces@);
        pieces.push(slice_chars(text, from, at));
        assert(pieces_view(pieces@) =~= before + seq![text@.subrange(from as int, at as int)]);
        if at >= text.len() {
            assert(pieces_view(pieces@) =~= split_text(text@, c));
            return pieces;
        }
        from = at + 1;
    }
}

/// The text without the occurrences of `c`.
pub open spec fn without_char(text: Seq<char>, c: char) -> Seq<char>
    decreases text.len(),
{
    if text.len() == 0 {
        text
    } else if text.last() == c {
        without_char(text.drop_last(), c)
    } else {
        without_char(text.drop_last(), c).push(text.last())
    }
}

/// The characters without the occurrences of `c`.
pub fn remove_char(text: &Vec<char>, c: char) -> (out: Vec<char>)
    ensures
        out@ == without_char(text@, c),
{
    let mut out: Vec<char> = Vec::new();
    let mut i: usize = 0;
    while i < text.len()
        invariant
            i <= text.len(),
            out@ == without_char(text@.take(i as int), c),
        decreases text.len() - i,
    {
        proof {
            let part = text@.take(i + 1);
            assert(part.drop_last() =~= text@.take(i as int));
            assert(part.last() == text@[i as int]);
        }
        if text[i] != c {
            out.push(text[i]);
        }
        i = i + 1;
    }
    assert(text@.take(text.len() as int) =~= text@);
    out
}

/// The first word of a text: its characters up to the first white space,
/// white space at its start left out.
pub open spec fn first_word(text: Seq<char>) -> Seq<char> {
    let rest = text.skip(leading_spaces(text));
    rest.take(word_length(rest))
}

/// How many characters stand before the first white space of a text.
pub open spec fn word_length(text: Seq<char>) -> int
    decreases text.len(),
{
    if text.len() > 0 && !white_space(text[0]) {
        1 + word_length(text.drop_first())
    } else {
        0
    }
}

/// The characters before the first white space are as many as stand
/// before it.
pub proof fn lemma_word_length(text: Seq<char>, count: int)
    requires
        0 <= count <= text.len(),
        forall|i: int| 0 <= i < count ==> !white_space(#[trigger] text[i]),
        count < text.len() ==> white_space(text[count]),
    ensures
        word_length(text) == count,
    decreases count,
{
    if count > 0 {
        assert(!white_space(text[0]));
        let rest = text.drop_first();
        assert forall|i: int| 0 <= i < count - 1 implies !white_space(#[trigger] rest[i]) by {
            assert(rest[i] == text[i + 1]);
        }
        lemma_word_length(rest, count - 1);
    }
}

/// Where the first word of a text begins and ends.
pub fn first_word_bounds(text: &Vec<char>) -> (bounds: (usize, usize))
    ensures
        bounds.0 <= bounds.1 <= text.len(),
        text@.subrange(bounds.0 as int, bounds.1 as int) == first_word(text@),
{
    let n: usize = text.len();
    let mut start: usize = 0;
    while start < n && is_space(text[start])
        invariant
            start <= n,
            n == text.len(),
            forall|i: int| 0 <= i < start ==> white_space(#[trigger] text@[i]),
        decreases n - start,
    {
        start = start + 1;
    }
    proof {
        lemma_leading_spaces(text@, start as int);
    }
    let ghost rest = text@.skip(start as int);
    let mut end: usize = start;
    while end < n && !is_space(text[end])
        invariant
            start <= end <= n,
            n == text.len(),
            rest == text@.skip(start as int),
            forall|i: int| 0 <= i < end - start ==> !white_space(#[trigger] rest[i]),
        decreases n - end,
    {
        end = end + 1;
    }
    proof {
        lemma_word_length(rest, end - start);
        assert(rest.take(end - start) =~= text@.subrange(start as int, end as int));
    }
    (start, end)
}

/// The piece of a text between the first and the second occurrence of a
/// separator, or behind the first where there is no second; `None` where
/// the separator does not occur.
pub open spec fn second_piece(text: Seq<char>, separator: Seq<char>) -> Option<Seq<char>> {
    match first_occurrence(text, separator, 0) {
        Some(at) => match first_occurrence(text, separator, at + separator.len()) {
            Some(next) => Some(text.subrange(at + separator.len(), next)),
            None => Some(text.subrange(at + separator.len(), text.len() as int)),
        },
        None => None,
    }
}

/// Where that piece begins and ends.
pub fn second_piece_bounds(text: &Vec<char>, separator: &Vec<char>) -> (bounds: Option<
    (usize, usize),
>)
    ensures
        match bounds {
            Some((from, to)) => from <= to <= text.len() && second_piece(text@, separator@)
                == Some(text@.subrange(from as int, to as int)),
            None => second_piece(text@, separator@) is None,
        },
{
    match find_chars(text, separator, 0) {
        Some(at) => {
            let from: usize = at + separator.len();
            match find_chars(text, separator, from) {
                Some(next) => Some((from, next)),
                None => Some((from, text.len())),
            }
        },
        None => None,
    }
}

} // verus!
