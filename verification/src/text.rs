//! Text as a sequence of characters, and the searches, splits and conversions that the log readers
//! are built from. Every function here is stated over the character sequence of its argument.

use vstd::prelude::*;

verus! {

/// `String::push` appends the given character to the end of the string.
pub assume_specification[ String::push ](text: &mut String, c: char)
    ensures
        final(text)@ == old(text)@.push(c),
;

/// The characters of a string.
pub fn to_chars(text: &str) -> (chars: Vec<char>)
    ensures
        chars@ == text@,
{
    let mut chars: Vec<char> = Vec::new();
    for c in iter: text.chars()
        invariant
            chars@ == text@.take(iter.index()),
            iter.seq() == text@,
    {
        chars.push(c);
    }
    chars
}

/// The string of the given characters.
pub fn to_text(chars: &[char]) -> (text: String)
    ensures
        text@ == chars@,
{
    let mut text = String::new();
    for i in 0..chars.len()
        invariant
            text@ == chars@.take(i as int),
    {
        text.push(chars[i]);
    }
    text
}

/// The characters of a slice, copied.
pub fn copied(chars: &[char]) -> (copy: Vec<char>)
    ensures
        copy@ == chars@,
{
    let mut copy: Vec<char> = Vec::new();
    for i in 0..chars.len()
        invariant
            copy@ == chars@.take(i as int),
    {
        copy.push(chars[i]);
    }
    copy
}

/// Two slices joined.
pub fn joined(left: &[char], right: &[char]) -> (both: Vec<char>)
    ensures
        both@ == left@ + right@,
{
    let mut both: Vec<char> = copied(left);
    for i in 0..right.len()
        invariant
            both@ == left@ + right@.take(i as int),
    {
        both.push(right[i]);
    }
    assert(right@.take(right@.len() as int) == right@);
    both
}

/// Whether `piece` stands in `text` at position `at`.
pub open spec fn occurs_at(text: Seq<char>, piece: Seq<char>, at: int) -> bool {
    &&& 0 <= at
    &&& at + piece.len() <= text.len()
    &&& text.subrange(at, at + piece.len()) == piece
}

/// The first position at or after `from` at which `piece` stands in `text`.
pub open spec fn first_from(text: Seq<char>, piece: Seq<char>, from: int) -> Option<int>
    decreases text.len() - from + 1,
{
    if from < 0 || from + piece.len() > text.len() {
        None
    } else if occurs_at(text, piece, from) {
        Some(from)
    } else {
        first_from(text, piece, from + 1)
    }
}

/// Whether `piece` stands anywhere in `text`.
pub open spec fn contains_piece(text: Seq<char>, piece: Seq<char>) -> bool {
    exists|at: int| occurs_at(text, piece, at)
}

/// The first position found is one where the piece stands, no earlier one does, and there is none
/// only where the piece stands nowhere from there on.
pub proof fn lemma_first_from(text: Seq<char>, piece: Seq<char>, from: int)
    requires
        0 <= from,
    ensures
        match first_from(text, piece, from) {
            Some(at) => {
                &&& from <= at
                &&& occurs_at(text, piece, at)
                &&& forall|i: int| from <= i < at ==> !occurs_at(text, piece, i)
            },
            None => forall|i: int| from <= i ==> !occurs_at(text, piece, i),
        },
    decreases text.len() - from + 1,
{
    if from + piece.len() > text.len() {
    } else if occurs_at(text, piece, from) {
    } else {
        lemma_first_from(text, piece, from + 1);
    }
}

/// Whether `piece` stands in `text` at `at`.
pub fn stands_at(text: &[char], piece: &[char], at: usize) -> (found: bool)
    ensures
        found == occurs_at(text@, piece@, at as int),
{
    let len: usize = text.len();
    if at > len || len - at < piece.len() {
        return false;
    }
    for i in 0..piece.len()
        invariant
            len == text@.len(),
            at + piece@.len() <= len,
            forall|j: int| 0 <= j < i ==> text@[at + j] == piece@[j],
    {
        if text[at + i] != piece[i] {
            assert(text@.subrange(at as int, at + piece@.len())[i as int] != piece@[i as int]);
            return false;
        }
    }
    assert(text@.subrange(at as int, at + piece@.len()) =~= piece@);
    true
}

/// The first position at or after `from` at which `piece` stands.
pub fn find_from(text: &[char], piece: &[char], from: usize) -> (at: Option<usize>)
    requires
        from <= text@.len(),
    ensures
        match at {
            Some(at) => first_from(text@, piece@, from as int) == Some(at as int)
                && from <= at && at + piece@.len() <= text@.len(),
            None => first_from(text@, piece@, from as int) is None,
        },
{
    let mut at: usize = from;
    while text.len() - at >= piece.len()
        invariant
            from <= at <= text@.len(),
            first_from(text@, piece@, from as int) == first_from(text@, piece@, at as int),
        decreases text@.len() - at,
    {
        if stands_at(text, piece, at) {
            return Some(at);
        }
        assert(at < text@.len()) by {
            if at == text@.len() {
                assert(text@.subrange(at as int, at as int) =~= piece@);
            }
        }
        at += 1;
    }
    None
}

/// The first position at which `piece` stands.
pub fn find(text: &[char], piece: &[char]) -> (at: Option<usize>)
    ensures
        match at {
            Some(at) => first_from(text@, piece@, 0) == Some(at as int) && at + piece@.len()
                <= text@.len(),
            None => first_from(text@, piece@, 0) is None,
        },
{
    find_from(text, piece, 0)
}

/// Whether `piece` stands anywhere in `text`.
pub fn contains(text: &[char], piece: &[char]) -> (found: bool)
    ensures
        found == contains_piece(text@, piece@),
        found == (first_from(text@, piece@, 0) is Some),
{
    proof {
        lemma_first_from(text@, piece@, 0);
    }
    let at = find(text, piece);
    at.is_some()
}

/// Whether two texts are the same.
pub fn same(left: &[char], right: &[char]) -> (equal: bool)
    ensures
        equal == (left@ == right@),
{
    if left.len() != right.len() {
        return false;
    }
    for i in 0..left.len()
        invariant
            left@.len() == right@.len(),
            left@.take(i as int) == right@.take(i as int),
    {
        if left[i] != right[i] {
            return false;
        }
        assert(left@.take(i + 1) =~= left@.take(i as int).push(left@[i as int]));
        assert(right@.take(i + 1) =~= right@.take(i as int).push(right@[i as int]));
    }
    assert(left@.take(left@.len() as int) =~= left@);
    assert(right@.take(right@.len() as int) =~= right@);
    true
}

/// Whether `text` begins with `piece`.
pub open spec fn begins_with(text: Seq<char>, piece: Seq<char>) -> bool {
    occurs_at(text, piece, 0)
}

/// Whether `text` ends with `piece`.
pub open spec fn ends_in(text: Seq<char>, piece: Seq<char>) -> bool {
    occurs_at(text, piece, text.len() - piece.len())
}

/// Whether `text` begins with `piece`.
pub fn starts_with(text: &[char], piece: &[char]) -> (found: bool)
    ensures
        found == begins_with(text@, piece@),
{
    stands_at(text, piece, 0)
}

/// Whether `text` ends with `piece`.
pub fn ends_with(text: &[char], piece: &[char]) -> (found: bool)
    ensures
        found == ends_in(text@, piece@),
{
    if text.len() < piece.len() {
        return false;
    }
    stands_at(text, piece, text.len() - piece.len())
}

/// What follows `piece` where `text` begins with it.
pub open spec fn after_prefix(text: Seq<char>, piece: Seq<char>) -> Option<Seq<char>> {
    if begins_with(text, piece) {
        Some(text.skip(piece.len() as int))
    } else {
        None
    }
}

/// What follows `piece` where `text` begins with it.
pub fn strip_prefix<'a>(text: &'a [char], piece: &[char]) -> (rest: Option<&'a [char]>)
    ensures
        match rest {
            Some(rest) => after_prefix(text@, piece@) == Some(rest@),
            None => after_prefix(text@, piece@) is None,
        },
{
    if starts_with(text, piece) {
        let rest = &text[piece.len()..text.len()];
        assert(rest@ =~= text@.skip(piece@.len() as int));
        Some(rest)
    } else {
        None
    }
}

/// The parts of `text` before and after the first place where `piece` stands.
pub open spec fn around_first(text: Seq<char>, piece: Seq<char>) -> Option<(Seq<char>, Seq<char>)> {
    match first_from(text, piece, 0) {
        Some(at) => Some((text.take(at), text.skip(at + piece.len()))),
        None => None,
    }
}

/// The parts of `text` before and after the first place where `piece` stands.
pub fn split_once<'a>(text: &'a [char], piece: &[char]) -> (parts: Option<(&'a [char], &'a [char])>)
    ensures
        match parts {
            Some((before, after)) => around_first(text@, piece@) == Some((before@, after@)),
            None => around_first(text@, piece@) is None,
        },
{
    match find(text, piece) {
        Some(at) => {
            let len: usize = text.len();
            let before = &text[0..at];
            let after = &text[at + piece.len()..len];
            assert(before@ =~= text@.take(at as int));
            assert(after@ =~= text@.skip(at + piece@.len()));
            Some((before, after))
        },
        None => None,
    }
}

/// The last position at which `c` stands in `text`.
pub open spec fn last_of(text: Seq<char>, c: char) -> Option<int>
    decreases text.len(),
{
    if text.len() == 0 {
        None
    } else if text.last() == c {
        Some(text.len() - 1)
    } else {
        last_of(text.drop_last(), c)
    }
}

/// The last position found holds the character and no later one does.
pub proof fn lemma_last_of(text: Seq<char>, c: char)
    ensures
        match last_of(text, c) {
            Some(at) => 0 <= at < text.len() && text[at] == c && forall|i: int|
                at < i < text.len() ==> text[i] != c,
            None => forall|i: int| 0 <= i < text.len() ==> text[i] != c,
        },
    decreases text.len(),
{
    if text.len() > 0 && text.last() != c {
        lemma_last_of(text.drop_last(), c);
        match last_of(text.drop_last(), c) {
            Some(at) => {
                assert(text[at] == text.drop_last()[at]);
                assert forall|i: int| at < i < text.len() implies text[i] != c by {
                    if i < text.len() - 1 {
                        assert(text[i] == text.drop_last()[i]);
                    }
                }
            },
            None => {
                assert forall|i: int| 0 <= i < text.len() implies text[i] != c by {
                    if i < text.len() - 1 {
                        assert(text[i] == text.drop_last()[i]);
                    }
                }
            },
        }
    }
}

/// The last position at which `c` stands.
pub fn rfind(text: &[char], c: char) -> (at: Option<usize>)
    ensures
        match at {
            Some(at) => last_of(text@, c) == Some(at as int) && at < text@.len(),
            None => last_of(text@, c) is None,
        },
{
    let mut end: usize = text.len();
    assert(text@.take(end as int) =~= text@);
    while end > 0
        invariant
            end <= text@.len(),
            last_of(text@, c) == last_of(text@.take(end as int), c),
        decreases end,
    {
        assert(text@.take(end as int).drop_last() =~= text@.take(end - 1));
        if text[end - 1] == c {
            return Some(end - 1);
        }
        end -= 1;
    }
    None
}

/// The first position at or after `from` whose character meets `stop`, the length where none does.
pub open spec fn next_where(text: Seq<char>, from: int, stop: spec_fn(char) -> bool) -> int
    decreases text.len() - from,
{
    if from >= text.len() {
        text.len() as int
    } else if stop(text[from]) {
        from
    } else {
        next_where(text, from + 1, stop)
    }
}

/// The position found is the first that meets the condition.
pub proof fn lemma_next_where(text: Seq<char>, from: int, stop: spec_fn(char) -> bool)
    requires
        0 <= from <= text.len(),
    ensures
        from <= next_where(text, from, stop) <= text.len(),
        forall|i: int| from <= i < next_where(text, from, stop) ==> !stop(text[i]),
        next_where(text, from, stop) < text.len() ==> stop(text[next_where(text, from, stop)]),
    decreases text.len() - from,
{
    if from < text.len() && !stop(text[from]) {
        lemma_next_where(text, from + 1, stop);
    }
}

/// Whether the character ends a line.
pub open spec fn newline() -> spec_fn(char) -> bool {
    |c: char| c == '\n'
}

/// A line without the carriage return that its line feed was written with.
pub open spec fn without_return(line: Seq<char>) -> Seq<char> {
    if line.len() > 0 && line.last() == '\r' {
        line.drop_last()
    } else {
        line
    }
}

/// The lines of `text` from position `from` on. A line ends at a line feed or at the end of the
/// text, and a line feed takes a carriage return before it with it.
pub open spec fn lines_from(text: Seq<char>, from: int) -> Seq<Seq<char>>
    decreases text.len() - from,
{
    if from < 0 || from >= text.len() {
        seq![]
    } else {
        let end = next_where(text, from, newline());
        if end < from || end >= text.len() {
            seq![text.skip(from)]
        } else {
            seq![without_return(text.subrange(from, end))] + lines_from(text, end + 1)
        }
    }
}

/// The lines of a text.
pub open spec fn lines_of(text: Seq<char>) -> Seq<Seq<char>> {
    lines_from(text, 0)
}

/// The position of the next line feed, the length where there is none.
fn line_end(text: &[char], from: usize) -> (end: usize)
    requires
        from <= text@.len(),
    ensures
        end == next_where(text@, from as int, newline()),
        from <= end <= text@.len(),
{
    let mut end: usize = from;
    while end < text.len()
        invariant
            from <= end <= text@.len(),
            next_where(text@, from as int, newline()) == next_where(text@, end as int, newline()),
        decreases text@.len() - end,
    {
        if text[end] == '\n' {
            return end;
        }
        end += 1;
    }
    end
}

/// The sequences of characters that a list of them stands for.
pub open spec fn views(lines: Seq<Vec<char>>) -> Seq<Seq<char>> {
    lines.map_values(|line: Vec<char>| line@)
}

/// The views of a list grow with it.
pub proof fn lemma_views_push(lines: Seq<Vec<char>>, line: Vec<char>)
    ensures
        views(lines.push(line)) == views(lines).push(line@),
{
    assert(views(lines.push(line)) =~= views(lines).push(line@));
}

/// The lines of a text.
pub fn lines(text: &[char]) -> (lines: Vec<Vec<char>>)
    ensures
        views(lines@) == lines_of(text@),
{
    let mut lines: Vec<Vec<char>> = Vec::new();
    let mut from: usize = 0;
    assert(views(lines@) =~= seq![]);
    assert(views(lines@) + lines_from(text@, 0) =~= lines_of(text@));
    while from < text.len()
        invariant
            from <= text@.len(),
            views(lines@) + lines_from(text@, from as int) == lines_of(text@),
        decreases text@.len() - from,
    {
        let end: usize = line_end(text, from);
        let ghost before = lines@;
        let ghost rest = lines_from(text@, from as int);
        if end == text.len() {
            let line: Vec<char> = copied(&text[from..end]);
            assert(line@ =~= text@.skip(from as int));
            proof {
                lemma_views_push(before, line);
            }
            lines.push(line);
            from = end;
            assert(lines_from(text@, from as int) =~= seq![]);
            assert(views(lines@) + lines_from(text@, from as int) =~= views(before) + rest);
        } else {
            let cut: usize = if end > from && text[end - 1] == '\r' { end - 1 } else { end };
            let line: Vec<char> = copied(&text[from..cut]);
            assert(line@ =~= without_return(text@.subrange(from as int, end as int)));
            proof {
                lemma_views_push(before, line);
            }
            lines.push(line);
            from = end + 1;
            assert(views(lines@) + lines_from(text@, from as int) =~= views(before) + rest);
        }
    }
    assert(views(lines@) + lines_from(text@, from as int) =~= views(lines@));
    lines
}

/// The characters with Unicode's White_Space property.
pub open spec fn is_space(c: char) -> bool {
    ||| '\u{9}' <= c <= '\u{d}'
    ||| c == ' '
    ||| c == '\u{85}'
    ||| c == '\u{a0}'
    ||| c == '\u{1680}'
    ||| '\u{2000}' <= c <= '\u{200a}'
    ||| c == '\u{2028}'
    ||| c == '\u{2029}'
    ||| c == '\u{202f}'
    ||| c == '\u{205f}'
    ||| c == '\u{3000}'
}

/// Whether the character has Unicode's White_Space property.
pub fn space(c: char) -> (yes: bool)
    ensures
        yes == is_space(c),
{
    ('\u{9}' <= c && c <= '\u{d}') || c == ' ' || c == '\u{85}' || c == '\u{a0}' || c == '\u{1680}'
        || ('\u{2000}' <= c && c <= '\u{200a}') || c == '\u{2028}' || c == '\u{2029}' || c
        == '\u{202f}' || c == '\u{205f}' || c == '\u{3000}'
}

/// The text without the white space at its end.
pub open spec fn trimmed_end(text: Seq<char>) -> Seq<char>
    decreases text.len(),
{
    if text.len() > 0 && is_space(text.last()) {
        trimmed_end(text.drop_last())
    } else {
        text
    }
}

/// The text without the white space at its beginning.
pub open spec fn trimmed_start(text: Seq<char>) -> Seq<char>
    decreases text.len(),
{
    if text.len() > 0 && is_space(text.first()) {
        trimmed_start(text.drop_first())
    } else {
        text
    }
}

/// The text without the white space at either end.
pub open spec fn trimmed(text: Seq<char>) -> Seq<char> {
    trimmed_end(trimmed_start(text))
}

/// The text without the white space at its end.
pub fn trim_end(text: &[char]) -> (kept: &[char])
    ensures
        kept@ == trimmed_end(text@),
{
    let mut end: usize = text.len();
    assert(text@.take(end as int) =~= text@);
    while end > 0 && space(text[end - 1])
        invariant
            end <= text@.len(),
            trimmed_end(text@) == trimmed_end(text@.take(end as int)),
        decreases end,
    {
        assert(text@.take(end as int).drop_last() =~= text@.take(end - 1));
        end -= 1;
    }
    let kept = &text[0..end];
    assert(kept@ =~= text@.take(end as int));
    kept
}

/// The text without the white space at its beginning.
pub fn trim_start(text: &[char]) -> (kept: &[char])
    ensures
        kept@ == trimmed_start(text@),
{
    let mut from: usize = 0;
    assert(text@.skip(0) =~= text@);
    while from < text.len() && space(text[from])
        invariant
            from <= text@.len(),
            trimmed_start(text@) == trimmed_start(text@.skip(from as int)),
        decreases text@.len() - from,
    {
        assert(text@.skip(from as int).drop_first() =~= text@.skip(from + 1));
        from += 1;
    }
    let kept = &text[from..text.len()];
    assert(kept@ =~= text@.skip(from as int));
    kept
}

/// The text without the white space at either end.
pub fn trim(text: &[char]) -> (kept: &[char])
    ensures
        kept@ == trimmed(text@),
{
    trim_end(trim_start(text))
}

/// Whether `text` begins with the given words.
pub fn begins(text: &[char], piece: &str) -> (found: bool)
    ensures
        found == begins_with(text@, piece@),
{
    starts_with(text, to_chars(piece).as_slice())
}

/// Whether the given words stand anywhere in `text`.
pub fn holds(text: &[char], piece: &str) -> (found: bool)
    ensures
        found == contains_piece(text@, piece@),
{
    contains(text, to_chars(piece).as_slice())
}

/// What follows the given words where `text` begins with them.
pub fn after<'a>(text: &'a [char], piece: &str) -> (rest: Option<&'a [char]>)
    ensures
        match rest {
            Some(rest) => after_prefix(text@, piece@) == Some(rest@),
            None => after_prefix(text@, piece@) is None,
        },
{
    strip_prefix(text, to_chars(piece).as_slice())
}

/// The parts of `text` before and after the first place where the given words stand.
pub fn around<'a>(text: &'a [char], piece: &str) -> (parts: Option<(&'a [char], &'a [char])>)
    ensures
        match parts {
            Some((before, after)) => around_first(text@, piece@) == Some((before@, after@)),
            None => around_first(text@, piece@) is None,
        },
{
    split_once(text, to_chars(piece).as_slice())
}

/// Whether a text is the given words.
pub fn is(text: &[char], words: &str) -> (equal: bool)
    ensures
        equal == (text@ == words@),
{
    same(text, to_chars(words).as_slice())
}

/// What stands between `left` and `right` where `text` begins with the one and the rest of it ends
/// with the other.
pub open spec fn between(text: Seq<char>, left: Seq<char>, right: Seq<char>) -> Option<Seq<char>> {
    match after_prefix(text, left) {
        Some(rest) => if ends_in(rest, right) {
            Some(rest.take(rest.len() - right.len()))
        } else {
            None
        },
        None => None,
    }
}

/// What stands between `left` and `right` where `text` begins with the one and the rest of it ends
/// with the other.
pub fn inside<'a>(text: &'a [char], left: &str, right: &str) -> (inner: Option<&'a [char]>)
    ensures
        match inner {
            Some(inner) => between(text@, left@, right@) == Some(inner@),
            None => between(text@, left@, right@) is None,
        },
{
    let right: Vec<char> = to_chars(right);
    match after(text, left) {
        Some(rest) => if ends_with(rest, right.as_slice()) {
            let inner = &rest[0..rest.len() - right.len()];
            assert(inner@ =~= rest@.take(rest@.len() - right@.len()));
            Some(inner)
        } else {
            None
        },
        None => None,
    }
}

/// Whether the character separates words: ASCII white space.
pub open spec fn is_ascii_space(c: char) -> bool {
    c == ' ' || c == '\t' || c == '\n' || c == '\u{c}' || c == '\r'
}

/// The first position at or after `from` that holds no ASCII white space.
pub open spec fn word_start(text: Seq<char>, from: int) -> int {
    next_where(text, from, |c: char| !is_ascii_space(c))
}

/// The first position at or after `from` that holds ASCII white space.
pub open spec fn word_end(text: Seq<char>, from: int) -> int {
    next_where(text, from, |c: char| is_ascii_space(c))
}

/// The words of `text` from position `from` on, separated by ASCII white space.
pub open spec fn words_from(text: Seq<char>, from: int) -> Seq<Seq<char>>
    decreases text.len() - from,
{
    let start = word_start(text, from);
    let end = word_end(text, start);
    if from < 0 || start < from || start >= text.len() || end <= start || end > text.len() {
        seq![]
    } else {
        seq![text.subrange(start, end)] + words_from(text, end)
    }
}

/// The words of a text.
pub open spec fn words_of(text: Seq<char>) -> Seq<Seq<char>> {
    words_from(text, 0)
}

fn ascii_space(c: char) -> (yes: bool)
    ensures
        yes == is_ascii_space(c),
{
    c == ' ' || c == '\t' || c == '\n' || c == '\u{c}' || c == '\r'
}

/// The words of a text, separated by ASCII white space.
pub fn words(text: &[char]) -> (words: Vec<Vec<char>>)
    ensures
        views(words@) == words_of(text@),
{
    let mut words: Vec<Vec<char>> = Vec::new();
    let mut from: usize = 0;
    assert(views(words@) =~= seq![]);
    assert(views(words@) + words_from(text@, 0) =~= words_of(text@));
    loop
        invariant
            from <= text@.len(),
            views(words@) + words_from(text@, from as int) == words_of(text@),
        decreases text@.len() - from,
    {
        let mut start: usize = from;
        while start < text.len() && ascii_space(text[start])
            invariant
                from <= start <= text@.len(),
                word_start(text@, from as int) == word_start(text@, start as int),
            decreases text@.len() - start,
        {
            start += 1;
        }
        let mut end: usize = start;
        while end < text.len() && !ascii_space(text[end])
            invariant
                start <= end <= text@.len(),
                word_end(text@, start as int) == word_end(text@, end as int),
            decreases text@.len() - end,
        {
            end += 1;
        }
        let ghost before = words@;
        let ghost rest = words_from(text@, from as int);
        if start == text.len() {
            assert(views(words@) + rest =~= views(words@));
            return words;
        }
        let word: Vec<char> = copied(&text[start..end]);
        proof {
            lemma_views_push(before, word);
        }
        words.push(word);
        from = end;
        assert(views(words@) + words_from(text@, from as int) =~= views(before) + rest);
    }
}

/// The text from position `from` on with every `piece` in it, taken from the left, replaced.
pub open spec fn replaced_from(
    text: Seq<char>,
    piece: Seq<char>,
    with: Seq<char>,
    from: int,
) -> Seq<char>
    decreases text.len() - from,
{
    match first_from(text, piece, from) {
        None => text.skip(from),
        Some(at) => if at < from || piece.len() == 0 || at + piece.len() > text.len() {
            text.skip(from)
        } else {
            text.subrange(from, at) + with + replaced_from(text, piece, with, at + piece.len())
        },
    }
}

/// The text with every `piece` in it, taken from the left, replaced.
pub open spec fn replaced(text: Seq<char>, piece: Seq<char>, with: Seq<char>) -> Seq<char> {
    replaced_from(text, piece, with, 0)
}

/// The text with every `piece` in it, taken from the left, replaced.
pub fn replace(text: &[char], piece: &[char], with: &[char]) -> (out: Vec<char>)
    requires
        piece@.len() > 0,
    ensures
        out@ == replaced(text@, piece@, with@),
{
    let len: usize = text.len();
    let mut out: Vec<char> = Vec::new();
    let mut from: usize = 0;
    assert(out@ + replaced_from(text@, piece@, with@, 0) =~= replaced(text@, piece@, with@));
    loop
        invariant
            piece@.len() > 0,
            len == text@.len(),
            from <= len,
            out@ + replaced_from(text@, piece@, with@, from as int) == replaced(
                text@,
                piece@,
                with@,
            ),
        decreases len - from,
    {
        let ghost rest = replaced_from(text@, piece@, with@, from as int);
        match find_from(text, piece, from) {
            None => {
                let tail = &text[from..len];
                assert(tail@ =~= rest);
                return joined(out.as_slice(), tail);
            },
            Some(at) => {
                let ghost before = out@;
                let kept: Vec<char> = joined(out.as_slice(), &text[from..at]);
                out = joined(kept.as_slice(), with);
                from = at + piece.len();
                assert(out@ + replaced_from(text@, piece@, with@, from as int) =~= before + rest);
            },
        }
    }
}

/// Whether the character is an ASCII digit.
pub open spec fn is_digit(c: char) -> bool {
    '0' <= c <= '9'
}

/// Whether the text is made of ASCII digits alone.
pub open spec fn all_digits(text: Seq<char>) -> bool {
    forall|i: int| 0 <= i < text.len() ==> is_digit(#[trigger] text[i])
}

/// The number that a text of digits writes in base ten.
pub open spec fn digits_value(text: Seq<char>) -> int
    decreases text.len(),
{
    if text.len() == 0 {
        0
    } else {
        digits_value(text.drop_last()) * 10 + (text.last() as int - '0' as int)
    }
}

/// The number that a text of digits writes, where it is at most `max`.
pub open spec fn digits_read(text: Seq<char>, max: int) -> Option<int> {
    if text.len() > 0 && all_digits(text) && digits_value(text) <= max {
        Some(digits_value(text))
    } else {
        None
    }
}

/// The unsigned number of at most `max` that a text writes: digits, after an optional plus sign.
pub open spec fn unsigned_read(text: Seq<char>, max: int) -> Option<int> {
    if text.len() > 0 && text[0] == '+' {
        digits_read(text.skip(1), max)
    } else {
        digits_read(text, max)
    }
}

/// The 64-bit signed number that a text writes: digits, after an optional sign.
pub open spec fn i64_read(text: Seq<char>) -> Option<int> {
    if text.len() > 0 && text[0] == '-' {
        match digits_read(text.skip(1), i64::MAX + 1) {
            Some(value) => Some(-value),
            None => None,
        }
    } else {
        unsigned_read(text, i64::MAX as int)
    }
}

/// A text of digits writes no smaller a number than the beginning of it does.
proof fn lemma_digits_value_grows(text: Seq<char>, len: int)
    requires
        0 <= len <= text.len(),
        all_digits(text),
    ensures
        0 <= digits_value(text.take(len)) <= digits_value(text),
    decreases text.len(),
{
    if len == text.len() {
        assert(text.take(len) =~= text);
        if len > 0 {
            lemma_digits_value_grows(text.drop_last(), len - 1);
            assert(text.drop_last().take(len - 1) =~= text.drop_last());
        }
    } else {
        lemma_digits_value_grows(text.drop_last(), len);
        assert(text.drop_last().take(len) =~= text.take(len));
    }
}

/// The number that a text of digits writes, where it is at most `max`.
fn digits(text: &[char], max: u64) -> (value: Option<u64>)
    ensures
        match value {
            Some(value) => digits_read(text@, max as int) == Some(value as int),
            None => digits_read(text@, max as int) is None,
        },
{
    let len: usize = text.len();
    if len == 0 {
        return None;
    }
    let mut value: u64 = 0;
    for i in 0..len
        invariant
            len == text@.len(),
            all_digits(text@.take(i as int)),
            value == digits_value(text@.take(i as int)),
            value <= max,
    {
        let c: char = text[i];
        if !('0' <= c && c <= '9') {
            assert(!is_digit(text@[i as int]));
            return None;
        }
        assert(text@.take(i + 1).drop_last() =~= text@.take(i as int));
        assert(all_digits(text@.take(i + 1)));
        let digit: u64 = c as u64 - '0' as u64;
        if value > (max - digit.min(max)) / 10 || digit > max {
            proof {
                if all_digits(text@) {
                    lemma_digits_value_grows(text@, i + 1);
                }
            }
            return None;
        }
        value = value * 10 + digit;
    }
    assert(text@.take(len as int) =~= text@);
    Some(value)
}

/// The unsigned number of at most `max` that a text writes.
pub fn read_unsigned(text: &[char], max: u64) -> (value: Option<u64>)
    ensures
        match value {
            Some(value) => unsigned_read(text@, max as int) == Some(value as int),
            None => unsigned_read(text@, max as int) is None,
        },
{
    if text.len() > 0 && text[0] == '+' {
        let rest = &text[1..text.len()];
        assert(rest@ =~= text@.skip(1));
        digits(rest, max)
    } else {
        digits(text, max)
    }
}

/// The 64-bit signed number that a text writes.
pub fn read_i64(text: &[char]) -> (value: Option<i64>)
    ensures
        match value {
            Some(value) => i64_read(text@) == Some(value as int),
            None => i64_read(text@) is None,
        },
{
    if text.len() > 0 && text[0] == '-' {
        let rest = &text[1..text.len()];
        assert(rest@ =~= text@.skip(1));
        match digits(rest, 0x8000_0000_0000_0000u64) {
            Some(value) => Some(
                if value == 0x8000_0000_0000_0000u64 {
                    i64::MIN
                } else {
                    -(value as i64)
                },
            ),
            None => None,
        }
    } else {
        match read_unsigned(text, 0x7fff_ffff_ffff_ffffu64) {
            Some(value) => Some(value as i64),
            None => None,
        }
    }
}

/// The digit that stands for a number below ten.
pub open spec fn digit_char(digit: int) -> char {
    (('0' as int + digit) as u32) as char
}

/// A number written in base ten.
pub open spec fn decimal(n: nat) -> Seq<char>
    decreases n,
{
    if n < 10 {
        seq![digit_char(n as int)]
    } else {
        decimal(n / 10).push(digit_char((n % 10) as int))
    }
}

/// A number written in base ten is read back as itself.
pub proof fn lemma_decimal_reads_back(n: nat)
    ensures
        decimal(n).len() > 0,
        all_digits(decimal(n)),
        digits_value(decimal(n)) == n,
    decreases n,
{
    let last = digit_char((n % 10) as int);
    assert(last as int == '0' as int + n % 10);
    if n < 10 {
        assert(decimal(n) =~= seq![last]);
        assert(decimal(n).drop_last() =~= seq![]);
        assert(decimal(n).last() == last);
        assert(digits_value(decimal(n).drop_last()) == 0);
    } else {
        lemma_decimal_reads_back(n / 10);
        let head = decimal(n / 10);
        assert(decimal(n) == head.push(last));
        assert(decimal(n).drop_last() =~= head);
        assert forall|i: int| 0 <= i < decimal(n).len() implies is_digit(
            #[trigger] decimal(n)[i],
        ) by {
            if i < head.len() {
                assert(is_digit(head[i]));
            }
        }
    }
}

/// A number written in base ten.
pub fn write_decimal(n: u64) -> (text: Vec<char>)
    ensures
        text@ == decimal(n as nat),
    decreases n,
{
    let last: char = (48u8 + (n % 10) as u8) as char;
    if n < 10 {
        let mut text: Vec<char> = Vec::new();
        text.push(last);
        assert(text@ =~= decimal(n as nat));
        text
    } else {
        let mut text: Vec<char> = write_decimal(n / 10);
        text.push(last);
        text
    }
}

/// Whether `left` comes before `right` in the order of texts: by the first character in which they
/// differ, a text before its own continuations.
pub open spec fn precedes(left: Seq<char>, right: Seq<char>) -> bool
    decreases left.len(),
{
    if right.len() == 0 {
        false
    } else if left.len() == 0 {
        true
    } else if left[0] == right[0] {
        precedes(left.skip(1), right.skip(1))
    } else {
        left[0] < right[0]
    }
}

/// Of two texts, one comes first or they are the same.
pub proof fn lemma_precedes_total(left: Seq<char>, right: Seq<char>)
    ensures
        precedes(left, right) || precedes(right, left) || left == right,
        !(precedes(left, right) && precedes(right, left)),
        !precedes(left, left),
    decreases left.len(),
{
    if left.len() > 0 {
        lemma_precedes_total(left.skip(1), left.skip(1));
        if right.len() > 0 && left[0] == right[0] {
            lemma_precedes_total(left.skip(1), right.skip(1));
            if left.skip(1) == right.skip(1) {
                assert(left =~= seq![left[0]] + left.skip(1));
                assert(right =~= seq![right[0]] + right.skip(1));
            }
        }
    } else if right.len() == 0 {
        assert(left =~= right);
    }
}

/// The order of texts is transitive.
pub proof fn lemma_precedes_transitive(first: Seq<char>, second: Seq<char>, third: Seq<char>)
    requires
        precedes(first, second),
        precedes(second, third),
    ensures
        precedes(first, third),
    decreases first.len(),
{
    if first.len() > 0 && first[0] == second[0] && second[0] == third[0] {
        lemma_precedes_transitive(first.skip(1), second.skip(1), third.skip(1));
    }
}

/// Whether `left` comes before `right` in the order of texts.
pub fn before(left: &[char], right: &[char]) -> (yes: bool)
    ensures
        yes == precedes(left@, right@),
{
    let mut i: usize = 0;
    assert(left@.skip(0) =~= left@);
    assert(right@.skip(0) =~= right@);
    while i < left.len() && i < right.len() && left[i] == right[i]
        invariant
            i <= left@.len(),
            i <= right@.len(),
            precedes(left@, right@) == precedes(left@.skip(i as int), right@.skip(i as int)),
        decreases left@.len() - i,
    {
        assert(left@.skip(i as int).skip(1) =~= left@.skip(i + 1));
        assert(right@.skip(i as int).skip(1) =~= right@.skip(i + 1));
        i += 1;
    }
    if i == right.len() {
        false
    } else if i == left.len() {
        true
    } else {
        left[i] < right[i]
    }
}

} // verus!
