//! What holds of every cut and reading of a text.

use vstd::prelude::*;

use crate::paths::{
    extended, extension_of, name_extension, name_of, name_stem, parts_from, path_body,
};
use crate::text::{
    after_prefix, around_first, between, digits_value, first_from, i64_read, is_space, last_of,
    lemma_first_from, lines_from, lines_of, next_where, occurs_at, precedes, replaced,
    replaced_from, trimmed, trimmed_end, trimmed_start, unsigned_read, without_return, words_from,
    words_of,
};

verus! {

/// A text is the part before the first piece, the piece, and the part behind it, and the piece stands
/// nowhere earlier; a text that is not cut holds the piece nowhere.
pub proof fn text_is_cut_at_the_first_piece(text: Seq<char>, piece: Seq<char>)
    ensures
        match around_first(text, piece) {
            Some((before, after)) => {
                &&& text == before + piece + after
                &&& forall|at: int|
                    0 <= at < before.len() && at + piece.len() <= text.len() ==> #[trigger] text.subrange(
                        at,
                        at + piece.len(),
                    ) != piece
            },
            None => forall|at: int|
                0 <= at && at + piece.len() <= text.len() ==> #[trigger] text.subrange(
                    at,
                    at + piece.len(),
                ) != piece,
        },
{
    lemma_first_from(text, piece, 0);
    match first_from(text, piece, 0) {
        Some(at) => {
            assert(occurs_at(text, piece, at));
            assert(text =~= text.take(at) + piece + text.skip(at + piece.len()));
            assert forall|i: int| 0 <= i < at && i + piece.len() <= text.len() implies
                #[trigger] text.subrange(i, i + piece.len()) != piece by {
                assert(!occurs_at(text, piece, i));
            }
        },
        None => {
            assert forall|i: int| 0 <= i && i + piece.len() <= text.len() implies
                #[trigger] text.subrange(i, i + piece.len()) != piece by {
                assert(!occurs_at(text, piece, i));
            }
        },
    }
}

/// A prefix is taken off if and only if the text begins with it: the prefix and the rest make the
/// text.
pub proof fn prefix_and_rest_make_the_text(text: Seq<char>, piece: Seq<char>)
    ensures
        match after_prefix(text, piece) {
            Some(rest) => text == piece + rest,
            None => forall|rest: Seq<char>| #[trigger] (piece + rest) != text,
        },
{
    if after_prefix(text, piece) is Some {
        assert(text =~= piece + text.skip(piece.len() as int));
    } else {
        assert forall|rest: Seq<char>| #[trigger] (piece + rest) != text by {
            if piece + rest == text {
                assert(text.subrange(0, piece.len() as int) =~= piece);
            }
        }
    }
}

/// What stands between two brackets makes, with the brackets, the text.
pub proof fn brackets_and_inner_make_the_text(text: Seq<char>, left: Seq<char>, right: Seq<char>)
    ensures
        match between(text, left, right) {
            Some(inner) => text == left + inner + right,
            None => true,
        },
{
    if between(text, left, right) is Some {
        let rest = text.skip(left.len() as int);
        let inner = rest.take(rest.len() - right.len());
        assert(text =~= left + rest);
        assert(rest =~= inner + right);
        assert(text =~= left + inner + right);
    }
}

/// Whether every character of a text is white space.
pub open spec fn blank(text: Seq<char>) -> bool {
    forall|i: int| 0 <= i < text.len() ==> is_space(#[trigger] text[i])
}

/// Trimming the end takes white space off it and nothing else, and leaves none there.
pub proof fn trimmed_end_is_all_but_white_space(text: Seq<char>)
    ensures
        exists|tail: Seq<char>| blank(tail) && text == #[trigger] (trimmed_end(text) + tail),
        trimmed_end(text).len() > 0 ==> !is_space(trimmed_end(text).last()),
    decreases text.len(),
{
    if text.len() > 0 && is_space(text.last()) {
        let less = text.drop_last();
        trimmed_end_is_all_but_white_space(less);
        let tail = choose|tail: Seq<char>| blank(tail) && less == #[trigger] (trimmed_end(less)
            + tail);
        let longer = tail.push(text.last());
        assert(less == trimmed_end(less) + tail);
        assert(text =~= less.push(text.last()));
        assert(text =~= trimmed_end(less) + longer);
        assert(blank(longer));
        assert(text == trimmed_end(text) + longer);
    } else {
        let none: Seq<char> = seq![];
        assert(text =~= trimmed_end(text) + none);
        assert(blank(none));
    }
}

/// Trimming the start takes white space off it and nothing else, and leaves none there.
pub proof fn trimmed_start_is_all_but_white_space(text: Seq<char>)
    ensures
        exists|head: Seq<char>| blank(head) && text == #[trigger] (head + trimmed_start(text)),
        trimmed_start(text).len() > 0 ==> !is_space(trimmed_start(text)[0]),
    decreases text.len(),
{
    if text.len() > 0 && is_space(text.first()) {
        let less = text.drop_first();
        trimmed_start_is_all_but_white_space(less);
        let head = choose|head: Seq<char>| blank(head) && less == #[trigger] (head
            + trimmed_start(less));
        let longer = seq![text.first()] + head;
        assert(less == head + trimmed_start(less));
        assert(text =~= seq![text.first()] + less);
        assert(text =~= longer + trimmed_start(less));
        assert(blank(longer));
        assert(text == longer + trimmed_start(text));
    } else {
        let none: Seq<char> = seq![];
        assert(text =~= none + trimmed_start(text));
        assert(blank(none));
    }
}

/// A trimmed text is the text without white space around it.
pub proof fn trimmed_is_all_but_white_space(text: Seq<char>)
    ensures
        exists|head: Seq<char>, tail: Seq<char>|
            blank(head) && blank(tail) && text == #[trigger] (head + trimmed(text) + tail),
        trimmed(text).len() > 0 ==> !is_space(trimmed(text)[0]) && !is_space(trimmed(text).last()),
{
    trimmed_start_is_all_but_white_space(text);
    let inner = trimmed_start(text);
    trimmed_end_is_all_but_white_space(inner);
    let head = choose|head: Seq<char>| blank(head) && text == #[trigger] (head + inner);
    let tail = choose|tail: Seq<char>| blank(tail) && inner == #[trigger] (trimmed(text) + tail);
    assert(text =~= head + trimmed(text) + tail);
    if trimmed(text).len() > 0 {
        assert(inner[0] == trimmed(text)[0]);
    }
}

proof fn lemma_next_newline(text: Seq<char>, from: int)
    requires
        0 <= from <= text.len(),
    ensures
        ({
            let end = next_where(text, from, crate::text::newline());
            &&& from <= end <= text.len()
            &&& forall|i: int| from <= i < end ==> text[i] != '\n'
            &&& end < text.len() ==> text[end] == '\n'
        }),
    decreases text.len() - from,
{
    if from < text.len() && text[from] != '\n' {
        lemma_next_newline(text, from + 1);
    }
}

/// Whether lines are those of a text from a position on: each runs to the next line feed without it
/// and without a carriage return before it, and the last one to the end of the text.
pub open spec fn reads_lines(lines: Seq<Seq<char>>, text: Seq<char>, from: int) -> bool
    decreases lines.len(),
{
    if lines.len() == 0 {
        from >= text.len()
    } else {
        exists|end: int|
            #![trigger text.subrange(from, end)]
            {
                &&& 0 <= from < text.len() && from <= end <= text.len()
                &&& forall|i: int| from <= i < end ==> text[i] != '\n'
                &&& end == text.len() ==> lines.len() == 1 && lines[0] == text.subrange(from, end)
                &&& end < text.len() ==> {
                    &&& text[end] == '\n'
                    &&& lines[0] == text.subrange(from, end) || end > from && text[end - 1] == '\r'
                        && lines[0] == text.subrange(from, end - 1)
                    &&& end > from && text[end - 1] == '\r' ==> lines[0] == text.subrange(
                        from,
                        end - 1,
                    )
                    &&& reads_lines(lines.skip(1), text, end + 1)
                }
            }
    }
}

proof fn lemma_lines_from(text: Seq<char>, from: int)
    requires
        0 <= from,
    ensures
        reads_lines(lines_from(text, from), text, from),
    decreases text.len() - from,
{
    if from < text.len() {
        lemma_next_newline(text, from);
        let end = next_where(text, from, crate::text::newline());
        let lines = lines_from(text, from);
        let line = text.subrange(from, end);
        if end >= text.len() {
            assert(text.skip(from) =~= text.subrange(from, end));
            assert(lines[0] == text.subrange(from, end));
        } else {
            lemma_lines_from(text, end + 1);
            assert(lines.skip(1) =~= lines_from(text, end + 1));
            if line.len() > 0 {
                assert(line.last() == text[end - 1]);
                assert(line.drop_last() =~= text.subrange(from, end - 1));
            }
            assert(lines[0] == without_return(text.subrange(from, end)));
        }
    }
}

/// The lines of a text are the text between its line feeds, one after another, with nothing lost but
/// the line feeds and the carriage returns before them.
pub proof fn lines_read_the_whole_text(text: Seq<char>)
    ensures
        reads_lines(lines_of(text), text, 0),
{
    lemma_lines_from(text, 0);
}

proof fn lemma_last_of(text: Seq<char>, c: char)
    ensures
        match last_of(text, c) {
            Some(at) => 0 <= at < text.len() && text[at] == c && forall|i: int|
                at < i < text.len() ==> text[i] != c,
            None => forall|i: int| 0 <= i < text.len() ==> text[i] != c,
        },
    decreases text.len(),
{
    if text.len() > 0 && text.last() != c {
        lemma_last_of(text.drop_last(), c);
        let rest = text.drop_last();
        assert forall|i: int| 0 <= i < rest.len() implies rest[i] == text[i] by {}
    }
}

/// The place of the last of a character holds it, and no later place does; there is none only where
/// the text does not hold it.
pub proof fn last_place_is_the_last(text: Seq<char>, c: char)
    ensures
        match last_of(text, c) {
            Some(at) => 0 <= at < text.len() && text[at] == c && forall|i: int|
                at < i < text.len() ==> text[i] != c,
            None => forall|i: int| 0 <= i < text.len() ==> text[i] != c,
        },
{
    lemma_last_of(text, c);
}

/// A file name is its stem, a dot, and its extension, which holds no dot; without an extension it is
/// its stem.
pub proof fn stem_and_extension_make_the_name(name: Seq<char>)
    ensures
        match name_extension(name) {
            Some(extension) => {
                &&& name == name_stem(name) + seq!['.'] + extension
                &&& name_stem(name).len() > 0
                &&& forall|i: int| 0 <= i < extension.len() ==> extension[i] != '.'
            },
            None => name_stem(name) == name && forall|i: int| 0 < i < name.len() ==> name[i] != '.',
        },
{
    lemma_last_of(name, '.');
    match last_of(name, '.') {
        Some(at) => {
            if at > 0 {
                assert(name =~= name.take(at) + seq!['.'] + name.skip(at + 1));
            }
        },
        None => {},
    }
}

/// A number is read from its decimal digits, with or without a plus sign, and from nothing else: the
/// last digit is the value's last, and the digits before it are the rest.
pub proof fn digits_make_the_value(text: Seq<char>)
    ensures
        text.len() == 0 ==> digits_value(text) == 0,
        text.len() > 0 && '0' <= text.last() <= '9' ==> digits_value(text) == digits_value(
            text.drop_last(),
        ) * 10 + (text.last() as int - 48),
{
}

/// Whether every character of a text is a decimal digit.
pub open spec fn numeral(text: Seq<char>) -> bool {
    text.len() > 0 && forall|i: int| 0 <= i < text.len() ==> '0' <= #[trigger] text[i] <= '9'
}

/// An unsigned number is read if and only if the text is a numeral within the bound, with or without a
/// plus sign, and a signed one may also follow a minus sign.
pub proof fn numbers_are_read_from_numerals(text: Seq<char>, max: int)
    ensures
        numeral(text) && digits_value(text) <= max ==> unsigned_read(text, max) == Some(
            digits_value(text),
        ),
        numeral(text) && digits_value(text) > max ==> unsigned_read(text, max) is None,
        unsigned_read(text, max) is Some ==> {
            ||| numeral(text)
            ||| text.len() > 0 && text[0] == '+' && numeral(text.skip(1))
        },
        numeral(text) && digits_value(text) <= i64::MAX ==> i64_read(text) == Some(
            digits_value(text),
        ),
        text.len() > 0 && text[0] == '-' && numeral(text.skip(1)) && digits_value(text.skip(1))
            <= i64::MAX ==> i64_read(text) == Some(-digits_value(text.skip(1))),
        i64_read(text) is Some ==> {
            ||| numeral(text)
            ||| text.len() > 0 && (text[0] == '+' || text[0] == '-') && numeral(text.skip(1))
        },
{
    if numeral(text) {
        assert('0' <= text[0] <= '9');
    }
    if crate::text::all_digits(text) {
        assert forall|i: int| 0 <= i < text.len() implies '0' <= #[trigger] text[i] <= '9' by {
            assert(crate::text::is_digit(text[i]));
        }
    }
    let rest = text.skip(1);
    if crate::text::all_digits(rest) {
        assert forall|i: int| 0 <= i < rest.len() implies '0' <= #[trigger] rest[i] <= '9' by {
            assert(crate::text::is_digit(rest[i]));
        }
    }
}

/// The order of texts is that of their first difference: a text comes before the longer ones that
/// begin with it, and otherwise the smaller character decides.
pub proof fn order_is_that_of_the_first_difference(
    head: Seq<char>,
    left: Seq<char>,
    right: Seq<char>,
)
    ensures
        left.len() > 0 && right.len() > 0 && left[0] < right[0] ==> precedes(
            head + left,
            head + right,
        ) && !precedes(head + right, head + left),
        right.len() > 0 && left.len() == 0 ==> precedes(head + left, head + right) && !precedes(
            head + right,
            head + left,
        ),
    decreases head.len(),
{
    if head.len() > 0 {
        let rest = head.skip(1);
        order_is_that_of_the_first_difference(rest, left, right);
        assert((head + left).skip(1) =~= rest + left);
        assert((head + right).skip(1) =~= rest + right);
    } else {
        assert(head + left =~= left);
        assert(head + right =~= right);
    }
}

proof fn lemma_last_is(text: Seq<char>, c: char, at: int)
    requires
        0 <= at < text.len(),
        text[at] == c,
        forall|i: int| at < i < text.len() ==> text[i] != c,
    ensures
        last_of(text, c) == Some(at),
{
    lemma_last_of(text, c);
}

proof fn lemma_path_body(path: Seq<char>)
    ensures
        path_body(path).len() <= path.len(),
        path_body(path) == path.take(path_body(path).len() as int),
    decreases path.len(),
{
    if path_body(path) != path {
        let less = path.drop_last();
        lemma_path_body(less);
        assert(less.take(path_body(less).len() as int) =~= path.take(path_body(less).len() as int));
    } else {
        assert(path.take(path.len() as int) =~= path);
    }
}

/// A path with an extension added names the file under the same name with a dot and the extension
/// behind it, in the same directory, and that is its extension.
pub proof fn added_extension_is_the_extension(path: Seq<char>, extension: Seq<char>)
    requires
        name_of(path) is Some,
        extension.len() > 0,
        forall|i: int|
            0 <= i < extension.len() ==> #[trigger] extension[i] != '/' && extension[i] != '.',
    ensures
        name_of(extended(path, extension)) == Some(name_of(path)->0 + "."@ + extension),
        extension_of(extended(path, extension)) == Some(extension),
{
    reveal_strlit(".");
    reveal_strlit("..");
    let body = path_body(path);
    let longer = body + "."@ + extension;
    assert(longer.last() == extension.last());
    assert(path_body(longer) == longer);
    lemma_last_of(body, '/');
    let name = name_of(path)->0;
    let long_name = name + "."@ + extension;
    match last_of(body, '/') {
        Some(at) => {
            lemma_last_is(longer, '/', at);
            assert(longer.skip(at + 1) =~= long_name);
        },
        None => {
            lemma_last_of(longer, '/');
            if last_of(longer, '/') is Some {
                let at = last_of(longer, '/')->0;
                assert(at < body.len());
                assert(body[at] == longer[at]);
            }
            assert(longer =~= long_name);
        },
    }
    assert(long_name.len() > 2);
    lemma_last_is(long_name, '.', name.len() as int);
    assert(long_name.skip(name.len() as int + 1) =~= extension);
}

/// A number that is read lies between zero and the bound.
pub proof fn unsigned_is_within(text: Seq<char>, max: int)
    ensures
        unsigned_read(text, max) is Some ==> 0 <= unsigned_read(text, max)->0 <= max,
{
    lemma_value_is_not_negative(text);
    lemma_value_is_not_negative(text.skip(1));
}

proof fn lemma_value_is_not_negative(text: Seq<char>)
    ensures
        crate::text::all_digits(text) ==> digits_value(text) >= 0,
    decreases text.len(),
{
    if text.len() > 0 && crate::text::all_digits(text) {
        let less = text.drop_last();
        assert forall|i: int| 0 <= i < less.len() implies crate::text::is_digit(
            #[trigger] less[i],
        ) by {
            assert(crate::text::is_digit(text[i]));
        }
        lemma_value_is_not_negative(less);
        assert(crate::text::is_digit(text[text.len() - 1]));
    }
}

/// A signed number that is read fits 64 bits.
pub proof fn signed_is_within(text: Seq<char>)
    ensures
        i64_read(text) is Some ==> i64::MIN <= i64_read(text)->0 <= i64::MAX,
{
    lemma_value_is_not_negative(text);
    lemma_value_is_not_negative(text.skip(1));
}

/// Whether a character is white space of ASCII.
pub open spec fn ascii_blank(c: char) -> bool {
    c == ' ' || c == '\t' || c == '\n' || c == '\r' || c == '\u{c}'
}

/// Whether words are those of a text from a position on: each is a run of characters that are not
/// white space, between white space or the ends of the text, and nothing but white space is left out.
pub open spec fn reads_words(words: Seq<Seq<char>>, text: Seq<char>, from: int) -> bool
    decreases words.len(),
{
    if words.len() == 0 {
        forall|i: int| from <= i < text.len() ==> ascii_blank(#[trigger] text[i])
    } else {
        exists|start: int, end: int|
            #![trigger text.subrange(start, end)]
            {
                &&& 0 <= from <= start < end <= text.len()
                &&& forall|i: int| from <= i < start ==> ascii_blank(#[trigger] text[i])
                &&& forall|i: int| start <= i < end ==> !ascii_blank(#[trigger] text[i])
                &&& end < text.len() ==> ascii_blank(text[end])
                &&& words[0] == text.subrange(start, end)
                &&& reads_words(words.skip(1), text, end)
            }
    }
}

proof fn lemma_run(text: Seq<char>, from: int, stop: spec_fn(char) -> bool)
    requires
        0 <= from <= text.len(),
    ensures
        ({
            let end = next_where(text, from, stop);
            &&& from <= end <= text.len()
            &&& forall|i: int| from <= i < end ==> !stop(#[trigger] text[i])
            &&& end < text.len() ==> stop(text[end])
        }),
    decreases text.len() - from,
{
    if from < text.len() && !stop(text[from]) {
        lemma_run(text, from + 1, stop);
    }
}

proof fn lemma_words(text: Seq<char>, from: int)
    requires
        0 <= from <= text.len(),
    ensures
        reads_words(words_from(text, from), text, from),
    decreases text.len() - from,
{
    let start = crate::text::word_start(text, from);
    lemma_run(text, from, |c: char| !crate::text::is_ascii_space(c));
    let end = crate::text::word_end(text, start);
    lemma_run(text, start, |c: char| crate::text::is_ascii_space(c));
    let words = words_from(text, from);
    assert forall|i: int| from <= i < start implies ascii_blank(#[trigger] text[i]) by {
        assert(crate::text::is_ascii_space(text[i]));
    }
    if start < text.len() {
        assert(end > start);
        assert forall|i: int| start <= i < end implies !ascii_blank(#[trigger] text[i]) by {
            assert(!crate::text::is_ascii_space(text[i]));
        }
        lemma_words(text, end);
        assert(words.skip(1) =~= words_from(text, end));
        assert(words[0] == text.subrange(start, end));
    }
}

/// The words of a text are its runs between white space, one after another, with nothing lost but the
/// white space.
pub proof fn words_read_the_whole_text(text: Seq<char>)
    ensures
        reads_words(words_of(text), text, 0),
{
    lemma_words(text, 0);
}

/// Whether a text is another from a position on with every piece, taken from the left, replaced.
pub open spec fn rewrites(
    out: Seq<char>,
    text: Seq<char>,
    piece: Seq<char>,
    with: Seq<char>,
    from: int,
) -> bool
    decreases text.len() - from,
{
    ||| out == text.skip(from) && forall|i: int|
        from <= i && i + piece.len() <= text.len() ==> #[trigger] text.subrange(
            i,
            i + piece.len(),
        ) != piece
    ||| exists|at: int, rest: Seq<char>|
        #![trigger text.subrange(from, at) + with + rest]
        {
            &&& 0 <= from <= at && at + piece.len() <= text.len() && piece.len() > 0
            &&& text.subrange(at, at + piece.len()) == piece
            &&& forall|i: int|
                from <= i < at && i + piece.len() <= text.len() ==> #[trigger] text.subrange(
                    i,
                    i + piece.len(),
                ) != piece
            &&& out == text.subrange(from, at) + with + rest
            &&& rewrites(rest, text, piece, with, at + piece.len())
        }
}

proof fn lemma_rewrites(text: Seq<char>, piece: Seq<char>, with: Seq<char>, from: int)
    requires
        piece.len() > 0,
        0 <= from <= text.len(),
    ensures
        rewrites(replaced_from(text, piece, with, from), text, piece, with, from),
    decreases text.len() - from,
{
    lemma_first_from(text, piece, from);
    match first_from(text, piece, from) {
        None => {
            assert forall|i: int| from <= i && i + piece.len() <= text.len() implies
                #[trigger] text.subrange(i, i + piece.len()) != piece by {
                assert(!occurs_at(text, piece, i));
            }
        },
        Some(at) => {
            assert forall|i: int| from <= i < at && i + piece.len() <= text.len() implies
                #[trigger] text.subrange(i, i + piece.len()) != piece by {
                assert(!occurs_at(text, piece, i));
            }
            let rest = replaced_from(text, piece, with, at + piece.len());
            lemma_rewrites(text, piece, with, at + piece.len());
            assert(replaced_from(text, piece, with, from) == text.subrange(from, at) + with + rest);
        },
    }
}

/// Replacing a piece puts the replacement in the place of each of its occurrences, taken from the
/// left, and leaves every other character where it is.
pub proof fn replacing_leaves_the_rest(text: Seq<char>, piece: Seq<char>, with: Seq<char>)
    requires
        piece.len() > 0,
    ensures
        rewrites(replaced(text, piece, with), text, piece, with, 0),
{
    lemma_rewrites(text, piece, with, 0);
}

/// Whether parts are those of a path from a position on: each runs to the next slash, and the last one
/// to the end.
pub open spec fn reads_parts(parts: Seq<Seq<char>>, path: Seq<char>, from: int) -> bool
    decreases parts.len(),
{
    parts.len() > 0 && exists|end: int|
        #![trigger path.subrange(from, end)]
        {
            &&& 0 <= from <= end <= path.len()
            &&& forall|i: int| from <= i < end ==> path[i] != '/'
            &&& parts[0] == path.subrange(from, end)
            &&& end == path.len() ==> parts.len() == 1
            &&& end < path.len() ==> path[end] == '/' && reads_parts(parts.skip(1), path, end + 1)
        }
}

proof fn lemma_parts(path: Seq<char>, from: int)
    requires
        0 <= from <= path.len(),
    ensures
        reads_parts(parts_from(path, from), path, from),
    decreases path.len() - from,
{
    lemma_run(path, from, |c: char| c == '/');
    let end = next_where(path, from, |c: char| c == '/');
    let parts = parts_from(path, from);
    assert forall|i: int| from <= i < end implies path[i] != '/' by {
        assert(!(|c: char| c == '/')(path[i]));
    }
    if end >= path.len() {
        assert(path.skip(from) =~= path.subrange(from, end));
        assert(parts[0] == path.subrange(from, end));
    } else {
        lemma_parts(path, end + 1);
        assert(parts.skip(1) =~= parts_from(path, end + 1));
        assert(parts[0] == path.subrange(from, end));
    }
}

/// The parts of a path are the path between its slashes, one after another, with nothing lost but the
/// slashes.
pub proof fn parts_read_the_whole_path(path: Seq<char>)
    ensures
        reads_parts(parts_from(path, 0), path, 0),
{
    lemma_parts(path, 0);
}

/// Whether a text is nothing but slashes, with a dot behind some of them.
pub open spec fn only_slashes(text: Seq<char>) -> bool {
    forall|i: int| 0 <= i < text.len() ==> #[trigger] text[i] == '/' || text[i] == '.'
}

proof fn lemma_body(path: Seq<char>)
    ensures
        path_body(path).len() <= path.len(),
        path_body(path) == path.take(path_body(path).len() as int),
        only_slashes(path.skip(path_body(path).len() as int)),
        path_body(path).len() > 0 ==> path_body(path).last() != '/',
    decreases path.len(),
{
    if path.len() > 0 && (path.last() == '/' || path.len() > 1 && path.last() == '.'
        && path[path.len() - 2] == '/') {
        let less = path.drop_last();
        lemma_body(less);
        let n = path_body(less).len() as int;
        assert(less.take(n) =~= path.take(n));
        assert(only_slashes(path.skip(n))) by {
            let (tail, longer) = (less.skip(n), path.skip(n));
            assert forall|i: int| 0 <= i < longer.len() implies #[trigger] longer[i] == '/'
                || longer[i] == '.' by {
                if i < tail.len() {
                    assert(tail[i] == longer[i]);
                }
            }
        }
    } else {
        assert(path.take(path.len() as int) =~= path);
    }
}

/// A path's name is its last part that is not blank: what follows the last slash once slashes at the
/// end are set aside. It holds no slash, and is neither of the dots.
pub proof fn name_is_the_last_part(path: Seq<char>)
    ensures
        match name_of(path) {
            Some(name) => {
                &&& name.len() > 0 && name != "."@ && name != ".."@
                &&& forall|i: int| 0 <= i < name.len() ==> name[i] != '/'
                &&& exists|at: int|
                    #![trigger path.skip(at + name.len())]
                    {
                        &&& 0 <= at && at + name.len() <= path.len()
                        &&& path.subrange(at, at + name.len()) == name
                        &&& at == 0 || path[at - 1] == '/'
                        &&& only_slashes(path.skip(at + name.len()))
                    }
            },
            None => true,
        },
{
    lemma_body(path);
    let body = path_body(path);
    lemma_last_of(body, '/');
    if name_of(path) is Some {
        let name = name_of(path)->0;
        let at = match last_of(body, '/') {
            Some(at) => at + 1,
            None => 0,
        };
        assert(body.skip(at) =~= name);
        assert(at + name.len() == body.len());
        assert(path.subrange(at, at + name.len()) =~= name) by {
            assert forall|i: int| 0 <= i < name.len() implies path.subrange(
                at,
                at + name.len(),
            )[i] == name[i] by {
                assert(body[at + i] == path.take(body.len() as int)[at + i]);
            }
        }
        if at > 0 {
            assert(body[at - 1] == path.take(body.len() as int)[at - 1]);
        }
        assert(only_slashes(path.skip(at + name.len())));
    }
}

} // verus!
