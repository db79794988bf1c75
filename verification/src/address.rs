//! The private network addresses that a text holds.

use vstd::prelude::*;

use crate::pattern::regex_captures;

verus! {

/// Matches an IPv4 address in the 10.0.0.0/8 private range, the cluster's internal network.
pub const PRIVATE_IP_RE: &'static str = r"\b10\.\d{1,3}\.\d{1,3}\.\d{1,3}\b";

/// Whether a character is a decimal digit of any script, what `\d` matches.
pub open spec fn decimal_digit(c: char) -> bool {
    if c <= '\u{7f}' {
        '0' <= c <= '9'
    } else {
        regex_captures(r"\d"@, seq![c]) is Some
    }
}

/// Whether a character is one that words are made of, what `\w` matches. Every decimal digit is.
pub open spec fn word_char(c: char) -> bool {
    if c <= '\u{7f}' {
        '0' <= c <= '9' || 'a' <= c <= 'z' || 'A' <= c <= 'Z' || c == '_'
    } else {
        decimal_digit(c) || regex_captures(r"\w"@, seq![c]) is Some
    }
}

/// Whether a word runs on to the left of a position.
pub open spec fn word_before(text: Seq<char>, at: int) -> bool {
    0 < at <= text.len() && word_char(text[at - 1])
}

/// Whether a word runs on to the right of a position.
pub open spec fn word_after(text: Seq<char>, at: int) -> bool {
    0 <= at < text.len() && word_char(text[at])
}

/// Where the run of digits that begins at a position ends.
pub open spec fn run_end(text: Seq<char>, at: int) -> int
    decreases text.len() - at,
{
    if 0 <= at < text.len() && decimal_digit(text[at]) {
        run_end(text, at + 1)
    } else {
        at
    }
}

/// Whether one to three digits stand between two positions, with no digit behind them.
pub open spec fn part(text: Seq<char>, at: int, end: int) -> bool {
    end == run_end(text, at) && 1 <= end - at <= 3
}

/// Whether a dot stands at a position.
pub open spec fn dot(text: Seq<char>, at: int) -> bool {
    0 <= at < text.len() && text[at] == '.'
}

/// The end of the address that begins at a position: 10 and three parts of one to three digits, with
/// dots between them, as a word of its own.
pub open spec fn address_end(text: Seq<char>, at: int) -> Option<int> {
    let second = run_end(text, at + 3);
    let third = run_end(text, second + 1);
    let end = run_end(text, third + 1);
    if 0 <= at && at + 2 < text.len() && text[at] == '1' && text[at + 1] == '0' && dot(text, at + 2)
        && part(text, at + 3, second) && dot(text, second) && part(text, second + 1, third) && dot(
        text,
        third,
    ) && part(text, third + 1, end) && !word_before(text, at) && !word_after(text, end) {
        Some(end)
    } else {
        None
    }
}

/// The text from a position on with every address in it, taken from the left, replaced.
pub open spec fn addresses_from(text: Seq<char>, with: Seq<char>, from: int) -> Seq<char>
    decreases text.len() - from,
{
    if from < 0 || from >= text.len() {
        seq![]
    } else {
        match address_end(text, from) {
            Some(end) => if end <= from || end > text.len() {
                seq![]
            } else {
                with + addresses_from(text, with, end)
            },
            None => seq![text[from]] + addresses_from(text, with, from + 1),
        }
    }
}

/// The text with every address in it, taken from the left, replaced.
pub open spec fn addresses_replaced(text: Seq<char>, with: Seq<char>) -> Seq<char> {
    addresses_from(text, with, 0)
}

/// Whether every address of a text is the given one.
pub open spec fn only_address(text: Seq<char>, one: Seq<char>) -> bool {
    forall|at: int|
        (#[trigger] address_end(text, at)) is Some ==> text.subrange(
            at,
            address_end(text, at)->0,
        ) == one
}

/// A run of digits ends where the digits do.
pub proof fn lemma_run_end(text: Seq<char>, at: int)
    requires
        0 <= at <= text.len(),
    ensures
        at <= run_end(text, at) <= text.len(),
        forall|i: int| at <= i < run_end(text, at) ==> decimal_digit(#[trigger] text[i]),
        run_end(text, at) < text.len() ==> !decimal_digit(text[run_end(text, at)]),
    decreases text.len() - at,
{
    if at < text.len() && decimal_digit(text[at]) {
        lemma_run_end(text, at + 1);
    }
}

/// An address has an end behind its beginning.
pub proof fn lemma_address_end(text: Seq<char>, at: int)
    ensures
        address_end(text, at) is Some ==> 0 <= at && at + 8 <= address_end(text, at)->0
            <= text.len(),
{
    if address_end(text, at) is Some {
        let second = run_end(text, at + 3);
        lemma_run_end(text, at + 3);
        let third = run_end(text, second + 1);
        lemma_run_end(text, second + 1);
        lemma_run_end(text, third + 1);
    }
}

/// A text whose only address is the replacement is unchanged by it.
pub proof fn lemma_settled(text: Seq<char>, with: Seq<char>, from: int)
    requires
        only_address(text, with),
        0 <= from <= text.len(),
    ensures
        addresses_from(text, with, from) == text.skip(from),
    decreases text.len() - from,
{
    if from < text.len() {
        lemma_address_end(text, from);
        match address_end(text, from) {
            Some(end) => {
                lemma_settled(text, with, end);
                assert(text.subrange(from, end) == with);
                assert(text.skip(from) =~= text.subrange(from, end) + text.skip(end));
            },
            None => {
                lemma_settled(text, with, from + 1);
                assert(text.skip(from) =~= seq![text[from]] + text.skip(from + 1));
            },
        }
    } else {
        assert(text.skip(from) =~= seq![]);
    }
}

/// Whether digits alone stand between two positions.
spec fn digits(text: Seq<char>, at: int, end: int) -> bool {
    forall|i: int| at <= i < end ==> decimal_digit(#[trigger] text[i])
}

/// Whether an address begins at a position, its second and third dot and its end given.
spec fn address_is(text: Seq<char>, at: int, second: int, third: int, end: int) -> bool {
    &&& 0 <= at && end <= text.len()
    &&& at + 4 <= second <= at + 6 && second + 2 <= third <= second + 4
    &&& third + 2 <= end <= third + 4
    &&& text[at] == '1' && text[at + 1] == '0' && text[at + 2] == '.'
    &&& digits(text, at + 3, second) && text[second] == '.'
    &&& digits(text, second + 1, third) && text[third] == '.'
    &&& digits(text, third + 1, end)
    &&& !word_before(text, at) && !word_after(text, end)
}

proof fn lemma_run_is(text: Seq<char>, at: int, end: int)
    requires
        0 <= at <= end <= text.len(),
        digits(text, at, end),
        end < text.len() ==> !decimal_digit(text[end]),
    ensures
        run_end(text, at) == end,
    decreases end - at,
{
    if at < end {
        lemma_run_is(text, at + 1, end);
    }
}

proof fn lemma_is_address(text: Seq<char>, at: int, second: int, third: int, end: int)
    requires
        address_is(text, at, second, third, end),
    ensures
        address_end(text, at) == Some(end),
{
    lemma_run_is(text, at + 3, second);
    lemma_run_is(text, second + 1, third);
    lemma_run_is(text, third + 1, end);
}

proof fn lemma_address_is(text: Seq<char>, at: int) -> (ends: (int, int))
    requires
        address_end(text, at) is Some,
    ensures
        address_is(text, at, ends.0, ends.1, address_end(text, at)->0),
{
    let second = run_end(text, at + 3);
    let third = run_end(text, second + 1);
    lemma_run_end(text, at + 3);
    lemma_run_end(text, second + 1);
    lemma_run_end(text, third + 1);
    (second, third)
}

/// Texts that agree from a position on, and on whether a word runs on to the left of it, have the
/// same address there.
proof fn lemma_same_suffix(left: Seq<char>, a: int, right: Seq<char>, b: int)
    requires
        0 <= a <= left.len(),
        0 <= b <= right.len(),
        left.skip(a) == right.skip(b),
        word_before(left, a) == word_before(right, b),
        address_end(left, a) is Some,
    ensures
        address_end(right, b) == Some(address_end(left, a)->0 - a + b),
{
    let (second, third) = lemma_address_is(left, a);
    let end = address_end(left, a)->0;
    assert(left.len() - a == left.skip(a).len());
    assert(right.len() - b == right.skip(b).len());
    assert forall|i: int| a <= i < left.len() implies left[i] == #[trigger] right[i - a + b] by {
        assert(left[i] == left.skip(a)[i - a]);
        assert(right[i - a + b] == right.skip(b)[i - a]);
    }
    let shift = b - a;
    assert(digits(right, b + 3, second + shift)) by {
        assert forall|i: int| b + 3 <= i < second + shift implies decimal_digit(
            #[trigger] right[i],
        ) by {
            assert(left[i - shift] == right[i - shift - a + b]);
        }
    }
    assert(digits(right, second + shift + 1, third + shift)) by {
        assert forall|i: int| second + shift + 1 <= i < third + shift implies decimal_digit(
            #[trigger] right[i],
        ) by {
            assert(left[i - shift] == right[i - shift - a + b]);
        }
    }
    assert(digits(right, third + shift + 1, end + shift)) by {
        assert forall|i: int| third + shift + 1 <= i < end + shift implies decimal_digit(
            #[trigger] right[i],
        ) by {
            assert(left[i - shift] == right[i - shift - a + b]);
        }
    }
    assert(left[a] == right[a - a + b]);
    assert(left[a + 1] == right[a + 1 - a + b]);
    assert(left[a + 2] == right[a + 2 - a + b]);
    assert(left[second] == right[second - a + b]);
    assert(left[third] == right[third - a + b]);
    if end < left.len() {
        assert(left[end] == right[end - a + b]);
    }
    lemma_is_address(right, b, second + shift, third + shift, end + shift);
}

/// Whether every address that begins before a position is the given one.
spec fn settled_below(text: Seq<char>, one: Seq<char>, bound: int) -> bool {
    forall|at: int|
        at < bound && (#[trigger] address_end(text, at)) is Some ==> text.subrange(
            at,
            address_end(text, at)->0,
        ) == one
}

/// An address that the placeholder would complete to the left of it was there before.
proof fn lemma_placeholder_joins_nothing(
    left: Seq<char>,
    text: Seq<char>,
    from: int,
    end: int,
    at: int,
)
    requires
        0 <= from < text.len(),
        address_end(text, from) == Some(end),
        word_before(left + text.skip(from), left.len() as int) == word_before(text, from),
        settled_below(left + text.skip(from), "10.0.0.1"@, left.len() as int),
        at < left.len(),
        address_end(left + "10.0.0.1"@ + text.skip(end), at) is Some,
    ensures
        address_end(left + "10.0.0.1"@ + text.skip(end), at)->0 <= left.len(),
{
    reveal_strlit("10.0.0.1");
    let n = left.len() as int;
    let one = "10.0.0.1"@;
    let before = left + text.skip(from);
    let after = left + one + text.skip(end);
    let (second, third) = lemma_address_is(after, at);
    let last = address_end(after, at)->0;
    let (own_second, own_third) = lemma_address_is(text, from);
    if last > n {
        assert(after[n] == '1');
        assert(after[n - 1] == left[n - 1] && before[n - 1] == left[n - 1]);
        assert(!word_char(left[n - 1]));
        assert(!decimal_digit(left[n - 1]));
        assert(n == at + 3 || n == second + 1 || n == third + 1);
        assert forall|i: int| at <= i < n implies #[trigger] before[i] == after[i] by {}
        assert(before[n] == text[from] && before[n + 1] == text[from + 1]);
        assert(before[n + 2] == text[from + 2]);
        let (a, b) = (own_second - from + n, own_third - from + n);
        assert(before[a] == text[own_second] && before[b] == text[own_third]);
        assert(digits(before, n + 3, a)) by {
            assert forall|i: int| n + 3 <= i < a implies decimal_digit(#[trigger] before[i]) by {
                assert(before[i] == text[i - n + from]);
            }
        }
        assert(digits(before, a + 1, b)) by {
            assert forall|i: int| a + 1 <= i < b implies decimal_digit(#[trigger] before[i]) by {
                assert(before[i] == text[i - n + from]);
            }
        }
        assert(digits(before, n, n + 2));
        assert(word_before(before, at) == word_before(after, at));
        if n == at + 3 {
            lemma_is_address(before, at, n + 2, a, b);
            assert(before.subrange(at, b)[3] == one[3]);
        } else if n == second + 1 {
            assert(digits(before, at + 3, second));
            lemma_is_address(before, at, second, n + 2, a);
            assert(before.subrange(at, a)[4] == one[4]);
            assert(before.subrange(at, a)[5] == one[5]);
            assert(before[at + 4] == '.');
            assert(second == at + 4);
        } else {
            assert(digits(before, at + 3, second));
            assert(digits(before, second + 1, third));
            lemma_is_address(before, at, second, third, n + 2);
            assert(before.subrange(at, n + 2) == one);
            assert(before.subrange(at, n + 2).len() == one.len());
        }
    }
}

/// With an address replaced by the placeholder, every address up to there is the placeholder.
proof fn lemma_placeholder_settles(left: Seq<char>, text: Seq<char>, from: int, end: int)
    requires
        0 <= from < text.len(),
        address_end(text, from) == Some(end),
        word_before(left + text.skip(from), left.len() as int) == word_before(text, from),
        settled_below(left + text.skip(from), "10.0.0.1"@, left.len() as int),
    ensures
        settled_below(left + "10.0.0.1"@ + text.skip(end), "10.0.0.1"@, left.len() as int + 8),
{
    reveal_strlit("10.0.0.1");
    let n = left.len() as int;
    let one = "10.0.0.1"@;
    let before = left + text.skip(from);
    let after = left + one + text.skip(end);
    lemma_address_end(text, from);
    assert forall|i: int| n <= i < n + 8 implies #[trigger] after[i] == one[i - n] by {}
    assert(end < text.len() ==> after[n + 8] == text[end]);
    assert(!word_after(text, end));
    assert forall|at: int|
        at < n + 8 && (#[trigger] address_end(after, at)) is Some implies after.subrange(
        at,
        address_end(after, at)->0,
    ) == one by {
        let (second, third) = lemma_address_is(after, at);
        let last = address_end(after, at)->0;
        if at > n {
            assert(after[at] == one[at - n]);
            assert(at == n + 7);
            assert(after[at + 1] == '0');
        } else if at == n {
            assert(after[n + 4] == '.' && after[n + 6] == '.');
            assert(second == n + 4);
            assert(third == n + 6);
            if last > n + 8 {
                assert(decimal_digit(after[n + 8]));
            }
            assert(last == n + 8);
            assert(after.subrange(n, n + 8) =~= one);
        } else {
            lemma_placeholder_joins_nothing(left, text, from, end, at);
            assert(after[n] == '1');
            assert(last < n);
            assert forall|i: int| at - 1 <= i <= last && 0 <= i implies #[trigger] before[i]
                == after[i] by {}
            assert(digits(before, at + 3, second));
            assert(digits(before, second + 1, third));
            assert(digits(before, third + 1, last));
            assert(word_before(before, at) == word_before(after, at));
            assert(word_after(before, last) == word_after(after, last));
            lemma_is_address(before, at, second, third, last);
            assert(before.subrange(at, last) =~= after.subrange(at, last));
        }
    }
}

proof fn lemma_addresses_settle(left: Seq<char>, text: Seq<char>, from: int)
    requires
        0 <= from <= text.len(),
        word_before(left + text.skip(from), left.len() as int) == word_before(text, from),
        settled_below(left + text.skip(from), "10.0.0.1"@, left.len() as int),
    ensures
        only_address(left + addresses_from(text, "10.0.0.1"@, from), "10.0.0.1"@),
    decreases text.len() - from,
{
    reveal_strlit("10.0.0.1");
    let one = "10.0.0.1"@;
    let whole = left + text.skip(from);
    if from == text.len() {
        assert(whole =~= left + addresses_from(text, one, from));
        assert forall|at: int| (#[trigger] address_end(whole, at)) is Some implies whole.subrange(
            at,
            address_end(whole, at)->0,
        ) == one by {
            lemma_address_end(whole, at);
        }
    } else {
        lemma_address_end(text, from);
        match address_end(text, from) {
            Some(end) => {
                let next = left + one;
                let after = next + text.skip(end);
                lemma_placeholder_settles(left, text, from, end);
                let (second, third) = lemma_address_is(text, from);
                assert(decimal_digit(text[end - 1]));
                assert(after[next.len() - 1] == '1');
                lemma_addresses_settle(next, text, end);
                assert(left + addresses_from(text, one, from) =~= next + addresses_from(
                    text,
                    one,
                    end,
                ));
            },
            None => {
                let n = left.len() as int;
                let next = left.push(text[from]);
                assert(next + text.skip(from + 1) =~= whole);
                assert(whole.skip(n) =~= text.skip(from));
                if address_end(whole, n) is Some {
                    lemma_same_suffix(whole, n, text, from);
                }
                assert(whole[n] == text[from]);
                lemma_addresses_settle(next, text, from + 1);
                assert(left + addresses_from(text, one, from) =~= next + addresses_from(
                    text,
                    one,
                    from + 1,
                ));
            },
        }
    }
}

/// Once its addresses are replaced by the placeholder, a text holds no other address.
pub proof fn lemma_only_placeholder(text: Seq<char>)
    ensures
        only_address(addresses_replaced(text, "10.0.0.1"@), "10.0.0.1"@),
{
    let none: Seq<char> = seq![];
    assert(none + text.skip(0) =~= text);
    assert forall|at: int| at < 0 implies (#[trigger] address_end(text, at)) is None by {}
    lemma_addresses_settle(none, text, 0);
    assert(none + addresses_from(text, "10.0.0.1"@, 0) =~= addresses_from(text, "10.0.0.1"@, 0));
}

/// Whether a text begins and ends in a word and holds no character of an address.
pub open spec fn wordy(text: Seq<char>) -> bool {
    &&& text.len() > 0 && word_char(text[0]) && word_char(text.last())
    &&& forall|i: int|
        0 <= i < text.len() ==> !decimal_digit(#[trigger] text[i]) && text[i] != '.'
}

proof fn lemma_address_chars(text: Seq<char>, at: int)
    requires
        address_end(text, at) is Some,
    ensures
        forall|i: int|
            at <= i < address_end(text, at)->0 ==> decimal_digit(#[trigger] text[i]) || text[i]
                == '.',
{
    let (second, third) = lemma_address_is(text, at);
    assert forall|i: int| at <= i < address_end(text, at)->0 implies decimal_digit(
        #[trigger] text[i],
    ) || text[i] == '.' by {
        if i >= at + 3 && i != second && i != third {
            assert(digits(text, at + 3, second));
            assert(digits(text, second + 1, third));
        }
    }
}

/// To put one such text in the place of another brings no new address about.
pub proof fn lemma_word_swapped(
    left: Seq<char>,
    old: Seq<char>,
    new: Seq<char>,
    right: Seq<char>,
    one: Seq<char>,
)
    requires
        wordy(old),
        wordy(new),
        only_address(left + old + right, one),
    ensures
        only_address(left + new + right, one),
{
    let before = left + old + right;
    let after = left + new + right;
    let n = left.len() as int;
    let (o, w) = (old.len() as int, new.len() as int);
    assert forall|i: int| n <= i < n + w implies #[trigger] after[i] == new[i - n] by {}
    assert forall|at: int| (#[trigger] address_end(after, at)) is Some implies after.subrange(
        at,
        address_end(after, at)->0,
    ) == one by {
        let (second, third) = lemma_address_is(after, at);
        let end = address_end(after, at)->0;
        lemma_address_chars(after, at);
        if n <= at < n + w {
            assert(after[at] == new[at - n]);
        } else if at < n {
            if end > n {
                assert(after[n] == new[0]);
            }
            if end == n {
                assert(after[n] == new[0]);
            }
            assert(end < n);
            assert forall|i: int| 0 <= i < n implies #[trigger] before[i] == after[i] by {}
            assert(digits(before, at + 3, second));
            assert(digits(before, second + 1, third));
            assert(digits(before, third + 1, end));
            assert(word_before(before, at) == word_before(after, at));
            assert(word_after(before, end) == word_after(after, end));
            lemma_is_address(before, at, second, third, end);
            assert(before.subrange(at, end) =~= after.subrange(at, end));
        } else {
            let b = at - w + o;
            if at == n + w {
                assert(after[at - 1] == new.last());
            }
            assert(at > n + w);
            assert(before.skip(b) =~= after.skip(at));
            assert(before[b - 1] == after[at - 1]);
            lemma_same_suffix(after, at, before, b);
            assert(before.subrange(b, end - w + o) =~= after.subrange(at, end));
        }
    }
}

} // verus!
