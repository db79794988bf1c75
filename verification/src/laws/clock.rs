//! What holds of every moment and of every job id.

use vstd::prelude::*;

use crate::error::Failure;
use crate::log::{
    chars_before, dmon_rfc, is_hex, ms_of, prefix_of, timestamp_nanos, ts_read, us_of, utf8_len,
    MAX_NS, MIN_NS,
};
use crate::text::next_where;

verus! {

/// A moment's milliseconds are those that have fully passed since the epoch, and its microseconds
/// likewise.
pub proof fn units_are_whole(ns: int)
    requires
        0 <= ns <= MAX_NS,
    ensures
        ms_of(ns) * 1_000_000 <= ns < ms_of(ns) * 1_000_000 + 1_000_000,
        us_of(ns) * 1_000 <= ns < us_of(ns) * 1_000 + 1_000,
        us_of(ns) / 1_000 == ms_of(ns) as int,
{
}

/// Before the epoch units are counted back alike, toward zero.
pub proof fn units_mirror_at_the_epoch(ns: int)
    requires
        MIN_NS <= ns < 0,
    ensures
        ms_of(ns) * 1_000_000 - 1_000_000 < ns <= ms_of(ns) * 1_000_000,
        us_of(ns) * 1_000 - 1_000 < ns <= us_of(ns) * 1_000,
{
}

/// A later moment never has fewer milliseconds or microseconds.
pub proof fn units_keep_the_order(first: int, second: int)
    requires
        MIN_NS <= first <= second <= MAX_NS,
    ensures
        ms_of(first) <= ms_of(second),
        us_of(first) <= us_of(second),
{
    if first >= 0 {
        units_are_whole(first);
    } else {
        units_mirror_at_the_epoch(first);
    }
    if second >= 0 {
        units_are_whole(second);
    } else {
        units_mirror_at_the_epoch(second);
    }
}

/// A timestamp is read as the nanoseconds it names, and one that cannot be read is reported with the
/// value and the reason.
pub proof fn timestamps_are_read_as_they_stand(value: Seq<char>)
    ensures
        match timestamp_nanos(value) {
            Ok(ns) => ts_read(value) == Ok::<int, Failure>(ns),
            Err(reason) => ts_read(value) == Err::<int, Failure>(
                Failure::Timestamp { value, reason },
            ),
        },
{
}

proof fn lemma_ascii(text: Seq<char>, bytes: int)
    requires
        forall|i: int| 0 <= i < text.len() ==> #[trigger] text[i] <= '\u{7f}',
        0 <= bytes,
    ensures
        utf8_len(text) == text.len(),
        bytes <= text.len() ==> chars_before(text, bytes) == bytes,
    decreases text.len(),
{
    if text.len() > 0 {
        let rest = text.drop_last();
        assert forall|i: int| 0 <= i < rest.len() implies #[trigger] rest[i] <= '\u{7f}' by {
            assert(rest[i] == text[i]);
        }
        lemma_ascii(rest, bytes);
        assert(text.last() == text[text.len() - 1]);
    }
}

/// A telemetry date and time are joined to one timestamp: the year, the month, and the day of the
/// date with hyphens between them, and the time behind them, in UTC.
pub proof fn telemetry_time_is_year_month_day(date: Seq<char>, time: Seq<char>)
    requires
        date.len() >= 8,
        forall|i: int| 0 <= i < date.len() ==> #[trigger] date[i] <= '\u{7f}',
    ensures
        ({
            let stamp = dmon_rfc(date, time);
            &&& stamp.len() == 12 + time.len()
            &&& stamp.subrange(0, 4) == date.subrange(0, 4)
            &&& stamp[4] == '-'
            &&& stamp.subrange(5, 7) == date.subrange(4, 6)
            &&& stamp[7] == '-'
            &&& stamp.subrange(8, 10) == date.subrange(6, 8)
            &&& stamp[10] == 'T'
            &&& stamp.subrange(11, 11 + time.len() as int) == time
            &&& stamp.last() == 'Z'
        }),
{
    lemma_ascii(date, 4);
    lemma_ascii(date, 6);
    lemma_ascii(date, 8);
    let stamp = dmon_rfc(date, time);
    assert(stamp.subrange(0, 4) =~= date.subrange(0, 4));
    assert(stamp.subrange(5, 7) =~= date.subrange(4, 6));
    assert(stamp.subrange(8, 10) =~= date.subrange(6, 8));
    assert(stamp.subrange(11, 11 + time.len() as int) =~= time);
}

proof fn lemma_hex_run(token: Seq<char>, from: int)
    requires
        0 <= from <= token.len(),
    ensures
        ({
            let end = next_where(token, from, |c: char| !is_hex(c));
            &&& from <= end <= token.len()
            &&& forall|i: int| from <= i < end ==> is_hex(#[trigger] token[i])
            &&& end < token.len() ==> !is_hex(token[end])
        }),
    decreases token.len() - from,
{
    if from < token.len() && is_hex(token[from]) {
        lemma_hex_run(token, from + 1);
    }
}

/// Whether a character is a hexadecimal digit of either case.
pub open spec fn hexadecimal(c: char) -> bool {
    ||| '0' <= c <= '9'
    ||| 'a' <= c <= 'f'
    ||| 'A' <= c <= 'F'
}

/// A job's key is the run of hexadecimal digits that its id begins with, and of an edge proof the
/// whole id.
pub proof fn job_key_is_the_leading_hex_run(token: Seq<char>)
    ensures
        ({
            let key = prefix_of(token);
            if token.len() >= 4 && token[0] == 'e' && token[1] == 'r' && token[2] == 'e' && token[3]
                == '-' {
                key == token
            } else {
                &&& key.len() <= token.len()
                &&& key == token.take(key.len() as int)
                &&& forall|i: int| 0 <= i < key.len() ==> hexadecimal(#[trigger] key[i])
                &&& key.len() < token.len() ==> !hexadecimal(token[key.len() as int])
            }
        }),
{
    reveal_strlit("ere-");
    lemma_hex_run(token, 0);
    let edge = token.len() >= 4 && token[0] == 'e' && token[1] == 'r' && token[2] == 'e' && token[3]
        == '-';
    if edge {
        assert(token.subrange(0, 4) =~= "ere-"@);
    } else if token.len() >= 4 {
        let head = token.subrange(0, 4);
        assert(head[0] == token[0] && head[1] == token[1] && head[2] == token[2] && head[3]
            == token[3]);
    }
}

} // verus!
