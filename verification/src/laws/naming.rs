//! What holds of the names that runs, benchmarks, jobs, and archives go by.

use vstd::prelude::*;

use crate::assemble::{is_number, name_of_run};
use crate::binding::same_job;
use crate::log::{is_hex, prefix_of};
use crate::output::stem_of;
use crate::text::{
    begins_with, first_from, is_digit, last_of, lemma_first_from, lemma_last_of, lemma_next_where,
    next_where, occurs_at, replaced, replaced_from,
};

verus! {

/// The last of a character is the only one after which none stands.
proof fn lemma_last_of_is(text: Seq<char>, c: char, at: int)
    requires
        0 <= at < text.len(),
        text[at] == c,
        forall|i: int| at < i < text.len() ==> text[i] != c,
    ensures
        last_of(text, c) == Some(at),
{
    lemma_last_of(text, c);
}

/// The several timestamped runs of one benchmark share a name: whatever date and time a run id ends
/// in, the benchmark is named by what stands before them.
pub proof fn timestamped_runs_share_a_name(base: Seq<char>, date: Seq<char>, time: Seq<char>)
    requires
        is_number(date, 8),
        is_number(time, 6),
    ensures
        name_of_run(base + seq!['-'] + date + seq!['-'] + time) == base,
{
    let rest = base + seq!['-'] + date;
    let id = rest + seq!['-'] + time;
    let time_at = rest.len() as int;
    assert forall|i: int| time_at < i < id.len() implies id[i] != '-' by {
        assert(id[i] == time[i - time_at - 1]);
        assert(is_digit(time[i - time_at - 1]));
    }
    lemma_last_of_is(id, '-', time_at);
    assert(id.take(time_at) =~= rest);
    assert(id.skip(time_at + 1) =~= time);
    let date_at = base.len() as int;
    assert forall|i: int| date_at < i < rest.len() implies rest[i] != '-' by {
        assert(rest[i] == date[i - date_at - 1]);
        assert(is_digit(date[i - date_at - 1]));
    }
    lemma_last_of_is(rest, '-', date_at);
    assert(rest.skip(date_at + 1) =~= date);
    assert(rest.take(date_at) =~= base);
}

/// The hex run that a text begins with.
proof fn lemma_hex_run(run: Seq<char>, tail: Seq<char>)
    requires
        forall|i: int| 0 <= i < run.len() ==> is_hex(#[trigger] run[i]),
        tail.len() == 0 || !is_hex(tail[0]),
    ensures
        next_where(run + tail, 0, |c: char| !is_hex(c)) == run.len(),
{
    let text = run + tail;
    let stop = |c: char| !is_hex(c);
    lemma_next_where(text, 0, stop);
    let end = next_where(text, 0, stop);
    if end < run.len() {
        assert(text[end] == run[end]);
        assert(stop(text[end]));
    } else if end > run.len() {
        assert(text[run.len() as int] == tail[0]);
        assert(!stop(text[run.len() as int]));
    }
}

/// A job id that a log cut short keys the full id that a crash reason carries: where both begin with
/// the same hex run and the cut id holds no more of it.
pub proof fn truncated_id_keys_the_full_one(run: Seq<char>, cut: Seq<char>, rest: Seq<char>)
    requires
        run.len() > 0,
        forall|i: int| 0 <= i < run.len() ==> is_hex(#[trigger] run[i]),
        cut.len() == 0 || !is_hex(cut[0]),
        !begins_with(run + cut, "ere-"@),
    ensures
        prefix_of(run + cut) == run,
        same_job(run + cut, run + rest),
{
    lemma_hex_run(run, cut);
    assert((run + cut).take(run.len() as int) =~= run);
    assert((run + rest).subrange(0, run.len() as int) =~= run);
}

/// An Edge proof id, logged in full on every side, is compared whole.
pub proof fn edge_id_is_compared_whole(id: Seq<char>, job: Seq<char>)
    requires
        begins_with(id, "ere-"@),
    ensures
        prefix_of(id) == id,
        same_job(id, job) <==> begins_with(job, id),
{
    reveal_strlit("ere-");
    assert(id.len() >= 4);
}

/// A replacement that shares no character with what it replaces leaves none of it.
proof fn lemma_replaced_is_gone(text: Seq<char>, piece: Seq<char>, with: Seq<char>, from: int)
    requires
        0 <= from <= text.len(),
        piece.len() > 0,
        with.len() > 0,
        forall|i: int, j: int|
            0 <= i < piece.len() && 0 <= j < with.len() ==> #[trigger] piece[i]
                != #[trigger] with[j],
    ensures
        forall|at: int| !occurs_at(replaced_from(text, piece, with, from), piece, at),
    decreases text.len() - from,
{
    let out = replaced_from(text, piece, with, from);
    lemma_first_from(text, piece, from);
    match first_from(text, piece, from) {
        None => {
            assert forall|at: int| !occurs_at(out, piece, at) by {
                if occurs_at(out, piece, at) {
                    assert(out.subrange(at, at + piece.len()) =~= text.subrange(
                        from + at,
                        from + at + piece.len(),
                    ));
                    assert(occurs_at(text, piece, from + at));
                }
            }
        },
        Some(found) => {
            let head = text.subrange(from, found);
            let tail = replaced_from(text, piece, with, found + piece.len());
            lemma_replaced_is_gone(text, piece, with, found + piece.len());
            assert(out == head + with + tail);
            assert forall|at: int| !occurs_at(out, piece, at) by {
                if occurs_at(out, piece, at) {
                    let len = piece.len() as int;
                    let cut = head.len() as int;
                    let hit = out.subrange(at, at + len);
                    if at + len <= cut {
                        assert(hit =~= text.subrange(from + at, from + at + len));
                        assert(occurs_at(text, piece, from + at));
                    } else if at < cut {
                        assert(hit[cut - at] == with[0]);
                        assert(piece[cut - at] == with[0]);
                    } else if at < cut + with.len() {
                        assert(hit[0] == with[at - cut]);
                        assert(piece[0] == with[at - cut]);
                    } else {
                        let shifted = at - cut - with.len();
                        assert(hit =~= tail.subrange(shifted, shifted + len));
                        assert(occurs_at(tail, piece, shifted));
                    }
                }
            }
        },
    }
}

/// One character replaced by another leaves every place as it was but for that character.
proof fn lemma_replaced_char(text: Seq<char>, old_char: char, new_char: char, from: int)
    requires
        0 <= from <= text.len(),
    ensures
        replaced_from(text, seq![old_char], seq![new_char], from) =~= text.skip(from).map_values(
            |c: char|
                if c == old_char {
                    new_char
                } else {
                    c
                },
        ),
    decreases text.len() - from,
{
    let piece = seq![old_char];
    let with = seq![new_char];
    let out = replaced_from(text, piece, with, from);
    lemma_first_from(text, piece, from);
    match first_from(text, piece, from) {
        None => {
            assert forall|i: int| from <= i < text.len() implies text[i] != old_char by {
                if text[i] == old_char {
                    assert(text.subrange(i, i + 1) =~= piece);
                    assert(occurs_at(text, piece, i));
                }
            }
        },
        Some(found) => {
            lemma_replaced_char(text, old_char, new_char, found + 1);
            assert(text.subrange(found, found + 1)[0] == piece[0]);
            assert forall|i: int| from <= i < found implies text[i] != old_char by {
                if text[i] == old_char {
                    assert(text.subrange(i, i + 1) =~= piece);
                    assert(occurs_at(text, piece, i));
                }
            }
            let head = text.subrange(from, found);
            let tail = replaced_from(text, piece, with, found + 1);
            assert(out == head + with + tail);
        },
    }
}

/// An archive sits as a single file under one served path segment: its stem holds no slash and no
/// double colon.
pub proof fn archive_stem_is_one_segment(name: Seq<char>)
    ensures
        forall|i: int| 0 <= i < stem_of(name).len() ==> #[trigger] stem_of(name)[i] != '/',
        forall|at: int| !occurs_at(stem_of(name), "::"@, at),
{
    reveal_strlit("::");
    reveal_strlit("__");
    reveal_strlit("/");
    reveal_strlit("_");
    let flat = replaced(name, "::"@, "__"@);
    lemma_replaced_is_gone(name, "::"@, "__"@, 0);
    assert("/"@ =~= seq!['/']);
    assert("_"@ =~= seq!['_']);
    lemma_replaced_char(flat, '/', '_', 0);
    assert(flat.skip(0) =~= flat);
    let stem = stem_of(name);
    assert forall|at: int| !occurs_at(stem, "::"@, at) by {
        if occurs_at(stem, "::"@, at) {
            let hit = stem.subrange(at, at + 2);
            assert(hit[0] == ':' && hit[1] == ':');
            assert(stem[at] == ':' && stem[at + 1] == ':');
            assert(flat[at] == ':' && flat[at + 1] == ':');
            assert(flat.subrange(at, at + 2) =~= "::"@);
            assert(occurs_at(flat, "::"@, at));
        }
    }
}

/// A run's name is the run id, or the run id without a date of eight digits and a time of six behind
/// hyphens at its end.
pub proof fn run_name_drops_a_timestamp_alone(run_id: Seq<char>)
    ensures
        ({
            let name = name_of_run(run_id);
            ||| name == run_id
            ||| {
                let n = name.len() as int;
                &&& run_id.len() == n + 16
                &&& name == run_id.take(n)
                &&& run_id[n] == '-' && run_id[n + 9] == '-'
                &&& forall|i: int|
                    n < i < run_id.len() && i != n + 9 ==> '0' <= #[trigger] run_id[i] <= '9'
            }
        }),
{
    crate::laws::texts::last_place_is_the_last(run_id, '-');
    match last_of(run_id, '-') {
        None => {},
        Some(time_at) => {
            let rest = run_id.take(time_at);
            let time = run_id.skip(time_at + 1);
            crate::laws::texts::last_place_is_the_last(rest, '-');
            match last_of(rest, '-') {
                None => {},
                Some(date_at) => {
                    let date = rest.skip(date_at + 1);
                    if name_of_run(run_id) != run_id {
                        assert(rest.take(date_at) =~= run_id.take(date_at));
                        assert forall|i: int|
                            date_at < i < run_id.len() && i != date_at + 9 implies '0'
                            <= #[trigger] run_id[i] <= '9' by {
                            if i < time_at {
                                assert(crate::text::is_digit(date[i - date_at - 1]));
                                assert(date[i - date_at - 1] == run_id[i]);
                            } else {
                                assert(crate::text::is_digit(time[i - time_at - 1]));
                            }
                        }
                    }
                },
            }
        },
    }
}

} // verus!
