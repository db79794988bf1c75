//! What holds of every kept cluster-log line.

use vstd::prelude::*;

use crate::address::{
    addresses_replaced, lemma_only_placeholder, lemma_settled, lemma_word_swapped, only_address,
};
use crate::lines::{
    by_time, earliest_level, file_kept, gpu_of, level_name, level_split, level_token, line_kept,
    line_keys, lines_kept, logs_kept, role_of, scrubbed, token_at, token_place, Kept, LineModel,
    TOKEN_COUNT,
};
use crate::log::{ts_read, us_of};
use crate::sort::{comes_before, lemma_stable_order_of, stable_order};
use crate::text::{
    around_first, contains_piece, decimal, first_from, lemma_first_from, lines_of, occurs_at,
    replaced_from, trimmed, trimmed_end,
};
use crate::pattern::matched;
use crate::zkvm::without_ansi;

verus! {

/// Whether a text is one of the five levels.
pub open spec fn is_level(level: Seq<char>) -> bool {
    ||| level == "trace"@
    ||| level == "debug"@
    ||| level == "info"@
    ||| level == "warn"@
    ||| level == "error"@
}

/// Whether every line carries one of the five levels.
pub open spec fn all_levels(lines: Seq<LineModel>) -> bool {
    forall|i: int| 0 <= i < lines.len() ==> is_level((#[trigger] lines[i]).level)
}

/// The level of a line is always one of trace, debug, info, warn, or error, debug where none is
/// recognized.
pub proof fn level_is_one_of_five(rest: Seq<char>)
    ensures
        is_level(level_split(rest).0),
{
}

proof fn lemma_lines_kept_levels(kept: Kept, lines: Seq<Seq<char>>, role: Seq<char>)
    requires
        all_levels(kept.lines),
        kept.started ==> kept.lines.len() > 0,
    ensures
        all_levels(lines_kept(kept, lines, role).lines),
    decreases lines.len(),
{
    if lines.len() > 0 {
        let next = line_kept(kept, lines[0], role);
        assert(all_levels(next.lines)) by {
            assert forall|i: int| 0 <= i < next.lines.len() implies is_level(
                (#[trigger] next.lines[i]).level,
            ) by {
                if i < kept.lines.len() {
                    assert(is_level(kept.lines[i].level));
                }
            }
        }
        lemma_lines_kept_levels(next, lines.skip(1), role);
    }
}

/// Every line kept of a log carries one of the five levels.
pub proof fn kept_lines_carry_a_level(lines: Seq<LineModel>, text: Seq<char>, role: Seq<char>)
    requires
        all_levels(lines),
    ensures
        all_levels(file_kept(lines, text, role)),
{
    lemma_lines_kept_levels(Kept { lines, started: false }, lines_of(text), role);
}

/// Sorted lines are in the order of their timestamps, to the microsecond, so lines of different
/// roles interleave on the one shared clock.
pub proof fn lines_are_in_time_order(lines: Seq<LineModel>, first: int, second: int)
    requires
        lines.len() <= usize::MAX,
        0 <= first < second < by_time(lines).len(),
    ensures
        us_of(by_time(lines)[first].ts) <= us_of(by_time(lines)[second].ts),
{
    let keys = line_keys(lines);
    lemma_stable_order_of(keys);
    let order = stable_order(keys);
    assert(comes_before(keys, order[first], order[second]));
    assert(order[first] < keys.len());
    assert(order[second] < keys.len());
}

/// Sorting keeps every line: there are as many as before, and each is one of them.
pub proof fn sorting_keeps_every_line(lines: Seq<LineModel>)
    requires
        lines.len() <= usize::MAX,
    ensures
        by_time(lines).len() == lines.len(),
        forall|i: int| 0 <= i < lines.len() ==> by_time(lines).contains(#[trigger] lines[i]),
{
    let keys = line_keys(lines);
    lemma_stable_order_of(keys);
    let order = stable_order(keys);
    assert forall|i: int| 0 <= i < lines.len() implies by_time(lines).contains(
        #[trigger] lines[i],
    ) by {
        assert(order.contains(i as usize));
        let at = choose|at: int| 0 <= at < order.len() && order[at] == i as usize;
        assert(by_time(lines)[at] == lines[i]);
    }
}

proof fn lemma_hosts_masked(text: Seq<char>, from: int)
    requires
        0 <= from <= text.len(),
    ensures
        forall|at: int|
            !occurs_at(
                replaced_from(text, "zkevm-gpu-beast"@, "gpu-node"@, from),
                "zkevm-gpu-beast"@,
                at,
            ),
    decreases text.len() - from,
{
    reveal_strlit("zkevm-gpu-beast");
    reveal_strlit("gpu-node");
    let piece = "zkevm-gpu-beast"@;
    let with = "gpu-node"@;
    let out = replaced_from(text, piece, with, from);
    lemma_first_from(text, piece, from);
    match first_from(text, piece, from) {
        None => {
            assert forall|at: int| !occurs_at(out, piece, at) by {
                if occurs_at(out, piece, at) {
                    assert(out.subrange(at, at + piece.len()) =~= text.subrange(
                        from + at,
                        from + at + piece.len(),
                    ));
                    assert(occurs_at(text, piece, from + at));
                }
            }
        },
        Some(found) => {
            let head = text.subrange(from, found);
            let tail = replaced_from(text, piece, with, found + piece.len());
            lemma_hosts_masked(text, found + piece.len());
            assert(out == head + with + tail);
            assert forall|at: int| !occurs_at(out, piece, at) by {
                if occurs_at(out, piece, at) {
                    let len = piece.len() as int;
                    let cut = head.len() as int;
                    let hit = out.subrange(at, at + len);
                    if at + len <= cut {
                        assert(hit =~= text.subrange(from + at, from + at + len));
                        assert(occurs_at(text, piece, from + at));
                    } else if at < cut {
                        // The replacement would have to stand in the host name from some place on,
                        // and no place but its own gpu- begins alike.
                        let k = cut - at;
                        assert(hit[k] == with[0]);
                        assert(piece[k] == 'g');
                        assert(k == 6);
                        assert(hit[k + 4] == with[4]);
                        assert(piece[10] == 'n');
                    } else if at < cut + with.len() {
                        assert(hit[0] == with[at - cut]);
                        assert(piece[0] == with[at - cut]);
                    } else {
                        let shifted = at - cut - with.len();
                        assert(hit =~= tail.subrange(shifted, shifted + len));
                        assert(occurs_at(tail, piece, shifted));
                    }
                }
            }
        },
    }
}

/// A kept message holds no GPU host name.
pub proof fn scrubbed_message_names_no_host(msg: Seq<char>)
    ensures
        !contains_piece(scrubbed(msg), "zkevm-gpu-beast"@),
{
    lemma_hosts_masked(addresses_replaced(msg, "10.0.0.1"@), 0);
}

proof fn lemma_masking_brings_no_address(left: Seq<char>, text: Seq<char>, from: int)
    requires
        0 <= from <= text.len(),
        only_address(left + text.skip(from), "10.0.0.1"@),
    ensures
        only_address(
            left + replaced_from(text, "zkevm-gpu-beast"@, "gpu-node"@, from),
            "10.0.0.1"@,
        ),
    decreases text.len() - from,
{
    reveal_strlit("zkevm-gpu-beast");
    reveal_strlit("gpu-node");
    let host = "zkevm-gpu-beast"@;
    let node = "gpu-node"@;
    lemma_first_from(text, host, from);
    match first_from(text, host, from) {
        None => {},
        Some(found) => {
            let head = text.subrange(from, found);
            let rest = text.skip(found + host.len());
            assert(text.subrange(found, found + host.len()) == host);
            assert(left + text.skip(from) =~= (left + head) + host + rest);
            lemma_word_swapped(left + head, host, node, rest, "10.0.0.1"@);
            lemma_masking_brings_no_address(left + head + node, text, found + host.len());
            let tail = replaced_from(text, host, node, found + host.len());
            assert(left + (head + node + tail) =~= (left + head + node) + tail);
        },
    }
}

/// Every private address in a kept message is the placeholder.
pub proof fn scrubbed_message_holds_one_address(msg: Seq<char>)
    ensures
        only_address(scrubbed(msg), "10.0.0.1"@),
{
    let text = addresses_replaced(msg, "10.0.0.1"@);
    let none: Seq<char> = seq![];
    lemma_only_placeholder(msg);
    assert(none + text.skip(0) =~= text);
    lemma_masking_brings_no_address(none, text, 0);
    assert(none + scrubbed(msg) =~= scrubbed(msg));
}

/// A message that names no host, and in which every private address is the placeholder, is kept as
/// it is; so is one with no address at all.
pub proof fn clean_message_is_kept(msg: Seq<char>)
    requires
        !contains_piece(msg, "zkevm-gpu-beast"@),
        only_address(msg, "10.0.0.1"@),
    ensures
        scrubbed(msg) == msg,
{
    lemma_settled(msg, "10.0.0.1"@, 0);
    lemma_first_from(msg, "zkevm-gpu-beast"@, 0);
    assert(msg.skip(0) =~= msg);
}

/// A message scrubbed twice is the message scrubbed once.
pub proof fn scrubbing_twice_is_scrubbing_once(msg: Seq<char>)
    ensures
        scrubbed(scrubbed(msg)) == scrubbed(msg),
{
    scrubbed_message_names_no_host(msg);
    scrubbed_message_holds_one_address(msg);
    clean_message_is_kept(scrubbed(msg));
}

/// The keyword of a level, from trace up to error.
pub open spec fn keyword(level: int) -> Seq<char> {
    if level == 0 {
        "TRACE"@
    } else if level == 1 {
        "DEBUG"@
    } else if level == 2 {
        "INFO"@
    } else if level == 3 {
        "WARN"@
    } else {
        "ERROR"@
    }
}

/// The name under which a level is kept.
pub open spec fn kept_name(level: int) -> Seq<char> {
    if level == 0 {
        "trace"@
    } else if level == 1 {
        "debug"@
    } else if level == 2 {
        "info"@
    } else if level == 3 {
        "warn"@
    } else {
        "error"@
    }
}

/// Whether the keyword of a level stands at a position, at the start of a text or behind a space, with
/// a colon or a space behind it.
pub open spec fn level_stands(text: Seq<char>, level: int, at: int) -> bool {
    let word = keyword(level);
    &&& 0 <= level < 5
    &&& 0 <= at && at + word.len() < text.len()
    &&& text.subrange(at, at + word.len()) == word
    &&& text[at + word.len()] == ':' || text[at + word.len()] == ' '
    &&& at == 0 || text[at - 1] == ' '
}

proof fn lemma_token(token: int)
    requires
        0 <= token < TOKEN_COUNT,
    ensures
        level_token(token) == keyword(token / 2) + seq![
            if token % 2 == 0 {
                ':'
            } else {
                ' '
            },
        ],
        level_name(token) == kept_name(token / 2),
{
    reveal_strlit("TRACE");
    reveal_strlit("TRACE:");
    reveal_strlit("TRACE ");
    reveal_strlit("DEBUG");
    reveal_strlit("DEBUG:");
    reveal_strlit("DEBUG ");
    reveal_strlit("INFO");
    reveal_strlit("INFO:");
    reveal_strlit("INFO ");
    reveal_strlit("WARN");
    reveal_strlit("WARN:");
    reveal_strlit("WARN ");
    reveal_strlit("ERROR");
    reveal_strlit("ERROR:");
    reveal_strlit("ERROR ");
    let end = seq![
        if token % 2 == 0 {
            ':'
        } else {
            ' '
        },
    ];
    assert(level_token(token) =~= keyword(token / 2) + end);
}

proof fn lemma_token_stands(text: Seq<char>, token: int, at: int)
    requires
        0 <= token < TOKEN_COUNT,
        token_at(text, level_token(token), at),
    ensures
        level_stands(text, token / 2, at),
        level_token(token).len() == keyword(token / 2).len() + 1,
{
    lemma_token(token);
    let word = keyword(token / 2);
    let piece = level_token(token);
    assert(text.subrange(at, at + piece.len()) == piece);
    assert(text.subrange(at, at + word.len()) =~= word) by {
        assert forall|i: int| 0 <= i < word.len() implies text.subrange(at, at + word.len())[i]
            == word[i] by {
            assert(text.subrange(at, at + piece.len())[i] == piece[i]);
        }
    }
    assert(text.subrange(at, at + piece.len())[word.len() as int] == piece[word.len() as int]);
}

proof fn lemma_stands_token(text: Seq<char>, level: int, at: int) -> (token: int)
    requires
        level_stands(text, level, at),
    ensures
        0 <= token < TOKEN_COUNT,
        token_at(text, level_token(token), at),
{
    let word = keyword(level);
    let token = if text[at + word.len()] == ':' {
        2 * level
    } else {
        2 * level + 1
    };
    lemma_token(token);
    let piece = level_token(token);
    assert(text.subrange(at, at + piece.len()) =~= piece) by {
        assert forall|i: int| 0 <= i < piece.len() implies text.subrange(at, at + piece.len())[i]
            == piece[i] by {
            if i < word.len() {
                assert(text.subrange(at, at + word.len())[i] == word[i]);
            }
        }
    }
    token
}

proof fn lemma_token_place(text: Seq<char>, token: Seq<char>, from: int)
    requires
        0 <= from,
    ensures
        match token_place(text, token, from) {
            Some(at) => from <= at && token_at(text, token, at) && forall|i: int|
                from <= i < at ==> !token_at(text, token, i),
            None => forall|i: int| from <= i ==> !token_at(text, token, i),
        },
    decreases text.len() - from + 1,
{
    if from <= text.len() && !token_at(text, token, from) {
        lemma_token_place(text, token, from + 1);
    }
}

proof fn lemma_earliest_level(rest: Seq<char>, count: int)
    requires
        0 <= count <= TOKEN_COUNT,
    ensures
        match earliest_level(rest, count) {
            Some((at, token)) => 0 <= token < count && 0 <= at && token_at(
                rest,
                level_token(token),
                at,
            ) && forall|other: int, i: int|
                0 <= other < count && 0 <= i < at ==> !#[trigger] token_at(
                    rest,
                    level_token(other),
                    i,
                ),
            None => forall|other: int, i: int|
                0 <= other < count && 0 <= i ==> !#[trigger] token_at(rest, level_token(other), i),
        },
    decreases count,
{
    if count > 0 {
        lemma_earliest_level(rest, count - 1);
        lemma_token_place(rest, level_token(count - 1), 0);
    }
}

/// A line's level is that of the keyword that stands first in it, and its message is what follows the
/// keyword, without white space around it. A line without a keyword is kept whole as debug.
pub proof fn first_keyword_gives_the_level(rest: Seq<char>)
    ensures
        ({
            let (level, msg) = level_split(rest);
            ||| exists|own: int, at: int|
                {
                    &&& #[trigger] level_stands(rest, own, at)
                    &&& level == kept_name(own)
                    &&& msg == trimmed(rest.skip(at + keyword(own).len() + 1))
                    &&& forall|other: int, i: int|
                        0 <= i < at ==> !#[trigger] level_stands(rest, other, i)
                }
            ||| (forall|other: int, i: int| !#[trigger] level_stands(rest, other, i)) && level
                == "debug"@ && msg == trimmed(rest)
        }),
{
    lemma_earliest_level(rest, TOKEN_COUNT as int);
    match earliest_level(rest, TOKEN_COUNT as int) {
        Some((at, token)) => {
            lemma_token(token);
            lemma_token_stands(rest, token, at);
            assert(level_stands(rest, token / 2, at));
            assert forall|other: int, i: int| 0 <= i < at implies !#[trigger] level_stands(
                rest,
                other,
                i,
            ) by {
                if level_stands(rest, other, i) {
                    let found = lemma_stands_token(rest, other, i);
                    assert(!token_at(rest, level_token(found), i));
                }
            }
        },
        None => {
            assert forall|other: int, i: int| !#[trigger] level_stands(rest, other, i) by {
                if level_stands(rest, other, i) {
                    let found = lemma_stands_token(rest, other, i);
                    assert(!token_at(rest, level_token(found), i));
                }
            }
        },
    }
}

/// A line that begins with a timestamp begins a record of its own, with its moment, its role, its
/// level, and its scrubbed message. Any other line continues the message of the record before it on a
/// line of its own, and is dropped where there is none, as a blank line is.
pub proof fn timestamped_line_begins_a_record(kept: Kept, raw: Seq<char>, role: Seq<char>)
    requires
        kept.started ==> kept.lines.len() > 0,
    ensures
        ({
            let after = line_kept(kept, raw, role);
            let line = trimmed_end(raw);
            let (stamp, rest) = match around_first(line, " "@) {
                Some((stamp, rest)) => (stamp, rest),
                None => (line, Seq::<char>::empty()),
            };
            if line.len() == 0 {
                after == kept
            } else {
                match ts_read(stamp) {
                    Ok(ns) => {
                        &&& after.started
                        &&& after.lines.len() == kept.lines.len() + 1
                        &&& after.lines.drop_last() == kept.lines
                        &&& after.lines.last().ts == ns
                        &&& after.lines.last().role == role
                        &&& after.lines.last().level == level_split(rest).0
                        &&& after.lines.last().msg == scrubbed(level_split(rest).1)
                    },
                    Err(_) => if kept.started {
                        &&& after.started
                        &&& after.lines.len() == kept.lines.len()
                        &&& after.lines.drop_last() == kept.lines.drop_last()
                        &&& after.lines.last().ts == kept.lines.last().ts
                        &&& after.lines.last().role == kept.lines.last().role
                        &&& after.lines.last().level == kept.lines.last().level
                        &&& after.lines.last().msg == kept.lines.last().msg + "\n"@ + scrubbed(line)
                    } else {
                        after == kept
                    },
                }
            }
        }),
{
    let after = line_kept(kept, raw, role);
    assert(after.lines.len() == kept.lines.len() + 1 ==> after.lines.drop_last() =~= kept.lines);
    if after.lines.len() == kept.lines.len() {
        assert(after.lines.drop_last() =~= kept.lines.drop_last());
    }
}

/// Whether the lines of a log are those before it and then lines of its own role.
pub open spec fn adds_role(before: Seq<LineModel>, after: Seq<LineModel>, role: Seq<char>) -> bool {
    &&& before.len() <= after.len()
    &&& after.take(before.len() as int) == before
    &&& forall|i: int| before.len() <= i < after.len() ==> (#[trigger] after[i]).role == role
}

proof fn lemma_lines_kept_role(
    base: Seq<LineModel>,
    kept: Kept,
    lines: Seq<Seq<char>>,
    role: Seq<char>,
)
    requires
        adds_role(base, kept.lines, role),
        kept.started ==> kept.lines.len() > base.len(),
    ensures
        adds_role(base, lines_kept(kept, lines, role).lines, role),
    decreases lines.len(),
{
    if lines.len() > 0 {
        let next = line_kept(kept, lines[0], role);
        timestamped_line_begins_a_record(kept, lines[0], role);
        let n = base.len() as int;
        assert(next.lines.take(n) =~= base) by {
            assert forall|i: int| 0 <= i < n implies next.lines[i] == base[i] by {
                assert(kept.lines.take(n)[i] == base[i]);
            }
        }
        assert forall|i: int| n <= i < next.lines.len() implies (#[trigger] next.lines[i]).role
            == role by {
            if i < kept.lines.len() {
                assert(kept.lines[i].role == role);
            }
        }
        lemma_lines_kept_role(base, next, lines.skip(1), role);
    }
}

/// A log adds lines of its own role behind those that are there, and changes none of those.
pub proof fn log_adds_lines_of_its_role(before: Seq<LineModel>, text: Seq<char>, role: Seq<char>)
    ensures
        adds_role(before, file_kept(before, text, role), role),
{
    assert(before.take(before.len() as int) =~= before);
    lemma_lines_kept_role(
        before,
        Kept { lines: before, started: false },
        lines_of(text),
        role,
    );
}

/// The lines of a run are the coordinator's and then those of each worker log in turn, a worker's
/// under worker and its digit, with the GPU behind it where the file name gives one.
pub proof fn run_lines_are_those_of_its_logs(
    coordinator: Option<Seq<char>>,
    files: Seq<(u32, Seq<char>, Seq<char>)>,
    count: int,
)
    requires
        0 < count <= files.len(),
    ensures
        ({
            let (digit, name, text) = files[count - 1];
            let gpu = match matched(crate::input::WORKER_LOG_RE@, name) {
                Some(groups) => if groups.len() > 2 {
                    groups[2]
                } else {
                    None
                },
                None => None,
            };
            let role = match gpu {
                Some(gpu) => "worker"@ + decimal(digit as nat) + "-gpu"@ + gpu,
                None => "worker"@ + decimal(digit as nat),
            };
            &&& adds_role(
                logs_kept(coordinator, files, count - 1),
                logs_kept(coordinator, files, count),
                role,
            )
            &&& logs_kept(coordinator, files, count) == file_kept(
                logs_kept(coordinator, files, count - 1),
                without_ansi(text),
                role,
            )
        }),
        coordinator is None ==> logs_kept(coordinator, files, 0).len() == 0,
        coordinator is Some ==> logs_kept(coordinator, files, 0) == file_kept(
            seq![],
            without_ansi(coordinator->0),
            "coordinator"@,
        ),
{
    let (digit, name, text) = files[count - 1];
    log_adds_lines_of_its_role(
        logs_kept(coordinator, files, count - 1),
        without_ansi(text),
        crate::lines::role_of(digit, crate::lines::gpu_of(matched(crate::input::WORKER_LOG_RE@, name))),
    );
}

/// The role of a worker log is told by its file name: the digit of the worker, and behind it the GPU
/// that the second group of the match holds, where that group took part.
pub proof fn role_names_the_worker_and_its_gpu(digit: u32, groups: Seq<Option<Seq<char>>>)
    ensures
        role_of(digit, gpu_of(None)) == "worker"@ + decimal(digit as nat),
        groups.len() <= 2 || groups[2] is None ==> role_of(digit, gpu_of(Some(groups)))
            == "worker"@ + decimal(digit as nat),
        groups.len() > 2 && groups[2] is Some ==> role_of(digit, gpu_of(Some(groups)))
            == "worker"@ + decimal(digit as nat) + "-gpu"@ + groups[2]->0,
{
}

} // verus!
