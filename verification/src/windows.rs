//! Cuts each block's log lines out of the cluster log.

use vstd::prelude::*;

use crate::lines::{LineModel, RawLine};
use crate::log::{prefix_chars, prefix_of, us_of, Log, LogModel, LogStatus, NodeModel};
use crate::schema::{EntryModel, LogEntry};
use crate::text::{after, after_prefix, same, to_chars, to_text};

verus! {

/// The coordinator start lines among the first `count` kept lines, each with its microseconds and
/// its job prefix.
pub open spec fn starts_upto(lines: Seq<LineModel>, count: int) -> Seq<(i64, Seq<char>)>
    decreases count,
{
    if count <= 0 {
        seq![]
    } else {
        let before = starts_upto(lines, count - 1);
        let line = lines[count - 1];
        match after_prefix(line.msg, "[Job] Started JobId("@) {
            Some(rest) => before.push((us_of(line.ts), prefix_of(rest))),
            None => before,
        }
    }
}

/// The job-start instants of the cluster log.
pub open spec fn starts_of(lines: Seq<LineModel>) -> Seq<(i64, Seq<char>)> {
    starts_upto(lines, lines.len() as int)
}

/// The job-start instants of the cluster log, each coordinator "[Job] Started" timestamp in
/// microseconds paired with its job prefix, kept in time order since the raw log is sorted. The
/// coordinator start precedes the workers' own contribution markers and is present even for a job
/// no worker ever began, so a failed block's log window capped at the next different job's start
/// never absorbs the job that follows it, neither its coordinator dispatch nor its worker restart
/// lines.
pub fn job_starts(raw_log: &Vec<RawLine>) -> (starts: Vec<(i64, String)>)
    ensures
        starts.deep_view() == starts_of(raw_log.deep_view()),
{
    let mut starts: Vec<(i64, String)> = Vec::new();
    assert(starts.deep_view() =~= seq![]);
    for i in 0..raw_log.len()
        invariant
            starts.deep_view() == starts_upto(raw_log.deep_view(), i as int),
    {
        assert(raw_log.deep_view()[i as int] == raw_log@[i as int].deep_view());
        let msg: Vec<char> = to_chars(raw_log[i].msg.as_str());
        let ghost before = starts.deep_view();
        if let Some(rest) = after(msg.as_slice(), "[Job] Started JobId(") {
            let prefix: String = to_text(prefix_chars(rest).as_slice());
            let us: i64 = raw_log[i].ts.epoch_us();
            starts.push((us, prefix));
            assert(starts.deep_view() =~= before.push((us, prefix@)));
        }
    }
    starts
}

/// The first start, from `from` on, after a moment and of another job.
pub open spec fn next_start(
    starts: Seq<(i64, Seq<char>)>,
    after_us: i64,
    job: Seq<char>,
    from: int,
) -> Option<i64>
    decreases starts.len() - from,
{
    if from < 0 || from >= starts.len() {
        None
    } else if starts[from].0 > after_us && starts[from].1 != job {
        Some(starts[from].0)
    } else {
        next_start(starts, after_us, job, from + 1)
    }
}

fn following_start(starts: &Vec<(i64, String)>, after_us: i64, job: &[char]) -> (next: Option<i64>)
    ensures
        next == next_start(starts.deep_view(), after_us, job@, 0),
{
    for i in 0..starts.len()
        invariant
            next_start(starts.deep_view(), after_us, job@, 0) == next_start(
                starts.deep_view(),
                after_us,
                job@,
                i as int,
            ),
    {
        assert(starts.deep_view()[i as int] == starts@[i as int].deep_view());
        if starts[i].0 > after_us {
            let other: Vec<char> = to_chars(starts[i].1.as_str());
            if !same(other.as_slice(), job) {
                return Some(starts[i].0);
            }
        }
    }
    None
}

/// The latest end of the first `count` nodes that have one, a millisecond later, in microseconds.
pub open spec fn cleanup_upto(nodes: Seq<NodeModel>, count: int) -> Option<i64>
    decreases count,
{
    if count <= 0 {
        None
    } else {
        let before = cleanup_upto(nodes, count - 1);
        match nodes[count - 1].end {
            Some(end) => {
                let at = end.at_ms.wrapping_mul(1000).wrapping_add(1000);
                match before {
                    Some(held) => if at > held {
                        Some(at)
                    } else {
                        before
                    },
                    None => Some(at),
                }
            },
            None => before,
        }
    }
}

fn cleanup_end(log: &Log) -> (end: Option<i64>)
    ensures
        end == cleanup_upto(log.deep_view().nodes, log.deep_view().nodes.len() as int),
{
    let ghost nodes = log.nodes.deep_view();
    let mut latest: Option<i64> = None;
    for i in 0..log.nodes.len()
        invariant
            nodes == log.nodes.deep_view(),
            latest == cleanup_upto(nodes, i as int),
    {
        assert(nodes[i as int] == log.nodes@[i as int].deep_view());
        if let Some(end) = log.nodes[i].end {
            let at: i64 = end.at_ms.wrapping_mul(1000).wrapping_add(1000);
            match latest {
                Some(held) => {
                    if at > held {
                        latest = Some(at);
                    }
                },
                None => {
                    latest = Some(at);
                },
            }
        }
    }
    latest
}

/// The block start in microseconds, the job start when known and the millisecond window start
/// otherwise.
pub open spec fn window_start(log: LogModel, start_abs: i64) -> i64 {
    match log.t_start {
        Some(ns) => us_of(ns),
        None => start_abs.wrapping_mul(1000),
    }
}

/// The end of a block's window when nothing but the block itself bounds it: its terminal time, else
/// the proving duration, which never reaches the next job's start, else its start.
pub open spec fn terminal_us(
    log: LogModel,
    start_us: i64,
    proving_ms: Option<u64>,
    next: Option<i64>,
) -> i64 {
    match (log.t_end, proving_ms) {
        (Some(ns), _) => us_of(ns),
        (None, Some(ms)) => {
            let estimate = start_us.wrapping_add((ms as i64).wrapping_mul(1000));
            match next {
                Some(next) => if next.wrapping_sub(1) < estimate {
                    next.wrapping_sub(1)
                } else {
                    estimate
                },
                None => estimate,
            }
        },
        (None, None) => start_us,
    }
}

/// The end of a block's window in microseconds. A clean job ends at its terminal time. A failed job
/// runs to just before the next different job, or to the latest node end where none follows.
pub open spec fn window_end(
    log: LogModel,
    start_us: i64,
    proving_ms: Option<u64>,
    next: Option<i64>,
) -> i64 {
    let terminal = terminal_us(log, start_us, proving_ms, next);
    if log.status == LogStatus::Success {
        terminal
    } else {
        match next {
            Some(next) => next.wrapping_sub(1),
            None => match cleanup_upto(log.nodes, log.nodes.len() as int) {
                Some(cleanup) => if cleanup > terminal {
                    cleanup
                } else {
                    terminal
                },
                None => terminal,
            },
        }
    }
}

/// Those of the first `count` lines that lie within a window, rebased to its start.
pub open spec fn entries_upto(lines: Seq<LineModel>, start_us: i64, end_us: i64, count: int) -> Seq<
    EntryModel,
>
    decreases count,
{
    if count <= 0 {
        seq![]
    } else {
        let before = entries_upto(lines, start_us, end_us, count - 1);
        let line = lines[count - 1];
        if start_us <= us_of(line.ts) <= end_us {
            before.push(
                EntryModel {
                    role: line.role,
                    time: us_of(line.ts).wrapping_sub(start_us),
                    level: line.level,
                    msg: line.msg,
                },
            )
        } else {
            before
        }
    }
}

/// The log lines of a block, none where it has no log.
pub open spec fn entries_of(
    log: Option<LogModel>,
    lines: Seq<LineModel>,
    start_abs: i64,
    proving_ms: Option<u64>,
    starts: Seq<(i64, Seq<char>)>,
) -> Seq<EntryModel> {
    match log {
        None => seq![],
        Some(log) => {
            let start_us = window_start(log, start_abs);
            let next = next_start(starts, start_us, prefix_of(log.id), 0);
            entries_upto(
                lines,
                start_us,
                window_end(log, start_us, proving_ms, next),
                lines.len() as int,
            )
        },
    }
}

/// The model of a log that may be absent.
pub open spec fn log_view(log: Option<&Log>) -> Option<LogModel> {
    match log {
        Some(log) => Some(log.deep_view()),
        None => None,
    }
}

/// The kept cluster-log lines within a block's proving window, each rebased to a microsecond offset
/// from the block start. A clean block runs to its terminal time, falling back to the proving
/// duration when the log carries no end. A failed block instead runs to just before the next
/// different job's start so the following job is not pulled in, neither its coordinator dispatch
/// nor its worker restart lines, since a crashed node begins the next proof within about a second.
/// Cleanup that interleaves in time with the next job is bounded out, because the shared
/// role-tagged log axis cannot separate the failed job's lagging cleanup from the next job's lines.
/// When no following job bounds a failed block, the window reaches the latest node end. Time is at
/// microsecond precision so lines that share a millisecond keep their order, while the frontend
/// renders the offset down to milliseconds. A block with no matched log carries no lines, since it
/// has no window to slice, and one whose end precedes its start carries none either.
pub fn block_logs(
    log: Option<&Log>,
    raw_log: &Vec<RawLine>,
    start_abs: i64,
    proving_ms: Option<u64>,
    starts: &Vec<(i64, String)>,
) -> (entries: Vec<LogEntry>)
    ensures
        entries.deep_view() == entries_of(
            log_view(log),
            raw_log.deep_view(),
            start_abs,
            proving_ms,
            starts.deep_view(),
        ),
{
    let log: &Log = match log {
        Some(log) => log,
        None => {
            let none: Vec<LogEntry> = Vec::new();
            assert(none.deep_view() =~= seq![]);
            return none;
        },
    };
    // The block start in microseconds, the job start when known and the millisecond window start
    // otherwise, so every offset is non-negative and the first window line sits at zero.
    let start_us: i64 = match log.t_start {
        Some(ts) => ts.epoch_us(),
        None => start_abs.wrapping_mul(1000),
    };
    // The next different job's first contribution, the upper bound a block's window never crosses.
    let this: Vec<char> = prefix_chars(to_chars(log.id.as_str()).as_slice());
    let next: Option<i64> = following_start(starts, start_us, this.as_slice());
    // A terminal time bounds the window directly. The dispatch-relative proving-time fallback can
    // overshoot the true finish, so it is also capped at just before the next different job's start
    // so it can never absorb the following job's lines.
    let terminal: i64 = match (log.t_end, proving_ms) {
        (Some(ts), _) => ts.epoch_us(),
        (None, Some(ms)) => {
            let estimate: i64 = start_us.wrapping_add((ms as i64).wrapping_mul(1000));
            match next {
                Some(next) => if next.wrapping_sub(1) < estimate {
                    next.wrapping_sub(1)
                } else {
                    estimate
                },
                None => estimate,
            }
        },
        (None, None) => start_us,
    };
    // A clean job ends at its terminal time. A failed job runs to just before the next different
    // job so the following job is not pulled in, with the latest node end plus a millisecond as the
    // fallback when no following job bounds the window.
    let end_us: i64 = if log.status == LogStatus::Success {
        terminal
    } else {
        match next {
            Some(next) => next.wrapping_sub(1),
            None => match cleanup_end(log) {
                Some(cleanup) => if cleanup > terminal {
                    cleanup
                } else {
                    terminal
                },
                None => terminal,
            },
        }
    };
    let mut entries: Vec<LogEntry> = Vec::new();
    assert(entries.deep_view() =~= seq![]);
    for i in 0..raw_log.len()
        invariant
            entries.deep_view() == entries_upto(
                raw_log.deep_view(),
                start_us,
                end_us,
                i as int,
            ),
    {
        let line: &RawLine = &raw_log[i];
        assert(raw_log.deep_view()[i as int] == line.deep_view());
        let us: i64 = line.ts.epoch_us();
        if start_us <= us && us <= end_us {
            let ghost before = entries.deep_view();
            let entry = LogEntry {
                role: line.role.clone(),
                time: us.wrapping_sub(start_us),
                level: line.level.clone(),
                msg: line.msg.clone(),
            };
            entries.push(entry);
            assert(entries.deep_view() =~= before.push(entry.deep_view()));
        }
    }
    entries
}

} // verus!
