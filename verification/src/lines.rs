//! Raw cluster-log line extraction, the timestamped lines of the coordinator and each worker as
//! role-tagged records. The structured backends read these same logs for phase timing, while this
//! reader keeps the human-readable lines so the assembler can attach to each block the log of its
//! time window.
//!
//! Every level is kept, including the worker logs' bulk DEBUG and TRACE, so the per-block log
//! carries the complete proving narrative. A line whose level is unrecognized defaults to debug, so
//! every kept line carries one of the trace, debug, info, warn, or error levels.

use vstd::prelude::*;

use crate::address::{addresses_replaced, PRIVATE_IP_RE};
use crate::input::{groups_view, WorkerFile, WORKER_LOG_RE};
use crate::log::{ts_read, us_of, Ts};
use crate::pattern::{matched, Groups, Pattern};
use crate::sort::{arranged, sort_places, stable_order};
use crate::text::{
    around, around_first, copied, decimal, joined, lines, lines_of, occurs_at, replace, replaced,
    stands_at, to_chars, to_text, trim, trim_end, trimmed, trimmed_end, views, write_decimal,
};
use crate::zkvm::{strip_ansi, without_ansi};

verus! {

/// One kept cluster-log line, its role, absolute timestamp, lowercase level, and message body.
pub struct RawLine {
    pub role: String,
    pub ts: Ts,
    pub level: String,
    pub msg: String,
}

/// A kept line by the values it holds.
#[verifier::ext_equal]
pub struct LineModel {
    pub role: Seq<char>,
    pub ts: int,
    pub level: Seq<char>,
    pub msg: Seq<char>,
}

impl DeepView for RawLine {
    type V = LineModel;

    open spec fn deep_view(&self) -> LineModel {
        LineModel { role: self.role@, ts: self.ts@, level: self.level@, msg: self.msg@ }
    }
}

impl RawLine {
    /// A copy of the line.
    pub fn copy(&self) -> (copy: RawLine)
        ensures
            copy.deep_view() == self.deep_view(),
    {
        RawLine {
            role: self.role.clone(),
            ts: self.ts,
            level: self.level.clone(),
            msg: self.msg.clone(),
        }
    }
}

/// A log message without internal infrastructure identifiers.
pub open spec fn scrubbed(msg: Seq<char>) -> Seq<char> {
    replaced(addresses_replaced(msg, "10.0.0.1"@), "zkevm-gpu-beast"@, "gpu-node"@)
}

/// A message in which the private addresses were replaced, with the GPU host names replaced by
/// generic node names.
pub fn mask_hosts(msg: &str) -> (masked: String)
    ensures
        masked@ == replaced(msg@, "zkevm-gpu-beast"@, "gpu-node"@),
{
    proof {
        reveal_strlit("zkevm-gpu-beast");
    }
    to_text(
        replace(
            to_chars(msg).as_slice(),
            to_chars("zkevm-gpu-beast").as_slice(),
            to_chars("gpu-node").as_slice(),
        ).as_slice(),
    )
}

/// Redacts internal infrastructure identifiers from a log message, replacing a private cluster IP
/// with a placeholder and the GPU host names with generic node names. The kept lines are published,
/// so they must carry no internal address or host name. A message with neither stays as it is.
pub fn scrub(msg: &str) -> (clean: String)
    ensures
        clean@ == scrubbed(msg@),
{
    scrub_with(to_chars(msg).as_slice(), &Pattern::new(PRIVATE_IP_RE))
}

fn scrub_with(msg: &[char], address: &Pattern) -> (clean: String)
    requires
        address@ == PRIVATE_IP_RE@,
    ensures
        clean@ == scrubbed(msg@),
{
    proof {
        reveal_strlit("10.0.0.1");
    }
    let masked: String = address.replace_all(to_text(msg).as_str(), "10.0.0.1");
    mask_hosts(masked.as_str())
}

/// The number of level tokens.
pub const TOKEN_COUNT: usize = 10;

/// The level tokens recognized at the start of a line, all kept, each in its two wire forms: a level
/// keyword before a colon, and one before a space.
pub open spec fn level_token(token: int) -> Seq<char> {
    if token == 0 {
        "TRACE:"@
    } else if token == 1 {
        "TRACE "@
    } else if token == 2 {
        "DEBUG:"@
    } else if token == 3 {
        "DEBUG "@
    } else if token == 4 {
        "INFO:"@
    } else if token == 5 {
        "INFO "@
    } else if token == 6 {
        "WARN:"@
    } else if token == 7 {
        "WARN "@
    } else if token == 8 {
        "ERROR:"@
    } else {
        "ERROR "@
    }
}

/// The lowercase level that a level token names.
pub open spec fn level_name(token: int) -> Seq<char> {
    if token < 2 {
        "trace"@
    } else if token < 4 {
        "debug"@
    } else if token < 6 {
        "info"@
    } else if token < 8 {
        "warn"@
    } else {
        "error"@
    }
}

fn token_text(token: usize) -> (text: &'static str)
    ensures
        text@ == level_token(token as int),
{
    if token == 0 {
        "TRACE:"
    } else if token == 1 {
        "TRACE "
    } else if token == 2 {
        "DEBUG:"
    } else if token == 3 {
        "DEBUG "
    } else if token == 4 {
        "INFO:"
    } else if token == 5 {
        "INFO "
    } else if token == 6 {
        "WARN:"
    } else if token == 7 {
        "WARN "
    } else if token == 8 {
        "ERROR:"
    } else {
        "ERROR "
    }
}

fn level_text(token: usize) -> (text: &'static str)
    ensures
        text@ == level_name(token as int),
{
    if token < 2 {
        "trace"
    } else if token < 4 {
        "debug"
    } else if token < 6 {
        "info"
    } else if token < 8 {
        "warn"
    } else {
        "error"
    }
}

/// Whether a token stands in a text at a place where it begins the text or follows a space.
pub open spec fn token_at(text: Seq<char>, token: Seq<char>, at: int) -> bool {
    occurs_at(text, token, at) && (at == 0 || text[at - 1] == ' ')
}

/// The first place, from `from` on, where a token begins the text or follows a space.
pub open spec fn token_place(text: Seq<char>, token: Seq<char>, from: int) -> Option<int>
    decreases text.len() - from + 1,
{
    if from < 0 || from > text.len() {
        None
    } else if token_at(text, token, from) {
        Some(from)
    } else {
        token_place(text, token, from + 1)
    }
}

/// The position of `token` in `text` where it begins the text or follows a space, so a level
/// keyword is matched as its own token and not as a substring of another word.
pub fn find_token(text: &[char], token: &[char]) -> (place: Option<usize>)
    ensures
        match place {
            Some(at) => token_place(text@, token@, 0) == Some(at as int) && at + token@.len()
                <= text@.len(),
            None => token_place(text@, token@, 0) is None,
        },
{
    let len: usize = text.len();
    let mut at: usize = 0;
    while at < len
        invariant
            len == text@.len(),
            at <= len,
            token_place(text@, token@, 0) == token_place(text@, token@, at as int),
        decreases len - at,
    {
        if stands_at(text, token, at) && (at == 0 || text[at - 1] == ' ') {
            return Some(at);
        }
        at += 1;
    }
    if stands_at(text, token, at) && (at == 0 || text[at - 1] == ' ') {
        return Some(at);
    }
    assert(token_place(text@, token@, at + 1) is None);
    None
}

/// The place of the earliest of the first `count` level tokens, and which token it is.
pub open spec fn earliest_level(rest: Seq<char>, count: int) -> Option<(int, int)>
    decreases count,
{
    if count <= 0 {
        None
    } else {
        let before = earliest_level(rest, count - 1);
        match token_place(rest, level_token(count - 1), 0) {
            Some(at) => if before is None || at < (before->0).0 {
                Some((at, count - 1))
            } else {
                before
            },
            None => before,
        }
    }
}

/// The lowercase level and the message of the remainder of a line after its timestamp.
pub open spec fn level_split(rest: Seq<char>) -> (Seq<char>, Seq<char>) {
    match earliest_level(rest, TOKEN_COUNT as int) {
        Some((at, token)) => (
            level_name(token),
            trimmed(rest.skip(at + level_token(token).len())),
        ),
        None => ("debug"@, trimmed(rest)),
    }
}

/// Splits the post-timestamp remainder into the lowercase level and the message. The level is the
/// earliest recognized level token in either of its two wire forms, a level keyword immediately
/// before a colon as zisk prints it, or a bare level keyword before a space as the tracing fmt
/// subscriber prints it, so the module path that precedes a zisk level is dropped while the span
/// and target context after a tracing level is kept. A level word inside the message is not
/// mistaken for the level because the earliest token wins. An unrecognized level defaults to debug
/// and the whole remainder is the message, so the level is always one of trace, debug, info, warn,
/// or error.
pub fn split_level(rest: &[char]) -> (split: (String, Vec<char>))
    ensures
        (split.0@, split.1@) == level_split(rest@),
{
    let mut best: Option<(usize, usize)> = None;
    for token in 0..TOKEN_COUNT
        invariant
            match best {
                Some((at, best_token)) => {
                    &&& earliest_level(rest@, token as int) == Some((at as int, best_token as int))
                    &&& at + level_token(best_token as int).len() <= rest@.len()
                    &&& best_token < TOKEN_COUNT
                },
                None => earliest_level(rest@, token as int) is None,
            },
    {
        match find_token(rest, to_chars(token_text(token)).as_slice()) {
            Some(at) => {
                let better: bool = match best {
                    Some((before, _)) => at < before,
                    None => true,
                };
                if better {
                    best = Some((at, token));
                }
            },
            None => {},
        }
    }
    match best {
        Some((at, token)) => {
            let len: usize = rest.len();
            let width: usize = to_chars(token_text(token)).len();
            let tail = &rest[at + width..len];
            assert(tail@ =~= rest@.skip(at + level_token(token as int).len()));
            (level_text(token).to_string(), copied(trim(tail)))
        },
        None => ("debug".to_string(), copied(trim(rest))),
    }
}

/// The lines kept so far, and whether one of the file being read is among them.
#[verifier::ext_equal]
pub struct Kept {
    pub lines: Seq<LineModel>,
    pub started: bool,
}

/// The parts of a line before and after its first space.
pub open spec fn stamp_split(line: Seq<char>) -> (Seq<char>, Seq<char>) {
    match around_first(line, " "@) {
        Some(parts) => parts,
        None => (line, seq![]),
    }
}

/// The kept lines after a line that begins with a timestamp.
pub open spec fn line_begun(kept: Kept, ns: int, rest: Seq<char>, role: Seq<char>) -> Kept {
    let (level, msg) = level_split(rest);
    Kept {
        lines: kept.lines.push(LineModel { role, ts: ns, level, msg: scrubbed(msg) }),
        started: true,
    }
}

/// The kept lines after a line that does not begin with a timestamp, which continues the previous
/// line's message.
pub open spec fn line_continued(kept: Kept, line: Seq<char>) -> Kept {
    if kept.started {
        let last = kept.lines.last();
        Kept {
            lines: kept.lines.update(
                kept.lines.len() - 1,
                LineModel { msg: last.msg + "\n"@ + scrubbed(line), ..last },
            ),
            ..kept
        }
    } else {
        kept
    }
}

/// The kept lines after one line of a log.
pub open spec fn line_kept(kept: Kept, raw: Seq<char>, role: Seq<char>) -> Kept {
    let line = trimmed_end(raw);
    if line.len() == 0 {
        kept
    } else {
        let (first, rest) = stamp_split(line);
        match ts_read(first) {
            Ok(ns) => line_begun(kept, ns, rest, role),
            Err(_) => line_continued(kept, line),
        }
    }
}

/// The kept lines after the given lines of a log.
pub open spec fn lines_kept(kept: Kept, lines: Seq<Seq<char>>, role: Seq<char>) -> Kept
    decreases lines.len(),
{
    if lines.len() == 0 {
        kept
    } else {
        lines_kept(line_kept(kept, lines[0], role), lines.skip(1), role)
    }
}

/// The kept lines after one role's log text.
pub open spec fn file_kept(lines: Seq<LineModel>, text: Seq<char>, role: Seq<char>) -> Seq<
    LineModel,
> {
    lines_kept(Kept { lines, started: false }, lines_of(text), role).lines
}

/// Keeps a line that begins with a timestamp.
fn begin_line(out: &mut Vec<RawLine>, ts: Ts, rest: &[char], role: &str, address: &Pattern)
    requires
        address@ == PRIVATE_IP_RE@,
    ensures
        final(out).deep_view() == line_begun(
            Kept { lines: old(out).deep_view(), started: true },
            ts@,
            rest@,
            role@,
        ).lines,
        final(out)@.len() > 0,
{
    let ghost before = out.deep_view();
    let (level, msg) = split_level(rest);
    let line = RawLine {
        role: role.to_string(),
        ts,
        level,
        msg: scrub_with(msg.as_slice(), address),
    };
    out.push(line);
    assert(out.deep_view() =~= before.push(line.deep_view()));
}

/// Continues the last kept line's message.
fn continue_line(out: &mut Vec<RawLine>, line: &[char], address: &Pattern)
    requires
        address@ == PRIVATE_IP_RE@,
        old(out)@.len() > 0,
    ensures
        final(out).deep_view() == line_continued(
            Kept { lines: old(out).deep_view(), started: true },
            line@,
        ).lines,
        final(out)@.len() > 0,
{
    let ghost before = out.deep_view();
    let last: usize = out.len() - 1;
    let held: Vec<char> = joined(
        to_chars(out[last].msg.as_str()).as_slice(),
        to_chars("\n").as_slice(),
    );
    let added: String = scrub_with(line, address);
    let msg: Vec<char> = joined(held.as_slice(), to_chars(added.as_str()).as_slice());
    out[last].msg = to_text(msg.as_slice());
    proof {
        let next = LineModel { msg: msg@, ..before.last() };
        assert(out@[last as int].deep_view() =~= next);
        assert(out.deep_view() =~= before.update(last as int, next));
    }
}

/// Parses one role's log text, appending one record per line. A line whose first token is not a
/// timestamp continues the previous line's message, so a wrapped or stack-trace line stays one
/// record rather than splitting into a level-less fragment.
pub fn parse_file(text: &str, role: &str, out: &mut Vec<RawLine>)
    ensures
        final(out).deep_view() == file_kept(old(out).deep_view(), text@, role@),
{
    let address: Pattern = Pattern::new(PRIVATE_IP_RE);
    let chars: Vec<char> = to_chars(text);
    let lines: Vec<Vec<char>> = lines(chars.as_slice());
    let ghost all = lines_of(text@);
    let ghost start = Kept { lines: out.deep_view(), started: false };
    let mut started: bool = false;
    assert(all.skip(0) =~= all);
    for i in 0..lines.len()
        invariant
            address@ == PRIVATE_IP_RE@,
            all == views(lines@),
            all == lines_of(text@),
            start == (Kept { lines: old(out).deep_view(), started: false }),
            started ==> out@.len() > 0,
            lines_kept(start, all, role@) == lines_kept(
                Kept { lines: out.deep_view(), started },
                all.skip(i as int),
                role@,
            ),
    {
        assert(all.skip(i as int)[0] == lines@[i as int]@);
        assert(all.skip(i as int).skip(1) =~= all.skip(i + 1));
        let line = trim_end(lines[i].as_slice());
        if line.len() > 0 {
            let none: Vec<char> = Vec::new();
            assert(none@ =~= seq![]);
            let (first, rest) = match around(line, " ") {
                Some(parts) => parts,
                None => (line, none.as_slice()),
            };
            assert((first@, rest@) == stamp_split(line@));
            match Ts::parse(to_text(first).as_str()) {
                Ok(ts) => {
                    begin_line(out, ts, rest, role, &address);
                    started = true;
                },
                Err(_) => {
                    if started {
                        continue_line(out, line, &address);
                    }
                },
            }
        }
    }
}

/// The GPU index that a match of a worker log file name captured in its second group.
pub open spec fn gpu_of(groups: Option<Seq<Option<Seq<char>>>>) -> Option<Seq<char>> {
    match groups {
        Some(groups) => if 2 < groups.len() {
            groups[2]
        } else {
            None
        },
        None => None,
    }
}

/// The role of a worker log, by its node digit and the GPU index of its file name.
pub open spec fn role_of(digit: u32, gpu: Option<Seq<char>>) -> Seq<char> {
    match gpu {
        Some(gpu) => "worker"@ + decimal(digit as nat) + "-gpu"@ + gpu,
        None => "worker"@ + decimal(digit as nat),
    }
}

/// The role string for a worker log file by what the file name pattern captured, "workerN" for
/// worker-N.log and "workerN-gpuG" for the per-GPU worker-N-gpuG.log, so lines from each GPU worker
/// stay distinguishable on the shared clock.
pub fn worker_role(groups: &Option<Groups>, digit: u32) -> (role: String)
    ensures
        role@ == role_of(digit, gpu_of(groups_view(*groups))),
{
    let role: Vec<char> = joined(
        to_chars("worker").as_slice(),
        write_decimal(digit as u64).as_slice(),
    );
    match groups {
        Some(groups) => if groups.took_part(2) {
            let role: Vec<char> = joined(role.as_slice(), to_chars("-gpu").as_slice());
            let gpu: String = groups.text(2);
            return to_text(
                joined(role.as_slice(), to_chars(gpu.as_str()).as_slice()).as_slice(),
            );
        },
        None => {},
    }
    to_text(role.as_slice())
}

/// The lines of the coordinator log, where there is one, and of the first `count` worker logs.
pub open spec fn logs_kept(
    coordinator: Option<Seq<char>>,
    files: Seq<(u32, Seq<char>, Seq<char>)>,
    count: int,
) -> Seq<LineModel>
    decreases count,
{
    if count <= 0 {
        match coordinator {
            Some(text) => file_kept(seq![], without_ansi(text), "coordinator"@),
            None => seq![],
        }
    } else {
        let (digit, name, text) = files[count - 1];
        file_kept(
            logs_kept(coordinator, files, count - 1),
            without_ansi(text),
            role_of(digit, gpu_of(matched(WORKER_LOG_RE@, name))),
        )
    }
}

/// The sort keys of kept lines, their epoch microseconds.
pub open spec fn line_keys(lines: Seq<LineModel>) -> Seq<(i64, i64)> {
    lines.map_values(|line: LineModel| (us_of(line.ts), 0i64))
}

/// Kept lines in the order of their timestamps, those of one microsecond in the order given.
pub open spec fn by_time(lines: Seq<LineModel>) -> Seq<LineModel> {
    arranged(lines, stable_order(line_keys(lines)))
}

/// Sorts kept lines by timestamp, to the microsecond.
pub fn sort_lines(lines: &Vec<RawLine>) -> (sorted: Vec<RawLine>)
    ensures
        sorted.deep_view() == by_time(lines.deep_view()),
{
    let mut keys: Vec<(i64, i64)> = Vec::new();
    for i in 0..lines.len()
        invariant
            keys@.len() == i,
            forall|k: int| 0 <= k < i ==> #[trigger] keys@[k] == (us_of(lines@[k].ts@), 0i64),
    {
        keys.push((lines[i].ts.epoch_us(), 0));
    }
    assert(keys@ =~= line_keys(lines.deep_view()));
    let order: Vec<usize> = sort_places(&keys);
    let mut sorted: Vec<RawLine> = Vec::new();
    for i in 0..order.len()
        invariant
            keys@.len() == lines@.len(),
            forall|k: int| 0 <= k < order@.len() ==> #[trigger] order@[k] < keys@.len(),
            sorted@.len() == i,
            forall|k: int|
                0 <= k < i ==> (#[trigger] sorted@[k]).deep_view()
                    == lines@[order@[k] as int].deep_view(),
    {
        sorted.push(lines[order[i]].copy());
    }
    assert(sorted.deep_view() =~= by_time(lines.deep_view()));
    sorted
}

/// The text of a log that may be absent.
pub open spec fn log_text(text: Option<String>) -> Option<Seq<char>> {
    text.deep_view()
}

/// Reads every coordinator and worker log line into role-tagged records, sorted by timestamp so
/// lines from different roles interleave on the one shared clock. The coordinator reads as role
/// "coordinator", worker-N.log as role "workerN", and the per-GPU worker-N-gpuG.log as role
/// "workerN-gpuG".
pub fn load_raw_lines(coordinator: &Option<String>, files: &Vec<WorkerFile>) -> (lines: Vec<RawLine>)
    ensures
        lines.deep_view() == by_time(
            logs_kept(log_text(*coordinator), files.deep_view(), files@.len() as int),
        ),
{
    let pattern: Pattern = Pattern::new(WORKER_LOG_RE);
    let mut lines: Vec<RawLine> = Vec::new();
    assert(lines.deep_view() =~= seq![]);
    match coordinator {
        Some(text) => parse_file(strip_ansi(text.as_str()).as_str(), "coordinator", &mut lines),
        None => {},
    }
    for i in 0..files.len()
        invariant
            pattern@ == WORKER_LOG_RE@,
            lines.deep_view() == logs_kept(
                log_text(*coordinator),
                files.deep_view(),
                i as int,
            ),
    {
        let file: &WorkerFile = &files[i];
        assert(files.deep_view()[i as int] == file.deep_view());
        let role: String = worker_role(&pattern.captures(file.name.as_str()), file.digit);
        parse_file(strip_ansi(file.text.as_str()).as_str(), role.as_str(), &mut lines);
    }
    sort_lines(&lines)
}

} // verus!
