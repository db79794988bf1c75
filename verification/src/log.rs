//! The cluster-log side of the input: the log model that a zkVM backend fills, one parsed log per
//! proving job, and the timestamps it is measured in.

use vstd::prelude::*;

use crate::error::{Failure, ParseError, Result};
use crate::text::{begins_with, copied, joined, next_where, starts_with, to_chars, to_text};

verus! {

/// The nanosecond since the epoch that a text names as an RFC 3339 timestamp, or the words in which
/// jiff refuses it.
pub uninterp spec fn timestamp_nanos(value: Seq<char>) -> core::result::Result<int, Seq<char>>;

/// The first nanosecond that a timestamp can name.
pub const MIN_NS: i128 = -377_705_023_201_000_000_000;

/// The last nanosecond that a timestamp can name.
pub const MAX_NS: i128 = 253_402_207_200_999_999_999;

/// jiff's `Timestamp` parses a text, and `Timestamp::as_nanosecond` gives it without loss. A
/// timestamp lies between `Timestamp::MIN` and `Timestamp::MAX`. The error is given in its own
/// words.
#[verifier::external_body]
fn timestamp_parse(value: &str) -> (parsed: core::result::Result<i128, String>)
    ensures
        match parsed {
            Ok(ns) => timestamp_nanos(value@) == Ok::<int, Seq<char>>(ns as int) && MIN_NS <= ns
                <= MAX_NS,
            Err(reason) => timestamp_nanos(value@) == Err::<int, Seq<char>>(reason@),
        },
{
    value.parse::<jiff::Timestamp>().map(|ts| ts.as_nanosecond()).map_err(|e| e.to_string())
}

/// An instant, to the nanosecond.
#[derive(Clone, Copy, PartialEq, Eq, PartialOrd, Ord, Structural)]
pub struct Ts {
    ns: i128,
}

impl View for Ts {
    type V = int;

    closed spec fn view(&self) -> int {
        self.ns as int
    }
}

impl DeepView for Ts {
    type V = int;

    open spec fn deep_view(&self) -> int {
        self@
    }
}

/// A number of `unit`s in `ns`, cut off toward zero.
pub open spec fn whole_units(ns: int, unit: int) -> int {
    if ns >= 0 {
        ns / unit
    } else {
        -((-ns) / unit)
    }
}

/// The integer milliseconds of an instant.
pub open spec fn ms_of(ns: int) -> i64 {
    whole_units(ns, 1_000_000) as i64
}

/// The integer microseconds of an instant.
pub open spec fn us_of(ns: int) -> i64 {
    whole_units(ns, 1_000) as i64
}

/// The instant that a text names, or the error for it.
pub open spec fn ts_read(value: Seq<char>) -> core::result::Result<int, Failure> {
    match timestamp_nanos(value) {
        Ok(ns) => Ok(ns),
        Err(reason) => Err(Failure::Timestamp { value, reason }),
    }
}

/// The bytes that a character takes in UTF-8.
pub open spec fn utf8_width(c: char) -> int {
    if c <= '\u{7f}' {
        1
    } else if c <= '\u{7ff}' {
        2
    } else if c <= '\u{ffff}' {
        3
    } else {
        4
    }
}

/// The bytes that a text takes in UTF-8.
pub open spec fn utf8_len(text: Seq<char>) -> int
    decreases text.len(),
{
    if text.len() == 0 {
        0
    } else {
        utf8_len(text.drop_last()) + utf8_width(text.last())
    }
}

/// The number of characters that begin before a byte position of a text.
pub open spec fn chars_before(text: Seq<char>, bytes: int) -> int
    decreases text.len(),
{
    if text.len() == 0 {
        0
    } else if utf8_len(text.drop_last()) < bytes {
        text.len() as int
    } else {
        chars_before(text.drop_last(), bytes)
    }
}

/// Whether a character begins or the text ends at a byte position.
pub open spec fn on_boundary(text: Seq<char>, bytes: int) -> bool {
    utf8_len(text.take(chars_before(text, bytes))) == bytes
}

/// The RFC 3339 form of a date YYYYMMDD and a time HH:MM:SS, in UTC.
pub open spec fn dmon_rfc(date: Seq<char>, time: Seq<char>) -> Seq<char> {
    let year = chars_before(date, 4);
    let month = chars_before(date, 6);
    let day = chars_before(date, 8);
    date.take(year) + seq!['-'] + date.subrange(year, month) + seq!['-'] + date.subrange(month, day)
        + seq!['T'] + time + seq!['Z']
}

proof fn lemma_chars_before(text: Seq<char>, bytes: int, more: int)
    requires
        bytes <= more,
    ensures
        0 <= chars_before(text, bytes) <= chars_before(text, more) <= text.len(),
    decreases text.len(),
{
    if text.len() > 0 {
        lemma_chars_before(text.drop_last(), bytes, more);
    }
}

fn width(c: char) -> (bytes: usize)
    ensures
        bytes == utf8_width(c),
{
    if c <= '\u{7f}' {
        1
    } else if c <= '\u{7ff}' {
        2
    } else if c <= '\u{ffff}' {
        3
    } else {
        4
    }
}

proof fn lemma_utf8_len_grows(text: Seq<char>, at: int)
    requires
        0 <= at <= text.len(),
    ensures
        0 <= utf8_len(text.take(at)) <= utf8_len(text),
        at < text.len() ==> utf8_len(text.take(at)) < utf8_len(text),
    decreases text.len(),
{
    if at == text.len() {
        assert(text.take(at) =~= text);
        if at > 0 {
            lemma_utf8_len_grows(text.drop_last(), at - 1);
        }
    } else {
        lemma_utf8_len_grows(text.drop_last(), at);
        assert(text.drop_last().take(at) =~= text.take(at));
    }
}

proof fn lemma_chars_before_stops(text: Seq<char>, bytes: int, at: int)
    requires
        0 <= at <= text.len(),
        utf8_len(text.take(at)) >= bytes,
    ensures
        chars_before(text, bytes) == chars_before(text.take(at), bytes),
    decreases text.len(),
{
    if at == text.len() {
        assert(text.take(at) =~= text);
    } else {
        assert(text.drop_last().take(at) =~= text.take(at));
        lemma_utf8_len_grows(text.drop_last(), at);
        lemma_chars_before_stops(text.drop_last(), bytes, at);
    }
}

/// The number of characters that begin before a byte position, and whether the text is that long.
fn count_before(text: &[char], bytes: usize) -> (found: (usize, bool))
    requires
        bytes <= 8,
    ensures
        found.0 == chars_before(text@, bytes as int),
        found.0 <= text@.len(),
        found.1 == (utf8_len(text@) >= bytes),
{
    let mut at: usize = 0;
    let mut len: usize = 0;
    while at < text.len() && len < bytes
        invariant
            at <= text@.len(),
            bytes <= 8,
            len <= bytes + 3,
            len == utf8_len(text@.take(at as int)),
            at == chars_before(text@.take(at as int), bytes as int),
        decreases text@.len() - at,
    {
        assert(text@.take(at + 1).drop_last() =~= text@.take(at as int));
        len += width(text[at]);
        at += 1;
    }
    proof {
        if len >= bytes {
            lemma_chars_before_stops(text@, bytes as int, at as int);
            lemma_utf8_len_grows(text@, at as int);
        } else {
            assert(text@.take(at as int) =~= text@);
        }
    }
    (at, len >= bytes)
}

impl Ts {
    #[verifier::type_invariant]
    spec fn in_range(self) -> bool {
        MIN_NS <= self.ns <= MAX_NS
    }

    /// Parses an RFC 3339 timestamp with a trailing Z and any sub-second precision.
    pub fn parse(value: &str) -> (parsed: Result<Ts>)
        ensures
            match parsed {
                Ok(ts) => ts_read(value@) == Ok::<int, Failure>(ts@),
                Err(error) => ts_read(value@) == Err::<int, Failure>(error@),
            },
    {
        match timestamp_parse(value) {
            Ok(ns) => Ok(Ts { ns }),
            Err(reason) => Err(ParseError::Timestamp { value: value.to_string(), reason }),
        }
    }

    /// Builds a timestamp from a columnar date YYYYMMDD and a time HH:MM:SS, treated as UTC.
    pub fn from_dmon(date: &str, time: &str) -> (parsed: Result<Ts>)
        requires
            utf8_len(date@) >= 8 ==> on_boundary(date@, 4) && on_boundary(date@, 6) && on_boundary(
                date@,
                8,
            ),
        ensures
            utf8_len(date@) < 8 ==> parsed is Err && parsed->Err_0@ == (Failure::Timestamp {
                value: date@ + seq![' '] + time@,
                reason: "dmon date is shorter than YYYYMMDD"@,
            }),
            utf8_len(date@) >= 8 ==> match parsed {
                Ok(ts) => ts_read(dmon_rfc(date@, time@)) == Ok::<int, Failure>(ts@),
                Err(error) => ts_read(dmon_rfc(date@, time@)) == Err::<int, Failure>(error@),
            },
    {
        let date: Vec<char> = to_chars(date);
        let (day, long) = count_before(date.as_slice(), 8);
        if !long {
            let mut value: Vec<char> = date;
            value.push(' ');
            let value: Vec<char> = joined(value.as_slice(), to_chars(time).as_slice());
            return Err(
                ParseError::Timestamp {
                    value: to_text(value.as_slice()),
                    reason: "dmon date is shorter than YYYYMMDD".to_string(),
                },
            );
        }
        let (year, _) = count_before(date.as_slice(), 4);
        let (month, _) = count_before(date.as_slice(), 6);
        proof {
            lemma_chars_before(date@, 4, 6);
            lemma_chars_before(date@, 6, 8);
        }
        let mut rfc: Vec<char> = copied(&date.as_slice()[0..year]);
        rfc.push('-');
        let mut rfc: Vec<char> = joined(rfc.as_slice(), &date.as_slice()[year..month]);
        rfc.push('-');
        let mut rfc: Vec<char> = joined(rfc.as_slice(), &date.as_slice()[month..day]);
        rfc.push('T');
        let mut rfc: Vec<char> = joined(rfc.as_slice(), to_chars(time).as_slice());
        rfc.push('Z');
        assert(rfc@ =~= dmon_rfc(date@, time@));
        Ts::parse(to_text(rfc.as_slice()).as_str())
    }

    /// Returns the integer milliseconds since the unix epoch, truncating sub-millisecond digits.
    pub fn epoch_ms(self) -> (ms: i64)
        ensures
            ms == ms_of(self@),
            ms == whole_units(self@, 1_000_000),
    {
        proof {
            use_type_invariant(self);
        }
        if self.ns >= 0 {
            (self.ns / 1_000_000) as i64
        } else {
            (-((-self.ns) / 1_000_000)) as i64
        }
    }

    /// Returns the integer microseconds since the unix epoch, truncating sub-microsecond digits.
    /// The log offsets are stored at this precision so lines within the same millisecond keep
    /// their order.
    pub fn epoch_us(self) -> (us: i64)
        ensures
            us == us_of(self@),
            us == whole_units(self@, 1_000),
    {
        proof {
            use_type_invariant(self);
        }
        if self.ns >= 0 {
            (self.ns / 1_000) as i64
        } else {
            (-((-self.ns) / 1_000)) as i64
        }
    }
}

/// Terminal state a backend reported for a proving job, read from its log.
#[derive(Clone, Copy, PartialEq, Eq, Debug, Structural)]
pub enum LogStatus {
    Success,
    Failed,
    Timeout,
    Unknown,
}

/// A number as a log wrote it, with how many of its unit make one second.
#[derive(PartialEq, Eq, Debug)]
pub struct Reading {
    pub text: String,
    pub per_second: u32,
}

impl DeepView for Reading {
    type V = (Seq<char>, u32);

    open spec fn deep_view(&self) -> (Seq<char>, u32) {
        (self.text@, self.per_second)
    }
}

/// One proving job's parsed log, holding only fields read from the cluster logs. The meta list
/// carries backend-specific per-block scalars by their output field name, in the order of the names.
pub struct Log {
    pub id: String,
    pub status: LogStatus,
    pub t_start: Option<Ts>,
    pub t_end: Option<Ts>,
    pub duration_s: Option<Reading>,
    pub meta: Vec<(String, u64)>,
    pub nodes: Vec<LogNode>,
    /// Node ids that took part in this job, the union of every source that names a worker. A
    /// hardware node absent from this list did not work the job, so the proof ran on fewer than
    /// the full cluster.
    pub participants: Vec<String>,
}

/// A log by the values it holds.
#[verifier::ext_equal]
pub struct LogModel {
    pub id: Seq<char>,
    pub status: LogStatus,
    pub t_start: Option<int>,
    pub t_end: Option<int>,
    pub duration_s: Option<(Seq<char>, u32)>,
    pub meta: Seq<(Seq<char>, u64)>,
    pub nodes: Seq<NodeModel>,
    pub participants: Seq<Seq<char>>,
}

impl DeepView for Log {
    type V = LogModel;

    open spec fn deep_view(&self) -> LogModel {
        LogModel {
            id: self.id@,
            status: self.status,
            t_start: self.t_start.deep_view(),
            t_end: self.t_end.deep_view(),
            duration_s: self.duration_s.deep_view(),
            meta: self.meta.deep_view(),
            nodes: self.nodes.deep_view(),
            participants: self.participants.deep_view(),
        }
    }
}

impl Log {
    /// Creates an empty log record for the given job id.
    pub fn new(id: &str) -> (log: Log)
        ensures
            log.deep_view() == (LogModel {
                id: id@,
                status: LogStatus::Unknown,
                t_start: None,
                t_end: None,
                duration_s: None,
                meta: seq![],
                nodes: seq![],
                participants: seq![],
            }),
    {
        let log = Log {
            id: id.to_string(),
            status: LogStatus::Unknown,
            t_start: None,
            t_end: None,
            duration_s: None,
            meta: Vec::new(),
            nodes: Vec::new(),
            participants: Vec::new(),
        };
        assert(log.deep_view().meta =~= seq![]);
        assert(log.deep_view().nodes =~= seq![]);
        assert(log.deep_view().participants =~= seq![]);
        log
    }
}

/// How a node's work on a job ended before completion. A crashed node is the one the cluster lost,
/// and a cancelled node is one the cluster stopped after a sibling crashed.
#[derive(Clone, Copy, PartialEq, Eq, Debug, Structural)]
pub enum NodeEndKind {
    Crashed,
    Cancelled,
}

impl DeepView for NodeEndKind {
    type V = NodeEndKind;

    open spec fn deep_view(&self) -> NodeEndKind {
        *self
    }
}

/// The wire text of a node's crash marker.
pub open spec fn end_kind_text(kind: NodeEndKind) -> Seq<char> {
    match kind {
        NodeEndKind::Crashed => "crashed"@,
        NodeEndKind::Cancelled => "cancelled"@,
    }
}

impl NodeEndKind {
    /// The wire string emitted for the node's crash marker.
    pub fn as_str(self) -> (text: &'static str)
        ensures
            text@ == end_kind_text(self),
    {
        match self {
            NodeEndKind::Crashed => "crashed",
            NodeEndKind::Cancelled => "cancelled",
        }
    }
}

/// The moment and manner a node stopped working on a job, in absolute epoch milliseconds.
#[derive(Clone, Copy, PartialEq, Eq, Debug, Structural)]
pub struct NodeEnd {
    pub at_ms: i64,
    pub kind: NodeEndKind,
}

impl DeepView for NodeEnd {
    type V = NodeEnd;

    open spec fn deep_view(&self) -> NodeEnd {
        *self
    }
}

/// One worker's contribution to a job, its phase windows aligned to the preset order.
///
/// Entry i is the absolute (start, end) epoch-ms window for preset phase i, or None where the
/// worker skipped it. The aggregator carries the cluster aggregate window in its final slot, which
/// is how the assembler identifies it. On an incomplete job `end` marks where this node crashed or
/// was cancelled, against which its in-progress phase is clipped.
pub struct LogNode {
    pub id: String,
    pub phases: Vec<Option<(i64, i64)>>,
    /// The node's fine pipeline items in template kind terms, empty when the backend extracts none.
    pub items: Vec<PipelineItem>,
    pub end: Option<NodeEnd>,
}

/// A node's contribution by the values it holds.
#[verifier::ext_equal]
pub struct NodeModel {
    pub id: Seq<char>,
    pub phases: Seq<Option<(i64, i64)>>,
    pub items: Seq<ItemModel>,
    pub end: Option<NodeEnd>,
}

impl DeepView for LogNode {
    type V = NodeModel;

    open spec fn deep_view(&self) -> NodeModel {
        NodeModel {
            id: self.id@,
            phases: self.phases@,
            items: self.items.deep_view(),
            end: self.end,
        }
    }
}

/// One phase in a zkVM proving pipeline, used as an ordered preset.
pub struct PhaseDef {
    pub name: String,
    pub label: String,
    /// An overlap phase runs concurrently with its neighbors.
    pub overlap: bool,
}

impl DeepView for PhaseDef {
    type V = (Seq<char>, Seq<char>, bool);

    open spec fn deep_view(&self) -> (Seq<char>, Seq<char>, bool) {
        (self.name@, self.label@, self.overlap)
    }
}

/// One fine-pipeline item kind in a zkVM's ordered template, owned by the named preset phase. A
/// paired kind carries a witness segment and a compute segment in one item.
pub struct PipelineDef {
    pub name: String,
    pub label: String,
    pub phase: String,
    pub paired: bool,
}

impl DeepView for PipelineDef {
    type V = (Seq<char>, Seq<char>, Seq<char>, bool);

    open spec fn deep_view(&self) -> (Seq<char>, Seq<char>, Seq<char>, bool) {
        (self.name@, self.label@, self.phase@, self.paired)
    }
}

/// One sub-step of a phase in a zkVM's ordered sub-phase template.
pub struct SubPhaseDef {
    pub name: String,
    pub label: String,
    pub phase: String,
}

impl DeepView for SubPhaseDef {
    type V = (Seq<char>, Seq<char>, Seq<char>);

    open spec fn deep_view(&self) -> (Seq<char>, Seq<char>, Seq<char>) {
        (self.name@, self.label@, self.phase@)
    }
}

/// One fine pipeline item on a node, in absolute epoch milliseconds. The first segment is the
/// witness of a paired kind or the sole segment of an unpaired one, and the second is the compute
/// half of a pair. A None end marks a segment a crash left open.
pub struct PipelineItem {
    pub kind: usize,
    pub first: (i64, Option<i64>),
    pub second: Option<(i64, Option<i64>)>,
    pub meta: PipelineItemMeta,
}

/// Optional per-item metadata a backend reads from its logs. The id numbers the item within its
/// kind, and the heavy markers name the segment index of each side of a paired item, first segment
/// zero. The spans are the item's sub-steps, each a sub-phase template slot with its milliseconds,
/// packed across the spans window. Where they overrun the window, `scaled_ends` holds the end of
/// each, scaled to fit, as an offset into the window.
pub struct PipelineItemMeta {
    pub id: Option<i64>,
    pub cpu_heavy: Option<usize>,
    pub gpu_heavy: Option<usize>,
    pub spans: Vec<(u64, u64)>,
    pub spans_window: Option<(i64, i64)>,
    pub scaled_ends: Option<Vec<i64>>,
}

/// An item by the values it holds.
#[verifier::ext_equal]
pub struct ItemModel {
    pub kind: usize,
    pub first: (i64, Option<i64>),
    pub second: Option<(i64, Option<i64>)>,
    pub meta: MetaModel,
}

/// An item's metadata by the values it holds.
#[verifier::ext_equal]
pub struct MetaModel {
    pub id: Option<i64>,
    pub cpu_heavy: Option<usize>,
    pub gpu_heavy: Option<usize>,
    pub spans: Seq<(u64, u64)>,
    pub spans_window: Option<(i64, i64)>,
    pub scaled_ends: Option<Seq<i64>>,
}

impl DeepView for PipelineItem {
    type V = ItemModel;

    open spec fn deep_view(&self) -> ItemModel {
        ItemModel {
            kind: self.kind,
            first: self.first,
            second: self.second,
            meta: self.meta.deep_view(),
        }
    }
}

impl DeepView for PipelineItemMeta {
    type V = MetaModel;

    open spec fn deep_view(&self) -> MetaModel {
        MetaModel {
            id: self.id,
            cpu_heavy: self.cpu_heavy,
            gpu_heavy: self.gpu_heavy,
            spans: self.spans@,
            spans_window: self.spans_window,
            scaled_ends: match self.scaled_ends {
                Some(ends) => Some(ends@),
                None => None,
            },
        }
    }
}

/// The metadata of an item of which nothing but its times was read.
pub open spec fn no_meta() -> MetaModel {
    MetaModel {
        id: None,
        cpu_heavy: None,
        gpu_heavy: None,
        spans: seq![],
        spans_window: None,
        scaled_ends: None,
    }
}

impl Default for PipelineItemMeta {
    fn default() -> (meta: PipelineItemMeta)
        ensures
            meta.deep_view() == no_meta(),
    {
        let meta = PipelineItemMeta {
            id: None,
            cpu_heavy: None,
            gpu_heavy: None,
            spans: Vec::new(),
            spans_window: None,
            scaled_ends: None,
        };
        assert(meta.deep_view().spans =~= seq![]);
        meta
    }
}

/// The pairs of a slice, copied.
pub fn copy_pairs(pairs: &[(u64, u64)]) -> (copy: Vec<(u64, u64)>)
    ensures
        copy@ == pairs@,
{
    let mut copy: Vec<(u64, u64)> = Vec::new();
    for i in 0..pairs.len()
        invariant
            copy@ == pairs@.take(i as int),
    {
        copy.push(pairs[i]);
    }
    copy
}

impl PipelineItem {
    /// A copy of the item.
    pub fn copy(&self) -> (copy: PipelineItem)
        ensures
            copy.deep_view() == self.deep_view(),
    {
        let scaled_ends: Option<Vec<i64>> = match &self.meta.scaled_ends {
            Some(ends) => Some(ends.clone()),
            None => None,
        };
        let copy = PipelineItem {
            kind: self.kind,
            first: self.first,
            second: self.second,
            meta: PipelineItemMeta {
                id: self.meta.id,
                cpu_heavy: self.meta.cpu_heavy,
                gpu_heavy: self.meta.gpu_heavy,
                spans: copy_pairs(self.meta.spans.as_slice()),
                spans_window: self.meta.spans_window,
                scaled_ends,
            },
        };
        assert(copy.meta.deep_view() =~= self.meta.deep_view());
        copy
    }
}

/// Whether the character is an ASCII hex digit.
pub open spec fn is_hex(c: char) -> bool {
    '0' <= c <= '9' || 'a' <= c <= 'f' || 'A' <= c <= 'F'
}

/// The key under which a job's lines are joined: an Edge proof id, which begins `ere-` and is
/// logged in full everywhere, whole, and of any other token its leading hex run.
pub open spec fn prefix_of(token: Seq<char>) -> Seq<char> {
    if begins_with(token, "ere-"@) {
        token
    } else {
        token.take(next_where(token, 0, |c: char| !is_hex(c)))
    }
}

/// The canonical key that the coordinator's truncated job id, a crash reason's full uuid, and the
/// worker logs all share, the leading hex run of a token. An Edge proof id is logged in full on
/// every side and kept whole.
pub fn job_prefix(token: &str) -> (prefix: String)
    ensures
        prefix@ == prefix_of(token@),
{
    let chars: Vec<char> = to_chars(token);
    to_text(prefix_chars(chars.as_slice()).as_slice())
}

/// The key of a token given as characters.
pub fn prefix_chars(token: &[char]) -> (prefix: Vec<char>)
    ensures
        prefix@ == prefix_of(token@),
{
    let whole: Vec<char> = to_chars("ere-");
    if starts_with(token, whole.as_slice()) {
        return copied(token);
    }
    let mut end: usize = 0;
    while end < token.len() && hex(token[end])
        invariant
            end <= token@.len(),
            next_where(token@, 0, |c: char| !is_hex(c)) == next_where(
                token@,
                end as int,
                |c: char| !is_hex(c),
            ),
        decreases token@.len() - end,
    {
        end += 1;
    }
    copied(&token[0..end])
}

fn hex(c: char) -> (yes: bool)
    ensures
        yes == is_hex(c),
{
    ('0' <= c && c <= '9') || ('a' <= c && c <= 'f') || ('A' <= c && c <= 'F')
}

} // verus!
