//! What the zkVM backends share.

use vstd::prelude::*;

use crate::log::{Log, LogModel, PhaseDef, PipelineDef, PipelineItem, Reading, SubPhaseDef};
use crate::pattern::{rewritten, Pattern};

verus! {

/// Matches an ANSI SGR escape sequence.
pub const ANSI_RE: &'static str = r"\x1b\[[0-9;]*m";

/// Log text without its ANSI SGR escape sequences.
pub open spec fn without_ansi(text: Seq<char>) -> Seq<char> {
    rewritten(ANSI_RE@, text, ""@)
}

/// Removes ANSI SGR escape sequences from log text, for backends that parse colorized logs.
pub fn strip_ansi(text: &str) -> (clean: String)
    ensures
        clean@ == without_ansi(text@),
{
    Pattern::new(ANSI_RE).replace_all(text, "")
}

/// The result of parsing a run's cluster logs, holding the zkVM's wire name, its ordered phase
/// preset, its fine-pipeline template with the component kinds and sub-phases that a run carrying
/// sub-steps adds, and one parsed log per proving job. The name is the lowercase identity the
/// backend reports, emitted verbatim so the framework never enumerates the known zkVMs itself.
pub struct ParsedLogs {
    pub name: &'static str,
    pub phases: Vec<PhaseDef>,
    pub pipeline: Vec<PipelineDef>,
    pub pipeline_components: Vec<PipelineDef>,
    pub subphases: Vec<SubPhaseDef>,
    pub logs: Vec<Log>,
}

/// A parsed run by the values it holds.
#[verifier::ext_equal]
pub struct ParsedModel {
    pub name: Seq<char>,
    pub phases: Seq<(Seq<char>, Seq<char>, bool)>,
    pub pipeline: Seq<(Seq<char>, Seq<char>, Seq<char>, bool)>,
    pub pipeline_components: Seq<(Seq<char>, Seq<char>, Seq<char>, bool)>,
    pub subphases: Seq<(Seq<char>, Seq<char>, Seq<char>)>,
    pub logs: Seq<LogModel>,
}

impl DeepView for ParsedLogs {
    type V = ParsedModel;

    open spec fn deep_view(&self) -> ParsedModel {
        ParsedModel {
            name: self.name@,
            phases: self.phases.deep_view(),
            pipeline: self.pipeline.deep_view(),
            pipeline_components: self.pipeline_components.deep_view(),
            subphases: self.subphases.deep_view(),
            logs: self.logs.deep_view(),
        }
    }
}

/// One phase of a preset.
pub fn phase_def(name: &str, label: &str, overlap: bool) -> (def: PhaseDef)
    ensures
        def.deep_view() == (name@, label@, overlap),
{
    PhaseDef { name: name.to_string(), label: label.to_string(), overlap }
}

/// The model of a value that may be absent, behind a reference.
pub open spec fn opt_view<T: DeepView>(value: Option<&T>) -> Option<T::V> {
    match value {
        Some(value) => Some(value.deep_view()),
        None => None,
    }
}

/// The keys of a map that may be absent.
pub open spec fn opt_keys<T>(map: Option<Map<Seq<char>, T>>) -> Set<Seq<char>> {
    match map {
        Some(map) => map.dom(),
        None => Set::empty(),
    }
}

/// The value under a key of a map that may be absent.
pub open spec fn opt_at<T>(map: Option<Map<Seq<char>, T>>, key: Seq<char>) -> Option<T> {
    match map {
        Some(map) => if map.dom().contains(key) {
            Some(map[key])
        } else {
            None
        },
        None => None,
    }
}

/// Whether a node has no phase window.
pub open spec fn no_window(phases: Seq<Option<(i64, i64)>>) -> bool {
    forall|i: int| 0 <= i < phases.len() ==> (#[trigger] phases[i]) is None
}

/// The items of a list, copied.
pub fn copy_items(items: &Vec<PipelineItem>) -> (copy: Vec<PipelineItem>)
    ensures
        copy.deep_view() == items.deep_view(),
{
    let mut copy: Vec<PipelineItem> = Vec::new();
    for i in 0..items.len()
        invariant
            copy@.len() == i,
            forall|k: int|
                0 <= k < i ==> (#[trigger] copy@[k]).deep_view() == items@[k].deep_view(),
    {
        copy.push(items[i].copy());
    }
    assert(copy.deep_view() =~= items.deep_view());
    copy
}

/// Whether a node has no phase window.
pub fn all_none(phases: &Vec<Option<(i64, i64)>>) -> (yes: bool)
    ensures
        yes == no_window(phases@),
{
    for i in 0..phases.len()
        invariant
            forall|k: int| 0 <= k < i ==> (#[trigger] phases@[k]) is None,
    {
        if phases[i].is_some() {
            assert(phases@[i as int] is Some);
            return false;
        }
    }
    true
}

/// A named scalar, where it is present.
pub open spec fn opt_entry(name: Seq<char>, value: Option<u64>) -> Seq<(Seq<char>, u64)> {
    match value {
        Some(value) => seq![(name, value)],
        None => seq![],
    }
}

/// Adds a named scalar, where it is present.
pub fn push_entry(meta: &mut Vec<(String, u64)>, name: &str, value: Option<u64>)
    ensures
        final(meta).deep_view() == old(meta).deep_view() + opt_entry(name@, value),
{
    match value {
        Some(value) => meta.push((name.to_string(), value)),
        None => {},
    }
    assert(meta.deep_view() =~= old(meta).deep_view() + opt_entry(name@, value));
}

/// A reading that may be absent, copied.
pub fn copy_reading(reading: &Option<Reading>) -> (copy: Option<Reading>)
    ensures
        copy.deep_view() == reading.deep_view(),
{
    match reading {
        Some(reading) => Some(
            Reading { text: reading.text.clone(), per_second: reading.per_second },
        ),
        None => None,
    }
}

} // verus!
