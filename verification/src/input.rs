//! The input stage: which log files of a run are read, and in what order.

use vstd::prelude::*;

use crate::pattern::{matched, Groups, Pattern};
use crate::sort::{arranged, sort_places, stable_order};
use crate::text::{read_unsigned, to_chars, unsigned_read};

verus! {

/// One worker log file of a run: its node digit, its name, and its text.
pub struct WorkerFile {
    pub digit: u32,
    pub name: String,
    pub text: String,
}

impl DeepView for WorkerFile {
    type V = (u32, Seq<char>, Seq<char>);

    open spec fn deep_view(&self) -> (u32, Seq<char>, Seq<char>) {
        (self.digit, self.name@, self.text@)
    }
}

/// Matches a worker-N.log or per-GPU worker-N-gpuG.log file name, capturing the node digit in the
/// first group and the optional GPU index in the second, and excluding the worker-N-dmon.log
/// telemetry files. Shared by the raw-line extractor and the structured worker-log parser, the two
/// readers that enumerate worker logs, so the file selection stays identical between them.
pub const WORKER_LOG_RE: &'static str = r"^worker-(\d+)(?:-gpu(\d+))?\.log$";

/// The node digit that a match of a file name captured in its first group.
pub open spec fn digit_of(groups: Option<Seq<Option<Seq<char>>>>) -> Option<u32> {
    match groups {
        Some(groups) => if 1 < groups.len() && groups[1] is Some {
            match unsigned_read(groups[1]->0, u32::MAX as int) {
                Some(digit) => Some(digit as u32),
                None => None,
            }
        } else {
            None
        },
        None => None,
    }
}

/// The groups that a match captured, where there was one.
pub open spec fn groups_view(groups: Option<Groups>) -> Option<Seq<Option<Seq<char>>>> {
    match groups {
        Some(groups) => Some(groups@),
        None => None,
    }
}

/// The node digit that a match of a file name captured in its first group.
pub fn node_digit(groups: &Option<Groups>) -> (digit: Option<u32>)
    ensures
        digit == digit_of(groups_view(*groups)),
{
    match groups {
        Some(groups) => if groups.took_part(1) {
            match read_unsigned(to_chars(groups.text(1).as_str()).as_slice(), u32::MAX as u64) {
                Some(digit) => Some(digit as u32),
                None => None,
            }
        } else {
            None
        },
        None => None,
    }
}

/// Those of the first `count` names that a pattern matches with a node digit, each with its digit.
pub open spec fn selected(pattern: Seq<char>, names: Seq<Seq<char>>, count: int) -> Seq<
    (u32, Seq<char>),
>
    decreases count,
{
    if count <= 0 {
        seq![]
    } else {
        let before = selected(pattern, names, count - 1);
        match digit_of(matched(pattern, names[count - 1])) {
            Some(digit) => before.push((digit, names[count - 1])),
            None => before,
        }
    }
}

/// The digits of a list of files, as sort keys.
pub open spec fn digit_keys(files: Seq<(u32, Seq<char>)>) -> Seq<(i64, i64)> {
    files.map_values(|file: (u32, Seq<char>)| (file.0 as i64, 0i64))
}

/// Files ascending by their node digit, those of one digit in the order given.
pub open spec fn by_digit(files: Seq<(u32, Seq<char>)>) -> Seq<(u32, Seq<char>)> {
    arranged(files, stable_order(digit_keys(files)))
}

/// Sorts files ascending by their node digit.
pub fn sort_files(files: &Vec<(u32, String)>) -> (sorted: Vec<(u32, String)>)
    ensures
        sorted.deep_view() == by_digit(files.deep_view()),
{
    let mut keys: Vec<(i64, i64)> = Vec::new();
    for i in 0..files.len()
        invariant
            keys@.len() == i,
            forall|k: int| 0 <= k < i ==> #[trigger] keys@[k] == (files@[k].0 as i64, 0i64),
    {
        keys.push((files[i].0 as i64, 0));
    }
    assert(keys@ =~= digit_keys(files.deep_view()));
    let order: Vec<usize> = sort_places(&keys);
    let mut sorted: Vec<(u32, String)> = Vec::new();
    for i in 0..order.len()
        invariant
            keys@.len() == files@.len(),
            forall|k: int| 0 <= k < order@.len() ==> #[trigger] order@[k] < keys@.len(),
            sorted@.len() == i,
            forall|k: int|
                0 <= k < i ==> (#[trigger] sorted@[k]).deep_view()
                    == files@[order@[k] as int].deep_view(),
    {
        let file: &(u32, String) = &files[order[i]];
        sorted.push((file.0, file.1.clone()));
    }
    assert(sorted.deep_view() =~= by_digit(files.deep_view()));
    sorted
}

/// Picks a directory's per-node files whose name a pattern matches with a node digit in its first
/// capture group, each paired with that digit and sorted ascending by it.
///
/// Shared by the worker-log and telemetry readers, whose node ordering the rest of the document
/// depends on. A name the pattern rejects is skipped.
pub fn worker_files_sorted(names: &Vec<String>, pattern: &Pattern) -> (files: Vec<(u32, String)>)
    ensures
        files.deep_view() == by_digit(
            selected(pattern@, names.deep_view(), names@.len() as int),
        ),
{
    let mut files: Vec<(u32, String)> = Vec::new();
    assert(files.deep_view() =~= seq![]);
    for i in 0..names.len()
        invariant
            files.deep_view() == selected(pattern@, names.deep_view(), i as int),
    {
        assert(names.deep_view()[i as int] == names@[i as int]@);
        let ghost before = files.deep_view();
        match node_digit(&pattern.captures(names[i].as_str())) {
            Some(digit) => {
                files.push((digit, names[i].clone()));
                assert(files.deep_view() =~= before.push((digit, names@[i as int]@)));
            },
            None => {},
        }
    }
    sort_files(&files)
}

} // verus!
