//! Verification of an installed tree: which files are to be hashed, and
//! whether what was found on disk matches the manifest.

use crate::manifest::{FileRecord, FileRecordView};
use vstd::prelude::*;

verus! {

/// One file to check: its name in the manifest and the hash it must have.
#[derive(Debug)]
pub struct VerifyTask {
    pub file_name: String,
    pub sha: String,
}

/// The mathematical value of a [`VerifyTask`].
pub struct VerifyTaskView {
    pub file_name: Seq<char>,
    pub sha: Seq<char>,
}

impl View for VerifyTask {
    type V = VerifyTaskView;

    open spec fn view(&self) -> VerifyTaskView {
        VerifyTaskView { file_name: self.file_name@, sha: self.sha@ }
    }
}

impl DeepView for VerifyTask {
    type V = VerifyTaskView;

    open spec fn deep_view(&self) -> VerifyTaskView {
        self@
    }
}

/// What was found on disk for one file.
#[derive(Debug)]
pub enum FileState {
    /// There is no such file.
    Missing,
    /// The file is there but could not be read to its end.
    Unreadable,
    /// The file was read; this is its SHA-256 in lowercase hex.
    Hashed(String),
}

/// The files of a manifest that are to be hashed: every entry that is no
/// directory, in order.
pub open spec fn tasks_of(m: Seq<FileRecordView>) -> Seq<VerifyTaskView>
    decreases m.len(),
{
    if m.len() == 0 {
        Seq::empty()
    } else if m.last().is_directory() {
        tasks_of(m.drop_last())
    } else {
        tasks_of(m.drop_last()).push(
            VerifyTaskView { file_name: m.last().file_name, sha: m.last().sha },
        )
    }
}

/// Whether a file is as the manifest says: it was read and has the hash.
pub open spec fn file_ok(task: VerifyTaskView, state: FileState) -> bool {
    match state {
        FileState::Hashed(hex) => hex@ == task.sha,
        _ => false,
    }
}

/// Whether the tree is as the manifest says: there is a finding for every
/// task, and every file passes.
pub open spec fn tree_ok(tasks: Seq<VerifyTaskView>, states: Seq<FileState>) -> bool {
    &&& states.len() == tasks.len()
    &&& forall|i: int| 0 <= i < tasks.len() ==> file_ok(#[trigger] tasks[i], states[i])
}

/// Lists the files of a manifest that are to be hashed.
pub fn verification_tasks(records: &Vec<FileRecord>) -> (r: Vec<VerifyTask>)
    ensures
        r.deep_view() == tasks_of(records.deep_view()),
{
    let ghost all = records.deep_view();
    let mut tasks: Vec<VerifyTask> = Vec::new();
    let mut i: usize = 0;
    assert(all.take(0) =~= Seq::<FileRecordView>::empty());
    assert(tasks.deep_view() =~= Seq::<VerifyTaskView>::empty());
    while i < records.len()
        invariant
            i <= records.len(),
            all == records.deep_view(),
            tasks.deep_view() == tasks_of(all.take(i as int)),
        decreases records.len() - i,
    {
        let record = &records[i];
        assert(all.take(i + 1).drop_last() =~= all.take(i as int));
        assert(all.take(i + 1).last() == record@);
        let ghost before = tasks.deep_view();
        if !record.is_directory() {
            let task = VerifyTask { file_name: record.file_name.clone(), sha: record.sha.clone() };
            tasks.push(task);
            assert(tasks.deep_view() =~= before.push(
                VerifyTaskView { file_name: record@.file_name, sha: record@.sha },
            ));
        }
        i += 1;
    }
    assert(all.take(records.len() as int) =~= all);
    tasks
}

/// Whether one file is as the manifest says.
pub fn file_passes(task: &VerifyTask, state: &FileState) -> (r: bool)
    ensures
        r == file_ok(task@, *state),
{
    match state {
        FileState::Hashed(hex) => *hex == task.sha,
        _ => false,
    }
}

/// Whether every file is as the manifest says. A single file that is
/// missing, unreadable or of another hash makes the answer `false`, and so
/// does a finding too few or too many.
pub fn tree_passes(tasks: &Vec<VerifyTask>, states: &Vec<FileState>) -> (r: bool)
    ensures
        r == tree_ok(tasks.deep_view(), states@),
{
    if tasks.len() != states.len() {
        return false;
    }
    let mut i: usize = 0;
    while i < tasks.len()
        invariant
            i <= tasks.len(),
            tasks.len() == states.len(),
            forall|j: int| 0 <= j < i ==> file_ok(#[trigger] tasks.deep_view()[j], states@[j]),
        decreases tasks.len() - i,
    {
        assert(tasks.deep_view()[i as int] == tasks@[i as int]@);
        if !file_passes(&tasks[i], &states[i]) {
            return false;
        }
        i += 1;
    }
    true
}

} // verus!
