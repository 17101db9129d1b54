//! The data model of a duplicate scan and its mathematical views.

use vstd::prelude::*;
use crate::ranking::{Ranked, RankedExec, total};

verus! {

/// One fingerprinted file.
#[derive(Clone, Debug)]
pub struct FileInfo {
    pub path: String,
    pub name: String,
    pub size: u64,
    /// Modification time in seconds since the epoch.
    pub modified: u64,
}

/// The model of a [`FileInfo`].
pub struct FileInfoView {
    pub path: Seq<char>,
    pub name: Seq<char>,
    pub size: u64,
    pub modified: u64,
}

impl View for FileInfo {
    type V = FileInfoView;

    open spec fn view(&self) -> FileInfoView {
        FileInfoView { path: self.path@, name: self.name@, size: self.size, modified: self.modified }
    }
}

/// Files that share both size and fingerprint.
#[derive(Clone, Debug)]
pub struct DuplicateGroup {
    pub hash: String,
    pub size: u64,
    pub files: Vec<FileInfo>,
}

/// The model of a [`DuplicateGroup`].
pub struct DuplicateGroupView {
    pub hash: Seq<char>,
    pub size: u64,
    pub files: Seq<FileInfoView>,
}

/// The models of a sequence of files, position by position.
pub open spec fn file_views(files: Seq<FileInfo>) -> Seq<FileInfoView> {
    Seq::new(files.len(), |i: int| files[i]@)
}

impl View for DuplicateGroup {
    type V = DuplicateGroupView;

    open spec fn view(&self) -> DuplicateGroupView {
        DuplicateGroupView { hash: self.hash@, size: self.size, files: file_views(self.files@) }
    }
}

/// The function that takes a group to its model.
pub open spec fn group_view() -> spec_fn(DuplicateGroup) -> DuplicateGroupView {
    |group: DuplicateGroup| group@
}

/// The models of a sequence of groups, position by position.
pub open spec fn group_views(groups: Seq<DuplicateGroup>) -> Seq<DuplicateGroupView> {
    groups.map_values(group_view())
}

impl Ranked for DuplicateGroupView {
    /// Groups are ranked by the size of their files.
    open spec fn rank(&self) -> u64 {
        self.size
    }
}

impl Ranked for DuplicateGroup {
    /// Groups are ranked by the size of their files.
    open spec fn rank(&self) -> u64 {
        self.size
    }
}

impl RankedExec for DuplicateGroup {
    fn rank_value(&self) -> (rank: u64) {
        self.size
    }
}

/// A fingerprint together with the file it was computed for.
pub struct RecordView {
    pub hash: Seq<char>,
    pub file: FileInfoView,
}

/// The models of a sequence of fingerprinted files, position by position.
pub open spec fn record_views(records: Seq<(String, FileInfo)>) -> Seq<RecordView> {
    Seq::new(records.len(), |i: int| RecordView { hash: records[i].0@, file: records[i].1@ })
}

/// The report of one scan.
#[derive(Clone, Debug)]
pub struct DedupResult {
    pub groups: Vec<DuplicateGroup>,
    pub total_groups: usize,
    pub total_duplicates: usize,
    pub wasted_size: u64,
}

/// The model of a [`DedupResult`].
pub struct DedupResultView {
    pub groups: Seq<DuplicateGroupView>,
    pub total_groups: int,
    pub total_duplicates: int,
    pub wasted_size: int,
}

impl View for DedupResult {
    type V = DedupResultView;

    open spec fn view(&self) -> DedupResultView {
        DedupResultView {
            groups: group_views(self.groups@),
            total_groups: self.total_groups as int,
            total_duplicates: self.total_duplicates as int,
            wasted_size: self.wasted_size as int,
        }
    }
}

/// A group is well formed when it holds at least two files and every file has
/// the group's size.
pub open spec fn group_wf(group: DuplicateGroupView) -> bool {
    &&& group.files.len() >= 2
    &&& forall|i: int| 0 <= i < group.files.len() ==> (#[trigger] group.files[i]).size == group.size
}

/// The files of a group beyond the one copy to keep: `len(files) - 1`.
pub open spec fn extra_files() -> spec_fn(DuplicateGroupView) -> int {
    |group: DuplicateGroupView| group.files.len() - 1
}

/// The bytes that those files occupy: `size * (len(files) - 1)`.
pub open spec fn extra_bytes() -> spec_fn(DuplicateGroupView) -> int {
    |group: DuplicateGroupView| group.size * (group.files.len() - 1)
}

/// Files that could be removed from the groups while keeping one copy of each:
/// the sum over the groups of `len(files) - 1`.
pub open spec fn duplicate_count(groups: Seq<DuplicateGroupView>) -> int {
    total(groups, extra_files())
}

/// Bytes that removing those files would free: the sum over the groups of
/// `size * (len(files) - 1)`.
pub open spec fn wasted_bytes(groups: Seq<DuplicateGroupView>) -> int {
    total(groups, extra_bytes())
}

/// A report is well formed when every group is and the three totals are exactly
/// the number of groups, the duplicate count and the wasted bytes of its groups.
pub open spec fn result_wf(result: DedupResultView) -> bool {
    &&& forall|i: int| 0 <= i < result.groups.len() ==> group_wf(#[trigger] result.groups[i])
    &&& result.total_groups == result.groups.len()
    &&& result.total_duplicates == duplicate_count(result.groups)
    &&& result.wasted_size == wasted_bytes(result.groups)
}

} // verus!
