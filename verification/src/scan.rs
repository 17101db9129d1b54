//! The steps of one duplicate scan around the outside work: recording walked
//! files, turning fingerprint outcomes into records, and concluding with a
//! report or a cancellation.

use vstd::prelude::*;
use vstd::string::StringExecFns;
use crate::buckets::{SizeBuckets, SizedPath, recorded, sized_views};
use crate::dedup::{is_report_of, totals_fit, try_aggregate};
use crate::fingerprint::{calculate_fast_hash, can_fingerprint, fingerprint_text};
use crate::model::{DedupResult, FileInfo, FileInfoView, RecordView, record_views, result_wf};
use crate::progress::{DedupProgress, ProgressStage, SCAN_INTERVAL, scan_progress};
use crate::text::is_part_of;

verus! {

/// Why a scan ended without a report.
#[derive(Clone, Copy, PartialEq, Eq, Debug, Structural)]
pub enum ScanError {
    /// The root of the scan does not exist or is not a directory.
    InvalidRoot,
    /// The user cancelled the scan.
    Cancelled,
    /// A total of the report does not fit its integer type.
    TotalsOverflow,
}

/// The message shown for an error.
pub open spec fn error_text(error: ScanError) -> Seq<char> {
    match error {
        ScanError::InvalidRoot => "路径不存在或不是目录"@,
        ScanError::Cancelled => "操作已取消"@,
        ScanError::TotalsOverflow => "统计结果超出可表示范围"@,
    }
}

impl ScanError {
    /// The message shown for this error.
    pub fn message(&self) -> (text: String)
        ensures
            text@ == error_text(*self),
    {
        match self {
            ScanError::InvalidRoot => String::from_str("路径不存在或不是目录"),
            ScanError::Cancelled => String::from_str("操作已取消"),
            ScanError::TotalsOverflow => String::from_str("统计结果超出可表示范围"),
        }
    }
}

/// Decides before any work begins whether the scan can start: its root must
/// exist and be a directory.
pub fn check_root(exists: bool, is_dir: bool) -> (checked: Result<(), ScanError>)
    ensures
        exists && is_dir ==> checked is Ok,
        !(exists && is_dir) ==> checked is Err && checked->Err_0 == ScanError::InvalidRoot,
{
    if exists && is_dir {
        Ok(())
    } else {
        Err(ScanError::InvalidRoot)
    }
}

/// What the walk holds after visiting one regular file whose size could
/// (`Some`) or could not be read.
pub open spec fn after_visit(files: Seq<SizedPath>, size: Option<u64>, path: Seq<char>) -> Seq<SizedPath> {
    match size {
        Some(size) => recorded(files, size, path),
        None => files,
    }
}

/// Handles one regular file met by the directory walk.
///
/// A cancelled scan stops at once and records nothing. A file whose size could
/// not be read, or is zero, is skipped. Any other file is recorded, and every
/// `SCAN_INTERVAL`-th recorded file yields a scanning event.
pub fn visit_entry(
    buckets: &mut SizeBuckets,
    cancelled: bool,
    size: Option<u64>,
    path: String,
) -> (outcome: Result<Option<DedupProgress>, ScanError>)
    requires
        old(buckets).wf(),
    ensures
        final(buckets).wf(),
        cancelled ==> outcome == Err::<Option<DedupProgress>, ScanError>(ScanError::Cancelled)
            && final(buckets)@ == old(buckets)@,
        !cancelled ==> final(buckets)@ == after_visit(old(buckets)@, size, path@),
        !cancelled ==> outcome == Ok::<Option<DedupProgress>, ScanError>(
            if final(buckets)@.len() > old(buckets)@.len() && final(buckets)@.len() % (
            SCAN_INTERVAL as nat) == 0 {
                Some(
                    DedupProgress {
                        stage: ProgressStage::Scanning,
                        current: final(buckets)@.len() as usize,
                        total: 0,
                    },
                )
            } else {
                None
            },
        ),
{
    if cancelled {
        return Err(ScanError::Cancelled);
    }
    match size {
        Some(size) => {
            if size > 0 {
                buckets.add(size, path);
                Ok(scan_progress(buckets.file_count()))
            } else {
                Ok(None)
            }
        },
        None => Ok(None),
    }
}

/// What fingerprinting one candidate produced.
#[derive(Clone, Debug)]
pub struct Fingerprinted {
    pub hash: String,
    pub name: String,
    pub modified: u64,
}

/// The model of a [`Fingerprinted`].
pub struct FingerprintedView {
    pub hash: Seq<char>,
    pub name: Seq<char>,
    pub modified: u64,
}

impl View for Fingerprinted {
    type V = FingerprintedView;

    open spec fn view(&self) -> FingerprintedView {
        FingerprintedView { hash: self.hash@, name: self.name@, modified: self.modified }
    }
}

/// `std::path::Path::file_name`: the final component of a path, if it has one.
/// Which component that is depends on the platform's separators; on every
/// platform it is a non-empty contiguous part of the path.
#[verifier::external_body]
fn path_file_name(path: &str) -> (name: Option<String>)
    ensures
        name is Some ==> name->0@.len() > 0 && is_part_of(name->0@, path@),
{
    std::path::Path::new(path).file_name().map(|name| name.to_string_lossy().to_string())
}

/// The outcome for a candidate from what the outside work found: the display
/// name defaults to the empty string and the modification time to zero.
pub fn fingerprinted(hash: String, name: Option<String>, modified: Option<u64>) -> (outcome: Fingerprinted)
    ensures
        outcome@.hash == hash@,
        outcome@.name == (match name {
            Some(name) => name@,
            None => Seq::<char>::empty(),
        }),
        outcome@.modified == (match modified {
            Some(seconds) => seconds,
            None => 0,
        }),
{
    let name = match name {
        Some(name) => name,
        None => String::new(),
    };
    let modified = match modified {
        Some(seconds) => seconds,
        None => 0,
    };
    Fingerprinted { hash, name, modified }
}

/// Fingerprints one candidate from its mapped content.
///
/// The display name is the final component of `path` as the platform sees it:
/// a part of the path, or empty where the path has no final component.
pub fn fingerprint_candidate(path: &str, size: u64, data: &[u8], modified: Option<u64>) -> (outcome:
    Fingerprinted)
    requires
        can_fingerprint(data@, size),
    ensures
        outcome@.hash == fingerprint_text(data@, size),
        outcome@.name.len() == 0 || is_part_of(outcome@.name, path@),
        outcome@.modified == (match modified {
            Some(seconds) => seconds,
            None => 0,
        }),
{
    let hash = calculate_fast_hash(data, size);
    fingerprinted(hash, path_file_name(path), modified)
}

/// The models of a sequence of outcomes, position by position.
pub open spec fn outcome_views(outcomes: Seq<Option<Fingerprinted>>) -> Seq<Option<FingerprintedView>> {
    Seq::new(
        outcomes.len(),
        |i: int|
            match outcomes[i] {
                Some(outcome) => Some(outcome@),
                None => None,
            },
    )
}

/// The record of a candidate that was fingerprinted.
pub open spec fn record_of(candidate: SizedPath, outcome: FingerprintedView) -> RecordView {
    RecordView {
        hash: outcome.hash,
        file: FileInfoView {
            path: candidate.path,
            name: outcome.name,
            size: candidate.size,
            modified: outcome.modified,
        },
    }
}

/// The records of a scan: one per candidate whose outcome is present, in
/// candidate order. The outcome of a candidate stands at the candidate's
/// position; a missing or absent outcome drops the candidate.
pub open spec fn records_of(
    candidates: Seq<SizedPath>,
    outcomes: Seq<Option<FingerprintedView>>,
) -> Seq<RecordView>
    decreases candidates.len(),
{
    if candidates.len() == 0 {
        Seq::empty()
    } else {
        let earlier = records_of(candidates.drop_last(), outcomes);
        let i = candidates.len() - 1;
        if i < outcomes.len() && outcomes[i] is Some {
            earlier.push(record_of(candidates.last(), outcomes[i]->0))
        } else {
            earlier
        }
    }
}

/// Joins the candidates with their outcomes into the records to aggregate.
pub fn assemble(candidates: Vec<(u64, String)>, outcomes: Vec<Option<Fingerprinted>>) -> (records: Vec<
    (String, FileInfo),
>)
    ensures
        record_views(records@) == records_of(sized_views(candidates@), outcome_views(outcomes@)),
{
    let ghost cands = sized_views(candidates@);
    let ghost outs = outcome_views(outcomes@);
    let mut outcomes = outcomes;
    let mut records: Vec<(String, FileInfo)> = Vec::new();
    let mut i: usize = 0;
    let count = candidates.len();
    assert(cands.take(0) =~= Seq::<SizedPath>::empty());
    assert(record_views(records@) =~= records_of(cands.take(0), outs));
    for candidate in it: candidates
        invariant
            cands == sized_views(it.seq()),
            cands.len() == count,
            i == it.index(),
            outcomes.len() == outs.len(),
            forall|k: int| i <= k < outs.len() ==> #[trigger] outcome_views(outcomes@)[k] == outs[k],
            record_views(records@) == records_of(cands.take(i as int), outs),
    {
        let ghost before = record_views(records@);
        let ghost done = cands.take(i as int);
        proof {
            assert(cands.take(i + 1).drop_last() =~= done);
            assert(cands.take(i + 1).last() == cands[i as int]);
            assert(i < outs.len() ==> outcome_views(outcomes@)[i as int] == outs[i as int]);
        }
        let ghost old_outcomes = outcomes@;
        assert(i < count);
        let (size, path) = candidate;
        if i < outcomes.len() {
            match outcomes[i].take() {
                Some(outcome) => {
                    let ghost rec = record_of(cands[i as int], outcome@);
                    records.push(
                        (
                            outcome.hash,
                            FileInfo { path, name: outcome.name, size, modified: outcome.modified },
                        ),
                    );
                    assert(record_views(records@) =~= before.push(rec));
                },
                None => {},
            }
            proof {
                assert forall|k: int| i + 1 <= k < outs.len() implies #[trigger] outcome_views(
                    outcomes@,
                )[k] == outs[k] by {
                    assert(outcomes@[k] == old_outcomes[k]);
                    assert(outcome_views(old_outcomes)[k] == outs[k]);
                }
            }
        }
        i += 1;
    }
    assert(cands.take(cands.len() as int) =~= cands);
    records
}

/// Concludes a scan.
///
/// A cancelled scan yields the cancellation error and never a report. Otherwise
/// the report is that of the records of the candidates that were fingerprinted,
/// or an error where a total of that report does not fit its type.
pub fn finish_scan(
    cancelled: bool,
    candidates: Vec<(u64, String)>,
    outcomes: Vec<Option<Fingerprinted>>,
) -> (outcome: Result<DedupResult, ScanError>)
    ensures
        cancelled ==> outcome is Err && outcome->Err_0 == ScanError::Cancelled,
        !cancelled ==> (outcome is Ok <==> totals_fit(
            records_of(sized_views(candidates@), outcome_views(outcomes@)),
        )),
        !cancelled && outcome is Err ==> outcome->Err_0 == ScanError::TotalsOverflow,
        outcome is Ok ==> is_report_of(
            records_of(sized_views(candidates@), outcome_views(outcomes@)),
            outcome->Ok_0@,
        ) && result_wf(outcome->Ok_0@),
{
    if cancelled {
        return Err(ScanError::Cancelled);
    }
    let records = assemble(candidates, outcomes);
    match try_aggregate(records) {
        Some(result) => Ok(result),
        None => Err(ScanError::TotalsOverflow),
    }
}

} // verus!
