//! Progress events of a scan and the rule that decides when one is due.

use vstd::prelude::*;

verus! {

/// The phase that a progress event reports on.
#[derive(Clone, Copy, PartialEq, Eq, Debug, Structural)]
pub enum ProgressStage {
    Scanning,
    Fingerprinting,
    Done,
}

/// One progress event. `total` is zero while scanning: the number of files is
/// not known before the walk ends.
#[derive(Clone, Copy, PartialEq, Eq, Debug, Structural)]
pub struct DedupProgress {
    pub stage: ProgressStage,
    pub current: usize,
    pub total: usize,
}

/// While scanning, an event is due every this many recorded files.
pub const SCAN_INTERVAL: usize = 100;

/// While fingerprinting, an event is due once this many candidates have
/// completed since the last event.
pub const FINGERPRINT_INTERVAL: usize = 20;

/// The text under which a stage is shown.
pub open spec fn stage_text(stage: ProgressStage) -> Seq<char> {
    match stage {
        ProgressStage::Scanning => "扫描文件"@,
        ProgressStage::Fingerprinting => "计算文件指纹"@,
        ProgressStage::Done => "完成"@,
    }
}

/// The text under which a stage is shown.
pub fn stage_label(stage: ProgressStage) -> (label: &'static str)
    ensures
        label@ == stage_text(stage),
{
    match stage {
        ProgressStage::Scanning => "扫描文件",
        ProgressStage::Fingerprinting => "计算文件指纹",
        ProgressStage::Done => "完成",
    }
}

/// The event that opens a scan.
pub open spec fn scan_started_event() -> DedupProgress {
    DedupProgress { stage: ProgressStage::Scanning, current: 0, total: 0 }
}

/// The event that closes a scan over `total` candidates.
pub open spec fn scan_done_event(total: usize) -> DedupProgress {
    DedupProgress { stage: ProgressStage::Done, current: total, total }
}

/// The event for `current` of `total` candidates completed.
pub open spec fn fingerprint_event(current: usize, total: usize) -> DedupProgress {
    DedupProgress { stage: ProgressStage::Fingerprinting, current, total }
}

/// Whether a fingerprinting event is due when `current` candidates have
/// completed and the last event reported `last`: progress has advanced, and
/// either by a full interval or to the end.
pub open spec fn report_due(current: usize, last: usize, total: usize) -> bool {
    current > last && (current - last >= FINGERPRINT_INTERVAL || current == total)
}

/// The event that opens a scan.
pub fn scan_started() -> (event: DedupProgress)
    ensures
        event == scan_started_event(),
{
    DedupProgress { stage: ProgressStage::Scanning, current: 0, total: 0 }
}

/// The scanning event for the `file_count`-th recorded file, due at every full
/// interval.
pub fn scan_progress(file_count: usize) -> (event: Option<DedupProgress>)
    ensures
        event == (if file_count % SCAN_INTERVAL == 0 {
            Some(DedupProgress { stage: ProgressStage::Scanning, current: file_count, total: 0 })
        } else {
            None
        }),
{
    if file_count % SCAN_INTERVAL == 0 {
        Some(DedupProgress { stage: ProgressStage::Scanning, current: file_count, total: 0 })
    } else {
        None
    }
}

/// Decides whether a fingerprinting event is due.
pub fn should_report(current: usize, last: usize, total: usize) -> (due: bool)
    ensures
        due == report_due(current, last, total),
{
    current > last && (current - last >= FINGERPRINT_INTERVAL || current == total)
}

/// The fingerprinting event for the `current`-th completion, if one is due.
pub fn fingerprint_progress(current: usize, last: usize, total: usize) -> (event: Option<DedupProgress>)
    ensures
        event == (if report_due(current, last, total) {
            Some(fingerprint_event(current, total))
        } else {
            None
        }),
{
    if should_report(current, last, total) {
        Some(DedupProgress { stage: ProgressStage::Fingerprinting, current, total })
    } else {
        None
    }
}

/// The event that closes a scan over `total` candidates.
pub fn scan_done(total: usize) -> (event: DedupProgress)
    ensures
        event == scan_done_event(total),
{
    DedupProgress { stage: ProgressStage::Done, current: total, total }
}

/// Numerator of the fraction of the work that an event reports as done.
pub open spec fn done_part(event: DedupProgress) -> int {
    match event.stage {
        ProgressStage::Scanning => 0,
        ProgressStage::Fingerprinting => event.current as int,
        ProgressStage::Done => 1,
    }
}

/// Denominator of that fraction.
pub open spec fn whole_part(event: DedupProgress) -> int {
    match event.stage {
        ProgressStage::Scanning => 1,
        ProgressStage::Fingerprinting => event.total as int,
        ProgressStage::Done => 1,
    }
}

/// The fraction of the work that an event reports as done, as numerator and
/// denominator; the percentage is a hundred times their quotient.
pub fn done_fraction(event: DedupProgress) -> (parts: (usize, usize))
    ensures
        parts.0 == done_part(event),
        parts.1 == whole_part(event),
{
    match event.stage {
        ProgressStage::Scanning => (0, 1),
        ProgressStage::Fingerprinting => (event.current, event.total),
        ProgressStage::Done => (1, 1),
    }
}

/// The percentage of `earlier` is at most that of `later`.
pub open spec fn percent_le(earlier: DedupProgress, later: DedupProgress) -> bool {
    done_part(earlier) * whole_part(later) <= done_part(later) * whole_part(earlier)
}

/// Whether `next` may be the event right after `prev` in a scan over `total`
/// candidates: scanning events carry growing file counts, a fingerprinting
/// event is emitted only when one is due against the last reported count, and
/// nothing follows the closing event.
pub open spec fn may_follow(prev: DedupProgress, next: DedupProgress, total: usize) -> bool {
    match next.stage {
        ProgressStage::Scanning => prev.stage is Scanning && next.total == 0 && next.current
            > prev.current,
        ProgressStage::Fingerprinting => {
            &&& next.total == total
            &&& next.current <= total
            &&& match prev.stage {
                ProgressStage::Scanning => report_due(next.current, 0, total),
                ProgressStage::Fingerprinting => report_due(next.current, prev.current, total),
                ProgressStage::Done => false,
            }
        },
        ProgressStage::Done => !(prev.stage is Done) && next == scan_done_event(total),
    }
}

/// The events of a scan over `total` candidates up to some moment, in emission
/// order: the opening event first, every later event one that may follow the
/// event before it.
pub open spec fn is_progress_prefix(events: Seq<DedupProgress>, total: usize) -> bool {
    &&& events.len() >= 1
    &&& events[0] == scan_started_event()
    &&& forall|i: int| 0 <= i < events.len() - 1 ==> may_follow(#[trigger] events[i], events[i + 1], total)
}

/// The events of one completed scan over `total` candidates, in emission order.
pub open spec fn is_progress_log(events: Seq<DedupProgress>, total: usize) -> bool {
    &&& events.len() >= 2
    &&& is_progress_prefix(events, total)
    &&& events.last() == scan_done_event(total)
}

spec fn stage_rank(stage: ProgressStage) -> int {
    match stage {
        ProgressStage::Scanning => 0,
        ProgressStage::Fingerprinting => 1,
        ProgressStage::Done => 2,
    }
}

spec fn event_ok(event: DedupProgress, total: usize) -> bool {
    event.stage is Fingerprinting ==> event.total == total && 0 < event.current <= total
}

spec fn not_before(earlier: DedupProgress, later: DedupProgress) -> bool {
    stage_rank(earlier.stage) < stage_rank(later.stage) || (earlier.stage == later.stage && (
    earlier.stage is Fingerprinting ==> earlier.current <= later.current))
}

proof fn lemma_log_ordered(events: Seq<DedupProgress>, total: usize, i: int, j: int)
    requires
        is_progress_prefix(events, total),
        0 <= i <= j < events.len(),
    ensures
        not_before(events[i], events[j]),
        event_ok(events[i], total),
        event_ok(events[j], total),
    decreases j,
{
    if j == 0 {
    } else if i == j {
        lemma_log_ordered(events, total, i - 1, j - 1);
        assert(may_follow(events[j - 1], events[j], total));
    } else {
        lemma_log_ordered(events, total, i, j - 1);
        assert(may_follow(events[j - 1], events[j], total));
    }
}

/// At every moment of a scan the percentage has never decreased and lies
/// between zero and one hundred.
pub proof fn lemma_progress_never_regresses_so_far(
    events: Seq<DedupProgress>,
    total: usize,
    i: int,
    j: int,
)
    requires
        is_progress_prefix(events, total),
        0 <= i <= j < events.len(),
    ensures
        percent_le(events[i], events[j]),
        0 <= done_part(events[j]) <= whole_part(events[j]),
        whole_part(events[j]) > 0,
{
    lemma_log_ordered(events, total, i, j);
    let a = events[i];
    let b = events[j];
    if a.stage is Fingerprinting && b.stage is Fingerprinting {
        assert(a.current * total <= b.current * total) by (nonlinear_arith)
            requires
                a.current <= b.current,
                total >= 0,
        ;
    }
}

/// Over the events of one scan the percentage never decreases, lies between
/// zero and one hundred, and the last event reports one hundred percent.
pub proof fn lemma_progress_never_regresses(events: Seq<DedupProgress>, total: usize, i: int, j: int)
    requires
        is_progress_log(events, total),
        0 <= i <= j < events.len(),
    ensures
        percent_le(events[i], events[j]),
        0 <= done_part(events[j]) <= whole_part(events[j]),
        whole_part(events[j]) > 0,
        done_part(events.last()) == whole_part(events.last()),
{
    lemma_progress_never_regresses_so_far(events, total, i, j);
}

} // verus!
