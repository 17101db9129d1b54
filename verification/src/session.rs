//! One scan as a session: the walk and the fingerprinting phase, each handing
//! out the progress events in the order in which they are due.

use vstd::prelude::*;
use crate::buckets::{SizeBuckets, SizedPath, candidates_of, sized_views};
use crate::progress::{
    DedupProgress, ProgressStage, SCAN_INTERVAL, fingerprint_event, fingerprint_progress,
    is_progress_log, is_progress_prefix, may_follow, scan_done, scan_done_event,
    scan_started, scan_started_event,
};
use crate::scan::{ScanError, after_visit, visit_entry};

verus! {

/// The walk of a scan: the files recorded and the events handed out so far.
pub struct WalkSession {
    buckets: SizeBuckets,
    log: Ghost<Seq<DedupProgress>>,
}

/// The fingerprinting phase of a scan: how many candidates have completed, the
/// count last reported, and the events handed out so far.
pub struct FingerprintSession {
    total: usize,
    completed: usize,
    last_reported: usize,
    log: Ghost<Seq<DedupProgress>>,
}

impl WalkSession {
    /// The files recorded so far, in walk order.
    pub closed spec fn files(&self) -> Seq<SizedPath> {
        self.buckets@
    }

    /// The events handed out so far, in order.
    pub closed spec fn events(&self) -> Seq<DedupProgress> {
        self.log@
    }

    /// The session is in order: its events are those of a scan that is still
    /// walking.
    pub closed spec fn wf(&self) -> bool {
        &&& self.buckets.wf()
        &&& is_progress_prefix(self.log@, 0)
        &&& forall|i: int| 0 <= i < self.log@.len() ==> (#[trigger] self.log@[i]).stage is Scanning
        &&& self.log@.last().current <= self.buckets@.len()
    }

    /// While walking, the events are those of a scan so far, whatever the
    /// number of candidates will be.
    pub proof fn lemma_events_so_far(&self, total: usize)
        requires
            self.wf(),
        ensures
            is_progress_prefix(self.events(), total),
    {
        assert forall|i: int| 0 <= i < self.log@.len() - 1 implies may_follow(
            #[trigger] self.log@[i],
            self.log@[i + 1],
            total,
        ) by {
            assert(may_follow(self.log@[i], self.log@[i + 1], 0));
            assert(self.log@[i + 1].stage is Scanning);
        }
    }

    /// Opens a scan: nothing recorded, and the opening event to send.
    pub fn begin() -> (opened: (Self, DedupProgress))
        ensures
            opened.0.wf(),
            opened.0.files() == Seq::<SizedPath>::empty(),
            opened.1 == scan_started_event(),
            opened.0.events() == Seq::<DedupProgress>::empty().push(opened.1),
    {
        let event = scan_started();
        let log: Ghost<Seq<DedupProgress>> = Ghost(Seq::empty().push(event));
        let session = WalkSession { buckets: SizeBuckets::new(), log };
        (session, event)
    }

    /// How many files have been recorded.
    pub fn file_count(&self) -> (count: usize)
        ensures
            count == self.files().len(),
    {
        self.buckets.file_count()
    }

    /// Handles one regular file met by the directory walk.
    ///
    /// A cancelled scan stops at once and records nothing. A file whose size
    /// could not be read, or is zero, is skipped. Any other file is recorded,
    /// and every `SCAN_INTERVAL`-th recorded file yields a scanning event, which
    /// joins the events of the session.
    pub fn visit(&mut self, cancelled: bool, size: Option<u64>, path: String) -> (outcome: Result<
        Option<DedupProgress>,
        ScanError,
    >)
        requires
            old(self).wf(),
        ensures
            final(self).wf(),
            cancelled ==> outcome == Err::<Option<DedupProgress>, ScanError>(ScanError::Cancelled)
                && final(self).files() == old(self).files() && final(self).events() == old(
                self,
            ).events(),
            !cancelled ==> final(self).files() == after_visit(old(self).files(), size, path@),
            !cancelled ==> outcome == Ok::<Option<DedupProgress>, ScanError>(
                if final(self).files().len() > old(self).files().len() && final(self).files().len() % (
                SCAN_INTERVAL as nat) == 0 {
                    Some(
                        DedupProgress {
                            stage: ProgressStage::Scanning,
                            current: final(self).files().len() as usize,
                            total: 0,
                        },
                    )
                } else {
                    None
                },
            ),
            final(self).events() == (match outcome {
                Ok(Some(event)) => old(self).events().push(event),
                _ => old(self).events(),
            }),
    {
        let ghost recorded = self.buckets@.len();
        let outcome = visit_entry(&mut self.buckets, cancelled, size, path);
        match outcome {
            Ok(Some(event)) => {
                let ghost before = self.log@;
                self.log = Ghost(before.push(event));
                assert forall|i: int| 0 <= i < self.log@.len() - 1 implies may_follow(
                    #[trigger] self.log@[i],
                    self.log@[i + 1],
                    0,
                ) by {
                    if i < before.len() - 1 {
                        assert(may_follow(before[i], before[i + 1], 0));
                    } else {
                        assert(before[i].stage is Scanning);
                        assert(before[i] == before.last());
                        assert(self.log@[i + 1] == event);
                        self.buckets.lemma_count_fits();
                        assert(event.current == self.buckets@.len());
                        assert(self.buckets@.len() > recorded);
                        assert(before.last().current <= recorded);
                    }
                }
                assert forall|i: int| 0 <= i < self.log@.len() implies (#[trigger] self.log@[i]).stage is Scanning by {
                    if i < before.len() {
                        assert(before[i].stage is Scanning);
                    }
                }
            },
            _ => {},
        }
        outcome
    }

    /// Ends the walk: hands out the candidates to fingerprint and the session
    /// of the fingerprinting phase over them.
    pub fn begin_fingerprinting(self) -> (next: (FingerprintSession, Vec<(u64, String)>))
        requires
            self.wf(),
        ensures
            next.0.wf(),
            sized_views(next.1@) == candidates_of(self.files()),
            next.0.total() == next.1.len(),
            next.0.completed() == 0,
            next.0.events() == self.events(),
    {
        let candidates = self.buckets.candidates();
        let total = candidates.len();
        proof {
            self.lemma_events_so_far(total);
        }
        let session = FingerprintSession { total, completed: 0, last_reported: 0, log: self.log };
        (session, candidates)
    }
}

impl FingerprintSession {
    /// The number of candidates.
    pub closed spec fn total(&self) -> usize {
        self.total
    }

    /// The number of candidates that have completed.
    pub closed spec fn completed(&self) -> usize {
        self.completed
    }

    /// The events handed out so far, from the opening of the scan on.
    pub closed spec fn events(&self) -> Seq<DedupProgress> {
        self.log@
    }

    /// The session is in order: its events are those of a scan so far, and the
    /// count last reported is that of the last fingerprinting event.
    pub closed spec fn wf(&self) -> bool {
        &&& is_progress_prefix(self.log@, self.total)
        &&& self.last_reported <= self.completed <= self.total
        &&& !(self.log@.last().stage is Done)
        &&& self.last_reported == (if self.log@.last().stage is Fingerprinting {
            self.log@.last().current
        } else {
            0
        })
    }

    /// The events of a session in order are those of a scan so far.
    pub proof fn lemma_events_so_far(&self)
        requires
            self.wf(),
        ensures
            is_progress_prefix(self.events(), self.total()),
    {
    }

    /// How many candidates have completed.
    pub fn completed_count(&self) -> (count: usize)
        ensures
            count == self.completed(),
    {
        self.completed
    }

    /// Counts one more candidate as completed, whether it was fingerprinted or
    /// failed, and hands out the fingerprinting event where one is due against
    /// the count last reported. Once every candidate has completed, nothing
    /// changes any more.
    pub fn complete_one(&mut self) -> (event: Option<DedupProgress>)
        requires
            old(self).wf(),
        ensures
            final(self).wf(),
            final(self).total() == old(self).total(),
            final(self).completed() == (if old(self).completed() < old(self).total() {
                (old(self).completed() + 1) as usize
            } else {
                old(self).completed()
            }),
            final(self).events() == (match event {
                Some(event) => old(self).events().push(event),
                None => old(self).events(),
            }),
            event is Some ==> event->0 == fingerprint_event(final(self).completed(), old(self).total())
                && old(self).completed() < old(self).total(),
            final(self).completed() == final(self).total() && old(self).completed() < old(
                self,
            ).total() ==> event is Some,
    {
        if self.completed >= self.total {
            return None;
        }
        self.completed = self.completed + 1;
        let event = fingerprint_progress(self.completed, self.last_reported, self.total);
        match event {
            Some(event) => {
                let ghost before = self.log@;
                self.last_reported = self.completed;
                self.log = Ghost(before.push(event));
                assert forall|i: int| 0 <= i < self.log@.len() - 1 implies may_follow(
                    #[trigger] self.log@[i],
                    self.log@[i + 1],
                    self.total,
                ) by {
                    if i < before.len() - 1 {
                        assert(may_follow(before[i], before[i + 1], self.total));
                    }
                }
            },
            None => {},
        }
        event
    }

    /// Closes the scan: the closing event, after which the events handed out
    /// are those of one completed scan.
    pub fn done(self) -> (event: DedupProgress)
        requires
            self.wf(),
        ensures
            event == scan_done_event(self.total()),
            is_progress_log(self.events().push(event), self.total()),
    {
        let event = scan_done(self.total);
        proof {
            let before = self.log@;
            let log = before.push(event);
            assert forall|i: int| 0 <= i < log.len() - 1 implies may_follow(
                #[trigger] log[i],
                log[i + 1],
                self.total,
            ) by {
                if i < before.len() - 1 {
                    assert(may_follow(before[i], before[i + 1], self.total));
                }
            }
        }
        event
    }
}

} // verus!
