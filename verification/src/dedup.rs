//! Aggregation of fingerprinted files into the report of a scan.

use vstd::prelude::*;
use crate::grouping::{
    all_groups, duplicate_groups, files_in, group_key, group_records,
    lemma_duplicate_groups_contains, lemma_groups_hold_every_record, lemma_members_share_size,
    lemma_repeated_hold_no_more, repeated,
};
use crate::model::{
    DedupResult, DedupResultView, DuplicateGroup, DuplicateGroupView, FileInfo, RecordView,
    duplicate_count, extra_bytes, extra_files, group_view, group_views, group_wf, record_views,
    result_wf, wasted_bytes,
};
use crate::ranking::{
    is_stable_ranking, lemma_ranking_keeps_totals, lemma_ranking_of_images,
    lemma_ranking_same_items, lemma_total_monotone, rank_desc, total,
};

verus! {

/// `result` is the report for `records`: its groups are the duplicate groups of
/// the records in presentation order, and its totals are those of its groups.
pub open spec fn is_report_of(records: Seq<RecordView>, result: DedupResultView) -> bool {
    &&& is_stable_ranking(duplicate_groups(records), result.groups)
    &&& result.total_groups == result.groups.len()
    &&& result.total_duplicates == duplicate_count(result.groups)
    &&& result.wasted_size == wasted_bytes(result.groups)
}

/// Whether the wasted bytes of the report for `records` fit the 64 bits that
/// carry them. The other totals always fit.
pub open spec fn totals_fit(records: Seq<RecordView>) -> bool {
    wasted_bytes(duplicate_groups(records)) <= u64::MAX
}

/// There are fewer duplicates than records.
pub proof fn lemma_duplicates_are_fewer_than_records(records: Seq<RecordView>)
    ensures
        duplicate_count(duplicate_groups(records)) <= records.len(),
{
    lemma_groups_hold_every_record(records);
    lemma_repeated_hold_no_more(all_groups(records));
    lemma_total_monotone(duplicate_groups(records), extra_files(), files_in());
}

/// Every duplicate group holds two files or more, all of the group's size.
pub proof fn lemma_duplicate_groups_wf(records: Seq<RecordView>, i: int)
    requires
        0 <= i < duplicate_groups(records).len(),
    ensures
        group_wf(duplicate_groups(records)[i]),
{
    let group = duplicate_groups(records)[i];
    assert(duplicate_groups(records).contains(group));
    lemma_duplicate_groups_contains(records, group);
    assert forall|k: int| 0 <= k < group.files.len() implies (#[trigger] group.files[k]).size
        == group.size by {
        lemma_members_share_size(records, group_key(group), k);
    }
}

/// In the report of a scan every group holds two files or more, and all files
/// of a group have the group's size.
pub proof fn lemma_report_groups_wf(records: Seq<RecordView>, result: DedupResultView, i: int)
    requires
        is_report_of(records, result),
        0 <= i < result.groups.len(),
    ensures
        group_wf(result.groups[i]),
{
    let group = result.groups[i];
    assert(result.groups.contains(group));
    lemma_ranking_same_items(duplicate_groups(records), result.groups, group);
    let j = choose|j: int| 0 <= j < duplicate_groups(records).len() && duplicate_groups(records)[j] == group;
    lemma_duplicate_groups_wf(records, j);
}

fn keep_repeated(groups: Vec<DuplicateGroup>) -> (kept: Vec<DuplicateGroup>)
    ensures
        group_views(kept@) == repeated(group_views(groups@)),
{
    let ghost all = group_views(groups@);
    let mut kept: Vec<DuplicateGroup> = Vec::new();
    assert(all.take(0) =~= Seq::<DuplicateGroupView>::empty());
    assert(group_views(kept@) =~= repeated(all.take(0)));
    for group in it: groups
        invariant
            all == group_views(it.seq()),
            group_views(kept@) == repeated(all.take(it.index() as int)),
    {
        let ghost done = all.take(it.index() as int);
        let ghost before = group_views(kept@);
        assert(all.take(it.index() + 1) =~= done.push(group@));
        assert(done.push(group@).drop_last() =~= done);
        if group.files.len() >= 2 {
            kept.push(group);
            assert(group_views(kept@) =~= before.push(group@));
        }
    }
    assert(all.take(all.len() as int) =~= all);
    kept
}

proof fn lemma_totals_grow(groups: Seq<DuplicateGroupView>, n: int)
    requires
        forall|i: int| 0 <= i < groups.len() ==> group_wf(#[trigger] groups[i]),
        0 <= n <= groups.len(),
    ensures
        0 <= duplicate_count(groups.take(n)) <= duplicate_count(groups),
        0 <= wasted_bytes(groups.take(n)) <= wasted_bytes(groups),
    decreases groups.len() - n,
{
    if n == groups.len() {
        assert(groups.take(n) =~= groups);
        lemma_totals_nonnegative(groups);
    } else {
        lemma_totals_grow(groups, n + 1);
        assert(groups.take(n + 1).drop_last() =~= groups.take(n));
        assert(groups.take(n + 1).last() == groups[n]);
        assert(group_wf(groups[n]));
        lemma_totals_nonnegative(groups.take(n));
        assert(groups[n].size * (groups[n].files.len() - 1) >= 0) by (nonlinear_arith)
            requires
                groups[n].size >= 0,
                groups[n].files.len() - 1 >= 0,
        ;
    }
}

proof fn lemma_totals_nonnegative(groups: Seq<DuplicateGroupView>)
    requires
        forall|i: int| 0 <= i < groups.len() ==> group_wf(#[trigger] groups[i]),
    ensures
        0 <= duplicate_count(groups),
        0 <= wasted_bytes(groups),
    decreases groups.len(),
{
    if groups.len() > 0 {
        assert forall|i: int| 0 <= i < groups.drop_last().len() implies group_wf(
            #[trigger] groups.drop_last()[i],
        ) by {
            assert(groups.drop_last()[i] == groups[i]);
        }
        lemma_totals_nonnegative(groups.drop_last());
        let last = groups.last();
        assert(group_wf(groups[groups.len() - 1]));
        assert(last.size * (last.files.len() - 1) >= 0) by (nonlinear_arith)
            requires
                last.size >= 0,
                last.files.len() - 1 >= 0,
        ;
    }
}

fn summarize(groups: Vec<DuplicateGroup>) -> (report: Option<DedupResult>)
    requires
        forall|i: int| 0 <= i < groups.len() ==> group_wf(#[trigger] group_views(groups@)[i]),
    ensures
        match report {
            Some(result) => result@.groups == group_views(groups@) && result_wf(result@),
            None => duplicate_count(group_views(groups@)) > usize::MAX || wasted_bytes(
                group_views(groups@),
            ) > u64::MAX,
        },
{
    let ghost views = group_views(groups@);
    let mut total_duplicates: usize = 0;
    let mut wasted_size: u64 = 0;
    let mut i: usize = 0;
    assert(views.take(0) =~= Seq::<DuplicateGroupView>::empty());
    while i < groups.len()
        invariant
            i <= groups.len(),
            views == group_views(groups@),
            forall|k: int| 0 <= k < views.len() ==> group_wf(#[trigger] views[k]),
            total_duplicates == duplicate_count(views.take(i as int)),
            wasted_size == wasted_bytes(views.take(i as int)),
        decreases groups.len() - i,
    {
        let ghost next = views.take(i + 1);
        proof {
            assert(next.drop_last() =~= views.take(i as int));
            assert(next.last() == views[i as int]);
            assert(group_wf(views[i as int]));
            assert(views[i as int] == groups@[i as int]@);
            lemma_totals_grow(views, i + 1);
        }
        let extra = groups[i].files.len() - 1;
        let bytes = match groups[i].size.checked_mul(extra as u64) {
            Some(bytes) => bytes,
            None => {
                return None;
            },
        };
        total_duplicates = match total_duplicates.checked_add(extra) {
            Some(sum) => sum,
            None => {
                return None;
            },
        };
        wasted_size = match wasted_size.checked_add(bytes) {
            Some(sum) => sum,
            None => {
                return None;
            },
        };
        i += 1;
    }
    assert(views.take(i as int) =~= views);
    let total_groups = groups.len();
    Some(DedupResult { groups, total_groups, total_duplicates, wasted_size })
}

/// Builds the report of a scan from its fingerprinted files, or nothing where a
/// total does not fit its type.
///
/// Files are duplicates of each other when they agree in fingerprint and in
/// size. Groups are presented by descending size, groups of equal size in order
/// of first appearance; within a group the files keep the order of `records`.
pub fn try_aggregate(records: Vec<(String, FileInfo)>) -> (report: Option<DedupResult>)
    ensures
        report is Some <==> totals_fit(record_views(records@)),
        report is Some ==> is_report_of(record_views(records@), report->0@),
        report is Some ==> result_wf(report->0@),
{
    let ghost recs = record_views(records@);
    proof {
        lemma_duplicates_are_fewer_than_records(recs);
        assert(recs.len() == records.len());
    }
    let all = group_records(records);
    let repeated = keep_repeated(all);
    let ghost unranked = group_views(repeated@);
    let ranked = rank_desc(repeated);
    proof {
        lemma_ranking_of_images(repeated@, ranked@, group_view());
        lemma_ranking_keeps_totals(unranked, group_views(ranked@), extra_files());
        lemma_ranking_keeps_totals(unranked, group_views(ranked@), extra_bytes());
        assert forall|i: int| 0 <= i < ranked.len() implies group_wf(
            #[trigger] group_views(ranked@)[i],
        ) by {
            let group = group_views(ranked@)[i];
            assert(group_views(ranked@).contains(group));
            lemma_ranking_same_items(duplicate_groups(recs), group_views(ranked@), group);
            let j = choose|j: int| 0 <= j < duplicate_groups(recs).len() && duplicate_groups(recs)[j] == group;
            lemma_duplicate_groups_wf(recs, j);
        }
    }
    summarize(ranked)
}

/// Builds the report of a scan from its fingerprinted files.
pub fn aggregate(records: Vec<(String, FileInfo)>) -> (result: DedupResult)
    requires
        totals_fit(record_views(records@)),
    ensures
        is_report_of(record_views(records@), result@),
        result_wf(result@),
{
    try_aggregate(records).unwrap()
}

} // verus!
