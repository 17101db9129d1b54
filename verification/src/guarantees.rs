//! What a scan guarantees from the walk to the report.

use vstd::prelude::*;
use crate::buckets::{
    SizedPath, candidates_among, candidates_of, lemma_candidates_among_contains, occurrences,
};
use crate::dedup::{is_report_of, lemma_report_groups_wf};
use vstd::seq_lib::seq_to_set_is_finite;
use vstd::set::axiom_set_remove_len;
use crate::grouping::{
    ContentKey, all_groups, duplicate_groups, files_in, first_seen, group_key, key_of,
    lemma_duplicate_groups_contains, lemma_first_seen_distinct, lemma_repeated_contains, members,
    repeated,
};
use crate::model::{DedupResultView, DuplicateGroupView, FileInfoView, RecordView};
use crate::ranking::{lemma_ranking_keeps_totals, lemma_ranking_same_items};
use crate::scan::{FingerprintedView, record_of, records_of};

verus! {

/// The walked file behind a reported file.
pub open spec fn walked(file: FileInfoView) -> SizedPath {
    SizedPath { size: file.size, path: file.path }
}

/// Every file listed under a content identity is the file of a record with
/// that identity.
pub proof fn lemma_member_is_recorded(records: Seq<RecordView>, key: ContentKey, k: int)
    requires
        0 <= k < members(records, key).len(),
    ensures
        exists|j: int|
            0 <= j < records.len() && key_of(#[trigger] records[j]) == key && records[j].file == members(
                records,
                key,
            )[k],
    decreases records.len(),
{
    let rest = records.drop_last();
    if key_of(records.last()) == key && k == members(rest, key).len() {
        assert(records[records.len() - 1] == records.last());
    } else {
        lemma_member_is_recorded(rest, key, k);
        let j = choose|j: int|
            0 <= j < rest.len() && key_of(#[trigger] rest[j]) == key && rest[j].file == members(rest, key)[k];
        assert(records[j] == rest[j]);
    }
}

/// Every record is the record of a candidate.
pub proof fn lemma_record_is_candidate(
    candidates: Seq<SizedPath>,
    outcomes: Seq<Option<FingerprintedView>>,
    j: int,
)
    requires
        0 <= j < records_of(candidates, outcomes).len(),
    ensures
        candidates.contains(walked(records_of(candidates, outcomes)[j].file)),
    decreases candidates.len(),
{
    let rest = candidates.drop_last();
    let earlier = records_of(rest, outcomes);
    let i = candidates.len() - 1;
    if i < outcomes.len() && outcomes[i] is Some && j == earlier.len() {
        assert(candidates[i] == walked(record_of(candidates.last(), outcomes[i]->0).file));
    } else {
        lemma_record_is_candidate(rest, outcomes, j);
        let c = choose|c: int| 0 <= c < rest.len() && rest[c] == walked(earlier[j].file);
        assert(candidates[c] == rest[c]);
    }
}

/// Every reported file is a candidate: a walked file whose size at least one
/// other walked file shares. A file that is unique in its size is neither
/// fingerprinted nor reported.
pub proof fn lemma_reported_files_are_candidates(
    files: Seq<SizedPath>,
    outcomes: Seq<Option<FingerprintedView>>,
    result: DedupResultView,
    i: int,
    k: int,
)
    requires
        is_report_of(records_of(candidates_of(files), outcomes), result),
        0 <= i < result.groups.len(),
        0 <= k < result.groups[i].files.len(),
    ensures
        candidates_of(files).contains(walked(result.groups[i].files[k])),
        files.contains(walked(result.groups[i].files[k])),
        occurrences(files, result.groups[i].files[k].size) >= 2,
{
    let records = records_of(candidates_of(files), outcomes);
    let group = result.groups[i];
    assert(result.groups.contains(group));
    lemma_ranking_same_items(duplicate_groups(records), result.groups, group);
    lemma_duplicate_groups_contains(records, group);
    lemma_member_is_recorded(records, group_key(group), k);
    let j = choose|j: int|
        0 <= j < records.len() && key_of(#[trigger] records[j]) == group_key(group) && records[j].file
            == members(records, group_key(group))[k];
    lemma_record_is_candidate(candidates_of(files), outcomes, j);
    lemma_candidates_among_contains(files, files, walked(group.files[k]));
}

/// Whether the report holds a group of the given content identity.
pub open spec fn reports_identity(result: DedupResultView, key: ContentKey) -> bool {
    exists|i: int| 0 <= i < result.groups.len() && group_key(#[trigger] result.groups[i]) == key
}

/// A content identity is reported exactly when two records or more carry it.
pub proof fn lemma_reported_iff_repeated(records: Seq<RecordView>, result: DedupResultView, key: ContentKey)
    requires
        is_report_of(records, result),
    ensures
        reports_identity(result, key) <==> members(records, key).len() >= 2,
{
    let expected = DuplicateGroupView { hash: key.hash, size: key.size, files: members(records, key) };
    if reports_identity(result, key) {
        let i = choose|i: int| 0 <= i < result.groups.len() && group_key(#[trigger] result.groups[i]) == key;
        let group = result.groups[i];
        assert(result.groups.contains(group));
        lemma_ranking_same_items(duplicate_groups(records), result.groups, group);
        lemma_duplicate_groups_contains(records, group);
    }
    if members(records, key).len() >= 2 {
        assert(group_key(expected) == key);
        lemma_duplicate_groups_contains(records, expected);
        lemma_ranking_same_items(duplicate_groups(records), result.groups, expected);
        let i = choose|i: int| 0 <= i < result.groups.len() && result.groups[i] == expected;
        assert(group_key(result.groups[i]) == key);
    }
}

/// The files whose path has not been deleted, in order.
pub open spec fn surviving(files: Seq<FileInfoView>, deleted: Set<Seq<char>>) -> Seq<FileInfoView>
    decreases files.len(),
{
    if files.len() == 0 {
        Seq::empty()
    } else if deleted.contains(files.last().path) {
        surviving(files.drop_last(), deleted)
    } else {
        surviving(files.drop_last(), deleted).push(files.last())
    }
}

/// The records whose file has not been deleted, in order.
pub open spec fn surviving_records(records: Seq<RecordView>, deleted: Set<Seq<char>>) -> Seq<RecordView>
    decreases records.len(),
{
    if records.len() == 0 {
        Seq::empty()
    } else if deleted.contains(records.last().file.path) {
        surviving_records(records.drop_last(), deleted)
    } else {
        surviving_records(records.drop_last(), deleted).push(records.last())
    }
}

/// Whether every file of the group but the first has been deleted.
pub open spec fn duplicates_deleted(group: DuplicateGroupView, deleted: Set<Seq<char>>) -> bool {
    forall|k: int| 1 <= k < group.files.len() ==> deleted.contains((#[trigger] group.files[k]).path)
}

proof fn lemma_surviving_members(records: Seq<RecordView>, deleted: Set<Seq<char>>, key: ContentKey)
    ensures
        members(surviving_records(records, deleted), key) == surviving(members(records, key), deleted),
    decreases records.len(),
{
    if records.len() > 0 {
        let rest = records.drop_last();
        let last = records.last();
        lemma_surviving_members(rest, deleted, key);
        if !deleted.contains(last.file.path) {
            assert(surviving_records(rest, deleted).push(last).drop_last() =~= surviving_records(rest, deleted));
        }
        if key_of(last) == key {
            assert(members(rest, key).push(last.file).drop_last() =~= members(rest, key));
        }
    }
}

proof fn lemma_one_survivor(files: Seq<FileInfoView>, deleted: Set<Seq<char>>)
    requires
        forall|k: int| 1 <= k < files.len() ==> deleted.contains((#[trigger] files[k]).path),
    ensures
        surviving(files, deleted).len() <= 1,
    decreases files.len(),
{
    if files.len() > 1 {
        assert(deleted.contains(files[files.len() - 1].path));
        assert forall|k: int| 1 <= k < files.drop_last().len() implies deleted.contains(
            (#[trigger] files.drop_last()[k]).path,
        ) by {
            assert(files.drop_last()[k] == files[k]);
        }
        lemma_one_survivor(files.drop_last(), deleted);
    } else if files.len() == 1 {
        assert(files.drop_last().len() == 0);
        assert(surviving(files.drop_last(), deleted) =~= Seq::<FileInfoView>::empty());
    }
}

/// Once the duplicates of a reported group are deleted, keeping its first file,
/// the report over the records that remain holds no group of that content
/// identity.
pub proof fn lemma_no_group_once_duplicates_are_deleted(
    records: Seq<RecordView>,
    result: DedupResultView,
    i: int,
    deleted: Set<Seq<char>>,
    again: DedupResultView,
)
    requires
        is_report_of(records, result),
        0 <= i < result.groups.len(),
        duplicates_deleted(result.groups[i], deleted),
        is_report_of(surviving_records(records, deleted), again),
    ensures
        !reports_identity(again, group_key(result.groups[i])),
{
    let group = result.groups[i];
    let key = group_key(group);
    assert(result.groups.contains(group));
    lemma_ranking_same_items(duplicate_groups(records), result.groups, group);
    lemma_duplicate_groups_contains(records, group);
    lemma_surviving_members(records, deleted, key);
    lemma_one_survivor(members(records, key), deleted);
    lemma_reported_iff_repeated(surviving_records(records, deleted), again, key);
}

/// The walked files whose path has not been deleted, in order.
pub open spec fn surviving_files(files: Seq<SizedPath>, deleted: Set<Seq<char>>) -> Seq<SizedPath>
    decreases files.len(),
{
    if files.len() == 0 {
        Seq::empty()
    } else if deleted.contains(files.last().path) {
        surviving_files(files.drop_last(), deleted)
    } else {
        surviving_files(files.drop_last(), deleted).push(files.last())
    }
}

/// The outcomes for the candidates where `fingerprint` tells, for each walked
/// file, what fingerprinting it yields.
pub open spec fn outcomes_by(
    candidates: Seq<SizedPath>,
    fingerprint: spec_fn(SizedPath) -> Option<FingerprintedView>,
) -> Seq<Option<FingerprintedView>> {
    Seq::new(candidates.len(), |i: int| fingerprint(candidates[i]))
}

/// The records of a whole scan over the walked files.
pub open spec fn scan_records(
    files: Seq<SizedPath>,
    fingerprint: spec_fn(SizedPath) -> Option<FingerprintedView>,
) -> Seq<RecordView> {
    records_of(candidates_of(files), outcomes_by(candidates_of(files), fingerprint))
}

spec fn records_by(
    candidates: Seq<SizedPath>,
    fingerprint: spec_fn(SizedPath) -> Option<FingerprintedView>,
) -> Seq<RecordView>
    decreases candidates.len(),
{
    if candidates.len() == 0 {
        Seq::empty()
    } else {
        let earlier = records_by(candidates.drop_last(), fingerprint);
        match fingerprint(candidates.last()) {
            Some(outcome) => earlier.push(record_of(candidates.last(), outcome)),
            None => earlier,
        }
    }
}

spec fn lands_in(
    file: SizedPath,
    whole: Seq<SizedPath>,
    fingerprint: spec_fn(SizedPath) -> Option<FingerprintedView>,
    key: ContentKey,
) -> bool {
    &&& occurrences(whole, file.size) >= 2
    &&& fingerprint(file) is Some
    &&& key_of(record_of(file, fingerprint(file)->0)) == key
}

spec fn scanned_members(
    part: Seq<SizedPath>,
    whole: Seq<SizedPath>,
    fingerprint: spec_fn(SizedPath) -> Option<FingerprintedView>,
    key: ContentKey,
) -> Seq<FileInfoView>
    decreases part.len(),
{
    if part.len() == 0 {
        Seq::empty()
    } else {
        let earlier = scanned_members(part.drop_last(), whole, fingerprint, key);
        if lands_in(part.last(), whole, fingerprint, key) {
            earlier.push(record_of(part.last(), fingerprint(part.last())->0).file)
        } else {
            earlier
        }
    }
}

proof fn lemma_records_by(
    candidates: Seq<SizedPath>,
    fingerprint: spec_fn(SizedPath) -> Option<FingerprintedView>,
    n: int,
)
    requires
        0 <= n <= candidates.len(),
    ensures
        records_of(candidates.take(n), outcomes_by(candidates, fingerprint)) == records_by(
            candidates.take(n),
            fingerprint,
        ),
    decreases n,
{
    if n > 0 {
        lemma_records_by(candidates, fingerprint, n - 1);
        assert(candidates.take(n).drop_last() =~= candidates.take(n - 1));
        assert(candidates.take(n).last() == candidates[n - 1]);
        assert(outcomes_by(candidates, fingerprint)[n - 1] == fingerprint(candidates[n - 1]));
    }
}

proof fn lemma_scanned_members(
    part: Seq<SizedPath>,
    whole: Seq<SizedPath>,
    fingerprint: spec_fn(SizedPath) -> Option<FingerprintedView>,
    key: ContentKey,
)
    ensures
        members(records_by(candidates_among(part, whole), fingerprint), key) == scanned_members(
            part,
            whole,
            fingerprint,
            key,
        ),
    decreases part.len(),
{
    if part.len() > 0 {
        let rest = part.drop_last();
        let last = part.last();
        lemma_scanned_members(rest, whole, fingerprint, key);
        if occurrences(whole, last.size) >= 2 {
            let kept = candidates_among(rest, whole);
            assert(kept.push(last).drop_last() =~= kept);
            match fingerprint(last) {
                Some(outcome) => {
                    let earlier = records_by(kept, fingerprint);
                    assert(earlier.push(record_of(last, outcome)).drop_last() =~= earlier);
                },
                None => {},
            }
        }
    }
}

proof fn lemma_members_of_scan(
    files: Seq<SizedPath>,
    fingerprint: spec_fn(SizedPath) -> Option<FingerprintedView>,
    key: ContentKey,
)
    ensures
        members(scan_records(files, fingerprint), key) == scanned_members(files, files, fingerprint, key),
{
    let candidates = candidates_of(files);
    lemma_records_by(candidates, fingerprint, candidates.len() as int);
    assert(candidates.take(candidates.len() as int) =~= candidates);
    lemma_scanned_members(files, files, fingerprint, key);
}

proof fn lemma_fewer_after_deletion(files: Seq<SizedPath>, deleted: Set<Seq<char>>, size: u64)
    ensures
        occurrences(surviving_files(files, deleted), size) <= occurrences(files, size),
    decreases files.len(),
{
    if files.len() > 0 {
        lemma_fewer_after_deletion(files.drop_last(), deleted, size);
        if !deleted.contains(files.last().path) {
            assert(surviving_files(files.drop_last(), deleted).push(files.last()).drop_last()
                =~= surviving_files(files.drop_last(), deleted));
        }
    }
}

proof fn lemma_rescan_lands_no_more(
    part: Seq<SizedPath>,
    whole: Seq<SizedPath>,
    deleted: Set<Seq<char>>,
    fingerprint: spec_fn(SizedPath) -> Option<FingerprintedView>,
    key: ContentKey,
)
    ensures
        scanned_members(
            surviving_files(part, deleted),
            surviving_files(whole, deleted),
            fingerprint,
            key,
        ).len() <= surviving(scanned_members(part, whole, fingerprint, key), deleted).len(),
    decreases part.len(),
{
    if part.len() > 0 {
        let rest = part.drop_last();
        let last = part.last();
        lemma_rescan_lands_no_more(rest, whole, deleted, fingerprint, key);
        lemma_fewer_after_deletion(whole, deleted, last.size);
        let before = scanned_members(rest, whole, fingerprint, key);
        if lands_in(last, whole, fingerprint, key) {
            let file = record_of(last, fingerprint(last)->0).file;
            assert(file.path == last.path);
            assert(before.push(file).drop_last() =~= before);
        }
        if !deleted.contains(last.path) {
            let kept = surviving_files(rest, deleted);
            assert(kept.push(last).drop_last() =~= kept);
        }
    }
}

proof fn lemma_record_by_its_file(
    candidates: Seq<SizedPath>,
    fingerprint: spec_fn(SizedPath) -> Option<FingerprintedView>,
    j: int,
)
    requires
        0 <= j < records_by(candidates, fingerprint).len(),
    ensures
        fingerprint(walked(records_by(candidates, fingerprint)[j].file)) is Some,
        records_by(candidates, fingerprint)[j] == record_of(
            walked(records_by(candidates, fingerprint)[j].file),
            fingerprint(walked(records_by(candidates, fingerprint)[j].file))->0,
        ),
        candidates.contains(walked(records_by(candidates, fingerprint)[j].file)),
    decreases candidates.len(),
{
    let rest = candidates.drop_last();
    let earlier = records_by(rest, fingerprint);
    if fingerprint(candidates.last()) is Some && j == earlier.len() {
        assert(walked(record_of(candidates.last(), fingerprint(candidates.last())->0).file)
            == candidates.last());
        assert(candidates[candidates.len() - 1] == candidates.last());
    } else {
        lemma_record_by_its_file(rest, fingerprint, j);
        let c = choose|c: int| 0 <= c < rest.len() && rest[c] == walked(earlier[j].file);
        assert(candidates[c] == rest[c]);
    }
}

/// The group in which a file is reported is decided by the walked file and its
/// fingerprint: a reported file was fingerprinted, and its group has the
/// content identity of its record.
pub proof fn lemma_reported_file_identity(
    files: Seq<SizedPath>,
    fingerprint: spec_fn(SizedPath) -> Option<FingerprintedView>,
    result: DedupResultView,
    i: int,
    k: int,
)
    requires
        is_report_of(scan_records(files, fingerprint), result),
        0 <= i < result.groups.len(),
        0 <= k < result.groups[i].files.len(),
    ensures
        fingerprint(walked(result.groups[i].files[k])) is Some,
        group_key(result.groups[i]) == key_of(
            record_of(
                walked(result.groups[i].files[k]),
                fingerprint(walked(result.groups[i].files[k]))->0,
            ),
        ),
        candidates_of(files).contains(walked(result.groups[i].files[k])),
{
    let records = scan_records(files, fingerprint);
    let candidates = candidates_of(files);
    let group = result.groups[i];
    assert(result.groups.contains(group));
    lemma_ranking_same_items(duplicate_groups(records), result.groups, group);
    lemma_duplicate_groups_contains(records, group);
    lemma_member_is_recorded(records, group_key(group), k);
    let j = choose|j: int|
        0 <= j < records.len() && key_of(#[trigger] records[j]) == group_key(group) && records[j].file
            == members(records, group_key(group))[k];
    lemma_records_by(candidates, fingerprint, candidates.len() as int);
    assert(candidates.take(candidates.len() as int) =~= candidates);
    lemma_record_by_its_file(candidates, fingerprint, j);
}

/// Once the duplicates of a reported group are deleted from the directory,
/// keeping its first file, a new scan of the same directory reports the kept
/// file in no group.
pub proof fn lemma_kept_file_is_in_no_group(
    files: Seq<SizedPath>,
    fingerprint: spec_fn(SizedPath) -> Option<FingerprintedView>,
    result: DedupResultView,
    i: int,
    deleted: Set<Seq<char>>,
    again: DedupResultView,
    h: int,
    k: int,
)
    requires
        is_report_of(scan_records(files, fingerprint), result),
        0 <= i < result.groups.len(),
        duplicates_deleted(result.groups[i], deleted),
        is_report_of(scan_records(surviving_files(files, deleted), fingerprint), again),
        0 <= h < again.groups.len(),
        0 <= k < again.groups[h].files.len(),
    ensures
        result.groups[i].files.len() >= 2,
        walked(again.groups[h].files[k]) != walked(result.groups[i].files[0]),
{
    lemma_report_groups_wf(scan_records(files, fingerprint), result, i);
    lemma_rescan_after_deleting_duplicates(files, fingerprint, result, i, deleted, again);
    lemma_reported_file_identity(files, fingerprint, result, i, 0);
    lemma_reported_file_identity(surviving_files(files, deleted), fingerprint, again, h, k);
    if walked(again.groups[h].files[k]) == walked(result.groups[i].files[0]) {
        assert(group_key(again.groups[h]) == group_key(result.groups[i]));
    }
}

/// Once the duplicates of a reported group are deleted from the directory,
/// keeping its first file, and nothing else has changed, a new scan of the
/// same directory reports no group of that content identity.
pub proof fn lemma_rescan_after_deleting_duplicates(
    files: Seq<SizedPath>,
    fingerprint: spec_fn(SizedPath) -> Option<FingerprintedView>,
    result: DedupResultView,
    i: int,
    deleted: Set<Seq<char>>,
    again: DedupResultView,
)
    requires
        is_report_of(scan_records(files, fingerprint), result),
        0 <= i < result.groups.len(),
        duplicates_deleted(result.groups[i], deleted),
        is_report_of(scan_records(surviving_files(files, deleted), fingerprint), again),
    ensures
        !reports_identity(again, group_key(result.groups[i])),
{
    lemma_rescan_keeps_one_at_most(files, fingerprint, result, i, deleted);
    lemma_reported_iff_repeated(
        scan_records(surviving_files(files, deleted), fingerprint),
        again,
        group_key(result.groups[i]),
    );
}

proof fn lemma_rescan_keeps_one_at_most(
    files: Seq<SizedPath>,
    fingerprint: spec_fn(SizedPath) -> Option<FingerprintedView>,
    result: DedupResultView,
    i: int,
    deleted: Set<Seq<char>>,
)
    requires
        is_report_of(scan_records(files, fingerprint), result),
        0 <= i < result.groups.len(),
        duplicates_deleted(result.groups[i], deleted),
    ensures
        members(
            scan_records(surviving_files(files, deleted), fingerprint),
            group_key(result.groups[i]),
        ).len() <= 1,
        members(scan_records(files, fingerprint), group_key(result.groups[i])).len() >= 2,
{
    let records = scan_records(files, fingerprint);
    let group = result.groups[i];
    let key = group_key(group);
    assert(result.groups.contains(group));
    lemma_ranking_same_items(duplicate_groups(records), result.groups, group);
    lemma_duplicate_groups_contains(records, group);
    lemma_one_survivor(members(records, key), deleted);
    lemma_members_of_scan(files, fingerprint, key);
    lemma_rescan_lands_no_more(files, files, deleted, fingerprint, key);
    lemma_members_of_scan(surviving_files(files, deleted), fingerprint, key);
}

/// No two walked files have the same path.
pub open spec fn distinct_paths(files: Seq<SizedPath>) -> bool {
    forall|a: int, b: int| 0 <= a < b < files.len() ==> files[a].path != files[b].path
}

/// Whether nothing but duplicates of the group has been deleted: every deleted
/// path is that of a file of the group other than the first.
pub open spec fn only_duplicates_deleted(group: DuplicateGroupView, deleted: Set<Seq<char>>) -> bool {
    forall|path: Seq<char>|
        deleted.contains(path) ==> exists|k: int|
            1 <= k < group.files.len() && (#[trigger] group.files[k]).path == path
}

/// The content identities of the groups, position by position.
pub open spec fn group_keys(groups: Seq<DuplicateGroupView>) -> Seq<ContentKey> {
    Seq::new(groups.len(), |i: int| group_key(groups[i]))
}

proof fn lemma_repeated_keys_distinct(groups: Seq<DuplicateGroupView>)
    requires
        group_keys(groups).no_duplicates(),
    ensures
        group_keys(repeated(groups)).no_duplicates(),
    decreases groups.len(),
{
    if groups.len() > 0 {
        let rest = groups.drop_last();
        let last = groups.last();
        assert forall|a: int, b: int| 0 <= a < group_keys(rest).len() && 0 <= b < group_keys(rest).len() && a
            != b implies group_keys(rest)[a] != group_keys(rest)[b] by {
            assert(group_keys(groups)[a] != group_keys(groups)[b]);
        }
        lemma_repeated_keys_distinct(rest);
        if last.files.len() >= 2 {
            let kept = repeated(rest);
            let keys = group_keys(kept.push(last));
            assert forall|a: int, b: int| 0 <= a < keys.len() && 0 <= b < keys.len() && a != b implies keys[a]
                != keys[b] by {
                if a < kept.len() && b < kept.len() {
                    assert(group_keys(kept)[a] != group_keys(kept)[b]);
                } else {
                    let inner = if a < kept.len() {
                        a
                    } else {
                        b
                    };
                    assert(kept.contains(kept[inner]));
                    lemma_repeated_contains(rest, kept[inner]);
                    let at = choose|at: int| 0 <= at < rest.len() && rest[at] == kept[inner];
                    assert(group_keys(groups)[at] != group_keys(groups)[groups.len() - 1]);
                }
            }
        }
    }
}

proof fn lemma_duplicate_keys(records: Seq<RecordView>)
    ensures
        group_keys(duplicate_groups(records)).no_duplicates(),
        group_keys(duplicate_groups(records)).len() == duplicate_groups(records).len(),
        forall|key: ContentKey|
            group_keys(duplicate_groups(records)).contains(key) <==> #[trigger] members(records, key).len()
                >= 2,
{
    let groups = duplicate_groups(records);
    lemma_first_seen_distinct(records);
    assert(group_keys(all_groups(records)) =~= first_seen(records));
    lemma_repeated_keys_distinct(all_groups(records));
    assert forall|key: ContentKey|
        group_keys(groups).contains(key) <==> #[trigger] members(records, key).len() >= 2 by {
        let expected = DuplicateGroupView { hash: key.hash, size: key.size, files: members(records, key) };
        if group_keys(groups).contains(key) {
            let at = choose|at: int| 0 <= at < group_keys(groups).len() && group_keys(groups)[at] == key;
            assert(groups.contains(groups[at]));
            lemma_duplicate_groups_contains(records, groups[at]);
        }
        if members(records, key).len() >= 2 {
            assert(group_key(expected) == key);
            lemma_duplicate_groups_contains(records, expected);
            let at = choose|at: int| 0 <= at < groups.len() && groups[at] == expected;
            assert(group_keys(groups)[at] == key);
        }
    }
}

proof fn lemma_surviving_no_more(files: Seq<FileInfoView>, deleted: Set<Seq<char>>)
    ensures
        surviving(files, deleted).len() <= files.len(),
    decreases files.len(),
{
    if files.len() > 0 {
        lemma_surviving_no_more(files.drop_last(), deleted);
    }
}

spec fn spared(
    part: Seq<SizedPath>,
    whole: Seq<SizedPath>,
    deleted: Set<Seq<char>>,
    fingerprint: spec_fn(SizedPath) -> Option<FingerprintedView>,
    key: ContentKey,
) -> bool {
    forall|at: int|
        0 <= at < part.len() && lands_in(#[trigger] part[at], whole, fingerprint, key) ==> !deleted.contains(
            part[at].path,
        )
}

proof fn lemma_spared_rest(
    part: Seq<SizedPath>,
    whole: Seq<SizedPath>,
    deleted: Set<Seq<char>>,
    fingerprint: spec_fn(SizedPath) -> Option<FingerprintedView>,
    key: ContentKey,
)
    requires
        spared(part, whole, deleted, fingerprint, key),
        part.len() > 0,
    ensures
        spared(part.drop_last(), whole, deleted, fingerprint, key),
        lands_in(part.last(), whole, fingerprint, key) ==> !deleted.contains(part.last().path),
{
    assert forall|at: int|
        0 <= at < part.drop_last().len() && lands_in(
            #[trigger] part.drop_last()[at],
            whole,
            fingerprint,
            key,
        ) implies !deleted.contains(part.drop_last()[at].path) by {
        assert(part.drop_last()[at] == part[at]);
    }
    assert(part.last() == part[part.len() - 1]);
}

proof fn lemma_survivors_counted(
    part: Seq<SizedPath>,
    whole: Seq<SizedPath>,
    deleted: Set<Seq<char>>,
    fingerprint: spec_fn(SizedPath) -> Option<FingerprintedView>,
    key: ContentKey,
)
    requires
        spared(part, whole, deleted, fingerprint, key),
    ensures
        occurrences(surviving_files(part, deleted), key.size) >= scanned_members(
            part,
            whole,
            fingerprint,
            key,
        ).len(),
    decreases part.len(),
{
    if part.len() > 0 {
        let rest = part.drop_last();
        let last = part.last();
        lemma_spared_rest(part, whole, deleted, fingerprint, key);
        lemma_survivors_counted(rest, whole, deleted, fingerprint, key);
        if !deleted.contains(last.path) {
            let kept = surviving_files(rest, deleted);
            assert(kept.push(last).drop_last() =~= kept);
        }
    }
}

proof fn lemma_untouched_members(
    part: Seq<SizedPath>,
    whole: Seq<SizedPath>,
    deleted: Set<Seq<char>>,
    fingerprint: spec_fn(SizedPath) -> Option<FingerprintedView>,
    key: ContentKey,
)
    requires
        spared(part, whole, deleted, fingerprint, key),
        occurrences(surviving_files(whole, deleted), key.size) >= 2,
    ensures
        scanned_members(
            surviving_files(part, deleted),
            surviving_files(whole, deleted),
            fingerprint,
            key,
        ) == scanned_members(part, whole, fingerprint, key),
    decreases part.len(),
{
    if part.len() > 0 {
        let rest = part.drop_last();
        let last = part.last();
        lemma_spared_rest(part, whole, deleted, fingerprint, key);
        lemma_untouched_members(rest, whole, deleted, fingerprint, key);
        lemma_fewer_after_deletion(whole, deleted, last.size);
        if !deleted.contains(last.path) {
            let kept = surviving_files(rest, deleted);
            assert(kept.push(last).drop_last() =~= kept);
        }
    }
}

proof fn lemma_deleted_file_is_duplicate(
    files: Seq<SizedPath>,
    fingerprint: spec_fn(SizedPath) -> Option<FingerprintedView>,
    result: DedupResultView,
    i: int,
    deleted: Set<Seq<char>>,
    at: int,
)
    requires
        is_report_of(scan_records(files, fingerprint), result),
        0 <= i < result.groups.len(),
        distinct_paths(files),
        only_duplicates_deleted(result.groups[i], deleted),
        0 <= at < files.len(),
        deleted.contains(files[at].path),
    ensures
        lands_in(files[at], files, fingerprint, group_key(result.groups[i])),
{
    let group = result.groups[i];
    let k = choose|k: int| 1 <= k < group.files.len() && (#[trigger] group.files[k]).path == files[at].path;
    lemma_reported_file_identity(files, fingerprint, result, i, k);
    let file = walked(group.files[k]);
    lemma_candidates_among_contains(files, files, file);
    let b = choose|b: int| 0 <= b < files.len() && files[b] == file;
    if at < b {
        assert(files[at].path != files[b].path);
    }
    if b < at {
        assert(files[b].path != files[at].path);
    }
}

proof fn lemma_other_identities_survive(
    files: Seq<SizedPath>,
    fingerprint: spec_fn(SizedPath) -> Option<FingerprintedView>,
    result: DedupResultView,
    i: int,
    deleted: Set<Seq<char>>,
    key: ContentKey,
)
    requires
        is_report_of(scan_records(files, fingerprint), result),
        0 <= i < result.groups.len(),
        distinct_paths(files),
        duplicates_deleted(result.groups[i], deleted),
        only_duplicates_deleted(result.groups[i], deleted),
    ensures
        members(scan_records(surviving_files(files, deleted), fingerprint), key).len() >= 2 <==> key
            != group_key(result.groups[i]) && members(scan_records(files, fingerprint), key).len() >= 2,
{
    let after = surviving_files(files, deleted);
    lemma_rescan_keeps_one_at_most(files, fingerprint, result, i, deleted);
    lemma_members_of_scan(files, fingerprint, key);
    lemma_members_of_scan(after, fingerprint, key);
    lemma_rescan_lands_no_more(files, files, deleted, fingerprint, key);
    lemma_surviving_no_more(scanned_members(files, files, fingerprint, key), deleted);
    if key != group_key(result.groups[i]) && members(scan_records(files, fingerprint), key).len() >= 2 {
        assert forall|at: int|
            0 <= at < files.len() && lands_in(#[trigger] files[at], files, fingerprint, key) implies !deleted.contains(
            files[at].path,
        ) by {
            if deleted.contains(files[at].path) {
                lemma_deleted_file_is_duplicate(files, fingerprint, result, i, deleted, at);
            }
        }
        lemma_survivors_counted(files, files, deleted, fingerprint, key);
        lemma_untouched_members(files, files, deleted, fingerprint, key);
    }
}

/// Once the duplicates of a reported group, and nothing else, are deleted from
/// a directory in which every path stands once, a new scan of the same
/// directory reports the same content identities but that of the group: one
/// group less.
pub proof fn lemma_rescan_reports_one_group_less(
    files: Seq<SizedPath>,
    fingerprint: spec_fn(SizedPath) -> Option<FingerprintedView>,
    result: DedupResultView,
    i: int,
    deleted: Set<Seq<char>>,
    again: DedupResultView,
)
    requires
        is_report_of(scan_records(files, fingerprint), result),
        0 <= i < result.groups.len(),
        distinct_paths(files),
        duplicates_deleted(result.groups[i], deleted),
        only_duplicates_deleted(result.groups[i], deleted),
        is_report_of(scan_records(surviving_files(files, deleted), fingerprint), again),
    ensures
        again.groups.len() == result.groups.len() - 1,
        again.total_groups == result.total_groups - 1,
        forall|key: ContentKey|
            #[trigger] reports_identity(again, key) <==> key != group_key(result.groups[i])
                && reports_identity(result, key),
{
    let records = scan_records(files, fingerprint);
    let rescanned = scan_records(surviving_files(files, deleted), fingerprint);
    let gone = group_key(result.groups[i]);
    let before = group_keys(duplicate_groups(records));
    let after = group_keys(duplicate_groups(rescanned));
    lemma_duplicate_keys(records);
    lemma_duplicate_keys(rescanned);
    lemma_ranking_keeps_totals(duplicate_groups(records), result.groups, files_in());
    lemma_ranking_keeps_totals(duplicate_groups(rescanned), again.groups, files_in());
    before.unique_seq_to_set();
    after.unique_seq_to_set();
    seq_to_set_is_finite(before);
    lemma_rescan_keeps_one_at_most(files, fingerprint, result, i, deleted);
    assert forall|key: ContentKey| after.to_set().contains(key) <==> before.to_set().remove(gone).contains(
        key,
    ) by {
        lemma_other_identities_survive(files, fingerprint, result, i, deleted, key);
        assert(after.contains(key) <==> members(rescanned, key).len() >= 2);
        assert(before.contains(key) <==> members(records, key).len() >= 2);
    }
    assert(after.to_set() =~= before.to_set().remove(gone));
    assert(before.contains(gone) <==> members(records, gone).len() >= 2);
    assert(before.to_set().contains(gone));
    axiom_set_remove_len(before.to_set(), gone);
    assert forall|key: ContentKey|
        #[trigger] reports_identity(again, key) <==> key != gone && reports_identity(result, key) by {
        lemma_reported_iff_repeated(records, result, key);
        lemma_reported_iff_repeated(rescanned, again, key);
        lemma_other_identities_survive(files, fingerprint, result, i, deleted, key);
    }
}

} // verus!
