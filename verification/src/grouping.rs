//! Grouping fingerprinted files by content identity: equal fingerprint and
//! equal size.

use vstd::prelude::*;
use vstd::utf8::encode_utf8;
use std::collections::HashMap;
use crate::ranking::{lemma_total_update, total};
use crate::model::{
    DuplicateGroup, DuplicateGroupView, FileInfo, FileInfoView, RecordView, group_views,
    record_views, file_views,
};

verus! {

/// What makes two files duplicates of each other.
pub struct ContentKey {
    pub hash: Seq<char>,
    pub size: u64,
}

/// The content identity of a fingerprinted file.
pub open spec fn key_of(record: RecordView) -> ContentKey {
    ContentKey { hash: record.hash, size: record.file.size }
}

/// The files with the given content identity, in the order of the records.
pub open spec fn members(records: Seq<RecordView>, key: ContentKey) -> Seq<FileInfoView>
    decreases records.len(),
{
    if records.len() == 0 {
        Seq::empty()
    } else if key_of(records.last()) == key {
        members(records.drop_last(), key).push(records.last().file)
    } else {
        members(records.drop_last(), key)
    }
}

/// The distinct content identities among the records, each at the place of its
/// first record.
pub open spec fn first_seen(records: Seq<RecordView>) -> Seq<ContentKey>
    decreases records.len(),
{
    if records.len() == 0 {
        Seq::empty()
    } else {
        let earlier = first_seen(records.drop_last());
        if earlier.contains(key_of(records.last())) {
            earlier
        } else {
            earlier.push(key_of(records.last()))
        }
    }
}

/// The group of all files with the given content identity.
pub open spec fn group_of(records: Seq<RecordView>, key: ContentKey) -> DuplicateGroupView {
    DuplicateGroupView { hash: key.hash, size: key.size, files: members(records, key) }
}

/// One group per content identity, in order of first appearance; each holds
/// every file of that identity in the order of the records.
pub open spec fn all_groups(records: Seq<RecordView>) -> Seq<DuplicateGroupView> {
    Seq::new(first_seen(records).len(), |i: int| group_of(records, first_seen(records)[i]))
}

/// The groups that hold two files or more, in the order in which they stand.
pub open spec fn repeated(groups: Seq<DuplicateGroupView>) -> Seq<DuplicateGroupView>
    decreases groups.len(),
{
    if groups.len() == 0 {
        Seq::empty()
    } else if groups.last().files.len() >= 2 {
        repeated(groups.drop_last()).push(groups.last())
    } else {
        repeated(groups.drop_last())
    }
}

/// The duplicate groups of the records, before they are put in presentation order.
pub open spec fn duplicate_groups(records: Seq<RecordView>) -> Seq<DuplicateGroupView> {
    repeated(all_groups(records))
}

/// Every file listed under a content identity has that identity's size.
pub proof fn lemma_members_share_size(records: Seq<RecordView>, key: ContentKey, i: int)
    requires
        0 <= i < members(records, key).len(),
    ensures
        members(records, key)[i].size == key.size,
    decreases records.len(),
{
    if key_of(records.last()) == key {
        if i < members(records.drop_last(), key).len() {
            lemma_members_share_size(records.drop_last(), key, i);
        }
    } else {
        lemma_members_share_size(records.drop_last(), key, i);
    }
}

/// A content identity has been seen exactly when some record carries it.
pub proof fn lemma_seen_iff_members(records: Seq<RecordView>, key: ContentKey)
    ensures
        first_seen(records).contains(key) <==> members(records, key).len() > 0,
    decreases records.len(),
{
    if records.len() > 0 {
        let earlier = first_seen(records.drop_last());
        let last = key_of(records.last());
        lemma_seen_iff_members(records.drop_last(), key);
        if earlier.contains(last) {
        } else {
            if key == last {
                assert(earlier.push(last)[earlier.len() as int] == last);
            } else {
                if earlier.push(last).contains(key) {
                    let i = choose|i: int| 0 <= i < earlier.push(last).len() && earlier.push(last)[i] == key;
                    assert(earlier[i] == key);
                }
                if earlier.contains(key) {
                    let i = choose|i: int| 0 <= i < earlier.len() && earlier[i] == key;
                    assert(earlier.push(last)[i] == key);
                }
            }
        }
    }
}

/// No content identity is listed twice.
pub proof fn lemma_first_seen_distinct(records: Seq<RecordView>)
    ensures
        first_seen(records).no_duplicates(),
    decreases records.len(),
{
    if records.len() > 0 {
        lemma_first_seen_distinct(records.drop_last());
    }
}

/// A group stands among the repeated ones exactly when it stands in the
/// sequence and holds two files or more.
pub proof fn lemma_repeated_contains(groups: Seq<DuplicateGroupView>, group: DuplicateGroupView)
    ensures
        repeated(groups).contains(group) <==> groups.contains(group) && group.files.len() >= 2,
    decreases groups.len(),
{
    if groups.len() > 0 {
        let rest = groups.drop_last();
        lemma_repeated_contains(rest, group);
        if groups.contains(group) {
            let i = choose|i: int| 0 <= i < groups.len() && groups[i] == group;
            if i < rest.len() {
                assert(rest[i] == group);
            }
        }
        if rest.contains(group) {
            let i = choose|i: int| 0 <= i < rest.len() && rest[i] == group;
            assert(groups[i] == group);
        }
        if groups.last().files.len() >= 2 {
            let kept = repeated(rest);
            if kept.push(groups.last()).contains(group) {
                let i = choose|i: int| 0 <= i < kept.push(groups.last()).len() && kept.push(groups.last())[i] == group;
                if i < kept.len() {
                    assert(kept[i] == group);
                }
            }
            if kept.contains(group) {
                let i = choose|i: int| 0 <= i < kept.len() && kept[i] == group;
                assert(kept.push(groups.last())[i] == group);
            }
            if group == groups.last() {
                assert(kept.push(groups.last())[kept.len() as int] == group);
                assert(groups[groups.len() - 1] == group);
            }
        }
    }
}

/// The content identity that a group stands for.
pub open spec fn group_key(group: DuplicateGroupView) -> ContentKey {
    ContentKey { hash: group.hash, size: group.size }
}

/// The groups are exactly the groups of the content identities that some record
/// carries.
pub proof fn lemma_all_groups_contains(records: Seq<RecordView>, group: DuplicateGroupView)
    ensures
        all_groups(records).contains(group) <==> group == group_of(records, group_key(group))
            && group.files.len() >= 1,
{
    let groups = all_groups(records);
    let seen = first_seen(records);
    let key = group_key(group);
    lemma_seen_iff_members(records, key);
    if groups.contains(group) {
        let i = choose|i: int| 0 <= i < groups.len() && groups[i] == group;
        assert(groups[i] == group_of(records, seen[i]));
        assert(seen[i] == key);
        assert(seen.contains(key));
    }
    if group == group_of(records, key) && group.files.len() >= 1 {
        let i = choose|i: int| 0 <= i < seen.len() && seen[i] == key;
        assert(groups[i] == group);
    }
}

/// The duplicate groups are exactly the groups of the content identities that
/// two or more records carry.
pub proof fn lemma_duplicate_groups_contains(records: Seq<RecordView>, group: DuplicateGroupView)
    ensures
        duplicate_groups(records).contains(group) <==> group == group_of(records, group_key(group))
            && group.files.len() >= 2,
{
    lemma_repeated_contains(all_groups(records), group);
    lemma_all_groups_contains(records, group);
}

proof fn lemma_push_new(records: Seq<RecordView>, record: RecordView)
    requires
        !first_seen(records).contains(key_of(record)),
    ensures
        all_groups(records.push(record)) == all_groups(records).push(
            DuplicateGroupView { hash: record.hash, size: record.file.size, files: seq![record.file] },
        ),
{
    let next = records.push(record);
    assert(next.drop_last() =~= records);
    assert(next.last() == record);
    lemma_seen_iff_members(records, key_of(record));
    assert(members(next, key_of(record)) =~= seq![record.file]);
    assert(first_seen(next) == first_seen(records).push(key_of(record)));
    assert forall|i: int| 0 <= i < first_seen(records).len() implies members(
        next,
        #[trigger] first_seen(records)[i],
    ) == members(records, first_seen(records)[i]) by {
        assert(first_seen(records).contains(first_seen(records)[i]));
    }
    assert(all_groups(next) =~= all_groups(records).push(
        DuplicateGroupView { hash: record.hash, size: record.file.size, files: seq![record.file] },
    ));
}

proof fn lemma_push_existing(records: Seq<RecordView>, record: RecordView, j: int)
    requires
        0 <= j < first_seen(records).len(),
        first_seen(records)[j] == key_of(record),
    ensures
        all_groups(records).len() == first_seen(records).len(),
        all_groups(records.push(record)) == all_groups(records).update(
            j,
            DuplicateGroupView {
                hash: record.hash,
                size: record.file.size,
                files: all_groups(records)[j].files.push(record.file),
            },
        ),
{
    let next = records.push(record);
    assert(next.drop_last() =~= records);
    assert(next.last() == record);
    assert(first_seen(records).contains(key_of(record)));
    assert(first_seen(next) == first_seen(records));
    lemma_first_seen_distinct(records);
    assert forall|i: int| 0 <= i < first_seen(records).len() && i != j implies members(
        next,
        #[trigger] first_seen(records)[i],
    ) == members(records, first_seen(records)[i]) by {
        assert(first_seen(records)[i] != first_seen(records)[j]);
    }
    assert(all_groups(next) =~= all_groups(records).update(
        j,
        DuplicateGroupView {
            hash: record.hash,
            size: record.file.size,
            files: all_groups(records)[j].files.push(record.file),
        },
    ));
}

/// The number of files of a group.
pub open spec fn files_in() -> spec_fn(DuplicateGroupView) -> int {
    |group: DuplicateGroupView| group.files.len() as int
}

/// Every record stands in exactly one group: the groups hold as many files as
/// there are records.
pub proof fn lemma_groups_hold_every_record(records: Seq<RecordView>)
    ensures
        total(all_groups(records), files_in()) == records.len(),
    decreases records.len(),
{
    if records.len() > 0 {
        let rest = records.drop_last();
        let last = records.last();
        lemma_groups_hold_every_record(rest);
        assert(records =~= rest.push(last));
        if first_seen(rest).contains(key_of(last)) {
            let j = choose|j: int| 0 <= j < first_seen(rest).len() && first_seen(rest)[j] == key_of(last);
            lemma_push_existing(rest, last, j);
            lemma_total_update(
                all_groups(rest),
                j,
                DuplicateGroupView {
                    hash: last.hash,
                    size: last.file.size,
                    files: all_groups(rest)[j].files.push(last.file),
                },
                files_in(),
            );
        } else {
            lemma_push_new(rest, last);
            let group = DuplicateGroupView { hash: last.hash, size: last.file.size, files: seq![last.file] };
            assert(all_groups(rest).push(group).drop_last() =~= all_groups(rest));
        }
    }
}

/// Dropping the groups of a single file does not add files.
pub proof fn lemma_repeated_hold_no_more(groups: Seq<DuplicateGroupView>)
    ensures
        0 <= total(repeated(groups), files_in()) <= total(groups, files_in()),
    decreases groups.len(),
{
    if groups.len() > 0 {
        lemma_repeated_hold_no_more(groups.drop_last());
        if groups.last().files.len() >= 2 {
            assert(repeated(groups.drop_last()).push(groups.last()).drop_last() =~= repeated(
                groups.drop_last(),
            ));
        }
    }
}

spec fn slot_mix(acc: u64, byte: u8) -> u64 {
    ((acc << 5) | (acc >> 59)) ^ (byte as u64)
}

spec fn slot_fold(bytes: Seq<u8>, seed: u64) -> u64
    decreases bytes.len(),
{
    if bytes.len() == 0 {
        seed
    } else {
        slot_mix(slot_fold(bytes.drop_last(), seed), bytes.last())
    }
}

/// The lookup slot of a content identity: its size folded with the bytes of its
/// fingerprint. Unequal identities may share a slot.
spec fn slot_of(hash: Seq<char>, size: u64) -> u64 {
    slot_fold(encode_utf8(hash), size)
}

fn slot(hash: &String, size: u64) -> (s: u64)
    ensures
        s == slot_of(hash@, size),
{
    let bytes = hash.as_str().as_bytes();
    let mut acc = size;
    let mut i: usize = 0;
    assert(bytes@.take(0) =~= Seq::<u8>::empty());
    while i < bytes.len()
        invariant
            i <= bytes.len(),
            acc == slot_fold(bytes@.take(i as int), size),
        decreases bytes.len() - i,
    {
        assert(bytes@.take(i + 1).drop_last() =~= bytes@.take(i as int));
        acc = ((acc << 5) | (acc >> 59)) ^ (bytes[i] as u64);
        i += 1;
    }
    assert(bytes@.take(i as int) =~= bytes@);
    acc
}

/// Whether following the links from `from` arrives at `to`.
spec fn chain_reaches(prev: Seq<Option<usize>>, from: int, to: int) -> bool
    decreases from,
{
    if from < 0 || from >= prev.len() {
        false
    } else if from == to {
        true
    } else {
        match prev[from] {
            Some(p) => p < from && chain_reaches(prev, p as int, to),
            None => false,
        }
    }
}

spec fn links_wf(prev: Seq<Option<usize>>) -> bool {
    forall|g: int| 0 <= g < prev.len() ==> match #[trigger] prev[g] {
        Some(p) => p < g,
        None => true,
    }
}

spec fn group_slot(group: DuplicateGroup) -> u64 {
    slot_of(group.hash@, group.size)
}

/// The lookup table over the groups: `heads` maps a slot to the newest group in
/// it, `prev` links each group to the next older group of the same slot, and
/// every group can be reached from the head of its slot.
spec fn table_wf(groups: Seq<DuplicateGroup>, prev: Seq<Option<usize>>, heads: Map<u64, usize>) -> bool {
    &&& prev.len() == groups.len()
    &&& links_wf(prev)
    &&& forall|k: u64| heads.contains_key(k) ==> #[trigger] heads[k] < groups.len()
    &&& forall|g: int|
        0 <= g < groups.len() ==> {
            &&& heads.contains_key(#[trigger] group_slot(groups[g]))
            &&& chain_reaches(prev, heads[group_slot(groups[g])] as int, g)
        }
}

proof fn lemma_chain_extends(prev: Seq<Option<usize>>, link: Option<usize>, from: int, to: int)
    requires
        0 <= from < prev.len(),
        chain_reaches(prev, from, to),
    ensures
        chain_reaches(prev.push(link), from, to),
    decreases from,
{
    assert(prev.push(link)[from] == prev[from]);
    if from != to {
        match prev[from] {
            Some(p) => {
                lemma_chain_extends(prev, link, p as int, to);
            },
            None => {},
        }
    }
}

proof fn lemma_chain_target_in_range(prev: Seq<Option<usize>>, from: int, to: int)
    requires
        chain_reaches(prev, from, to),
    ensures
        0 <= to <= from < prev.len(),
    decreases from,
{
    if from != to {
        match prev[from] {
            Some(p) => {
                lemma_chain_target_in_range(prev, p as int, to);
            },
            None => {},
        }
    }
}

fn find_group(
    groups: &Vec<DuplicateGroup>,
    prev: &Vec<Option<usize>>,
    start: Option<usize>,
    hash: &String,
    size: u64,
) -> (found: Option<usize>)
    requires
        prev.len() == groups.len(),
        links_wf(prev@),
        start is Some ==> start->0 < groups.len(),
    ensures
        match found {
            Some(g) => g < groups.len() && groups[g as int].hash@ == hash@ && groups[g as int].size == size,
            None => forall|g: int|
                start is Some && #[trigger] chain_reaches(prev@, start->0 as int, g) ==> !(groups[g].hash@
                    == hash@ && groups[g].size == size),
        },
{
    let mut cur = start;
    loop
        invariant
            prev.len() == groups.len(),
            links_wf(prev@),
            cur is Some ==> cur->0 < groups.len(),
            forall|g: int|
                start is Some && #[trigger] chain_reaches(prev@, start->0 as int, g) && groups[g].hash@
                    == hash@ && groups[g].size == size ==> cur is Some && chain_reaches(
                    prev@,
                    cur->0 as int,
                    g,
                ),
        decreases
                (match cur {
                    Some(c) => c + 1,
                    None => 0,
                }),
    {
        match cur {
            None => {
                return None;
            },
            Some(c) => {
                if groups[c].size == size && groups[c].hash == *hash {
                    return Some(c);
                }
                assert(prev@[c as int] is Some ==> prev@[c as int]->0 < c);
                cur = prev[c];
            },
        }
    }
}

/// Groups the records by content identity.
///
/// The groups come in order of first appearance, and each lists its files in the
/// order of the records. Groups of a single file are included.
pub fn group_records(records: Vec<(String, FileInfo)>) -> (groups: Vec<DuplicateGroup>)
    ensures
        group_views(groups@) == all_groups(record_views(records@)),
{
    broadcast use vstd::std_specs::hash::group_hash_axioms;

    let ghost all = record_views(records@);
    let mut groups: Vec<DuplicateGroup> = Vec::new();
    let mut prev: Vec<Option<usize>> = Vec::new();
    let mut heads: HashMap<u64, usize> = HashMap::new();
    assert(all.take(0) =~= Seq::<RecordView>::empty());
    assert(group_views(groups@) =~= all_groups(all.take(0)));
    for record in it: records
        invariant
            all == record_views(it.seq()),
            group_views(groups@) == all_groups(all.take(it.index() as int)),
            table_wf(groups@, prev@, heads@),
    {
        let ghost done = all.take(it.index() as int);
        let ghost rv = all[it.index() as int];
        assert(all.take(it.index() + 1) =~= done.push(rv));
        let ghost old_groups = groups@;
        let ghost old_prev = prev@;
        let ghost old_heads = heads@;
        let (hash, file) = record;
        assert(rv == RecordView { hash: hash@, file: file@ });
        let key = slot(&hash, file.size);
        let start = match heads.get(&key) {
            Some(h) => Some(*h),
            None => None,
        };
        proof {
            if start is Some {
                assert(old_heads.contains_key(key));
            }
        }
        assert(start is Some ==> start->0 == old_heads[key]);
        let found = find_group(&groups, &prev, start, &hash, file.size);
        match found {
            Some(g) => {
                proof {
                    assert(group_views(old_groups)[g as int] == old_groups[g as int]@);
                    assert(all_groups(done).len() == first_seen(done).len());
                    assert(all_groups(done)[g as int] == group_of(done, first_seen(done)[g as int]));
                    assert(first_seen(done)[g as int].hash == hash@);
                    assert(first_seen(done)[g as int].size == file.size);
                    assert(first_seen(done)[g as int] == key_of(rv));
                    lemma_push_existing(done, rv, g as int);
                }
                groups[g].files.push(file);
                proof {
                    assert(file_views(groups@[g as int].files@) =~= file_views(
                        old_groups[g as int].files@,
                    ).push(file@));
                    assert(group_views(groups@) =~= all_groups(done.push(rv)));
                    assert forall|k: int| 0 <= k < groups.len() implies group_slot(
                        #[trigger] groups@[k],
                    ) == group_slot(old_groups[k]) by {}
                    assert(table_wf(groups@, prev@, heads@));
                }
            },
            None => {
                let idx = groups.len();
                let size = file.size;
                let mut files: Vec<FileInfo> = Vec::new();
                files.push(file);
                proof {
                    assert(file_views(files@) =~= seq![file@]);
                    if first_seen(done).contains(key_of(rv)) {
                        let j = choose|j: int| 0 <= j < first_seen(done).len() && first_seen(done)[j] == key_of(rv);
                        assert(all_groups(done).len() == first_seen(done).len());
                        assert(all_groups(done)[j] == group_of(done, first_seen(done)[j]));
                        assert(group_views(old_groups)[j] == old_groups[j]@);
                        assert(group_slot(old_groups[j]) == key);
                        assert(chain_reaches(old_prev, start->0 as int, j));
                        assert(false);
                    }
                    lemma_push_new(done, rv);
                }
                groups.push(DuplicateGroup { hash, size, files });
                prev.push(start);
                heads.insert(key, idx);
                proof {
                    assert(group_views(groups@) =~= all_groups(done.push(rv)));
                    assert forall|g: int| 0 <= g < groups.len() implies {
                        &&& heads@.contains_key(#[trigger] group_slot(groups@[g]))
                        &&& chain_reaches(prev@, heads@[group_slot(groups@[g])] as int, g)
                    } by {
                        if g < idx {
                            assert(groups@[g] == old_groups[g]);
                            let s = group_slot(old_groups[g]);
                            lemma_chain_target_in_range(old_prev, old_heads[s] as int, g);
                            lemma_chain_extends(old_prev, start, old_heads[s] as int, g);
                        }
                    }
                    assert(table_wf(groups@, prev@, heads@));
                }
            },
        }
    }
    assert(all.take(all.len() as int) =~= all);
    groups
}

} // verus!
