use file_toolkit::buckets::SizeBuckets;
use file_toolkit::dedup::{aggregate, try_aggregate};
use file_toolkit::fingerprint::calculate_fast_hash;
use file_toolkit::grouping::group_records;
use file_toolkit::model::{DedupResult, DuplicateGroup, FileInfo};
use file_toolkit::progress::{
    done_fraction, fingerprint_progress, scan_done, scan_progress, scan_started, should_report,
    stage_label, DedupProgress, ProgressStage,
};
use file_toolkit::ranking::rank_desc;
use file_toolkit::scan::{
    assemble, check_root, finish_scan, fingerprint_candidate, fingerprinted, visit_entry,
    Fingerprinted, ScanError,
};
use file_toolkit::session::WalkSession;

fn file(path: &str, size: u64) -> FileInfo {
    let name = path.rsplit('/').next().unwrap_or("").to_string();
    FileInfo { path: path.to_string(), name, size, modified: 0 }
}

fn record(hash: &str, path: &str, size: u64) -> (String, FileInfo) {
    (hash.to_string(), file(path, size))
}

fn paths(group: &DuplicateGroup) -> Vec<String> {
    group.files.iter().map(|f| f.path.clone()).collect()
}

fn check_totals(result: &DedupResult) {
    let duplicates: usize = result.groups.iter().map(|g| g.files.len() - 1).sum();
    let wasted: u64 = result.groups.iter().map(|g| g.size * (g.files.len() as u64 - 1)).sum();
    assert_eq!(result.total_groups, result.groups.len());
    assert_eq!(result.total_duplicates, duplicates);
    assert_eq!(result.wasted_size, wasted);
}

fn scan(files: &[(&str, &[u8])], cancelled: bool) -> Result<DedupResult, ScanError> {
    let mut buckets = SizeBuckets::new();
    for (path, content) in files {
        let event = visit_entry(&mut buckets, false, Some(content.len() as u64), path.to_string());
        assert!(event.is_ok());
    }
    let candidates = buckets.candidates();
    let mut outcomes = Vec::new();
    for (size, path) in &candidates {
        let content = files.iter().find(|(p, _)| p == path).map(|(_, c)| *c);
        outcomes.push(content.map(|c| fingerprint_candidate(path, *size, c, Some(1_700_000_000))));
    }
    finish_scan(cancelled, candidates, outcomes)
}

#[test]
fn empty_directory_has_no_candidates() {
    let buckets = SizeBuckets::new();
    assert_eq!(buckets.file_count(), 0);
    assert!(buckets.candidates().is_empty());
}

#[test]
fn files_of_size_zero_are_not_recorded() {
    let mut buckets = SizeBuckets::new();
    buckets.add(0, "a".to_string());
    buckets.add(0, "b".to_string());
    assert_eq!(buckets.file_count(), 0);
    assert_eq!(buckets.bucket_len(0), 0);
    assert!(buckets.candidates().is_empty());
}

#[test]
fn size_unique_files_are_not_candidates() {
    let mut buckets = SizeBuckets::new();
    buckets.add(10, "a".to_string());
    buckets.add(5, "d".to_string());
    buckets.add(10, "b".to_string());
    buckets.add(7, "e".to_string());
    buckets.add(10, "c".to_string());
    assert_eq!(buckets.file_count(), 5);
    assert_eq!(buckets.bucket_len(10), 3);
    assert_eq!(buckets.bucket_len(5), 1);
    assert_eq!(buckets.bucket_len(6), 0);
    assert_eq!(
        buckets.candidates(),
        vec![(10, "a".to_string()), (10, "b".to_string()), (10, "c".to_string())]
    );
}

#[test]
fn candidates_come_in_walk_order() {
    let mut buckets = SizeBuckets::new();
    buckets.add(3, "p".to_string());
    buckets.add(8, "q".to_string());
    buckets.add(8, "r".to_string());
    buckets.add(3, "s".to_string());
    buckets.add(1, "t".to_string());
    assert_eq!(
        buckets.candidates(),
        vec![
            (3, "p".to_string()),
            (8, "q".to_string()),
            (8, "r".to_string()),
            (3, "s".to_string())
        ]
    );
}

#[test]
fn cancelled_walk_stops_and_records_nothing() {
    let mut buckets = SizeBuckets::new();
    buckets.add(4, "kept".to_string());
    let outcome = visit_entry(&mut buckets, true, Some(4), "late".to_string());
    assert_eq!(outcome, Err(ScanError::Cancelled));
    assert_eq!(buckets.file_count(), 1);
    assert_eq!(ScanError::Cancelled.message(), "操作已取消");
}

#[test]
fn unreadable_and_empty_entries_are_skipped() {
    let mut buckets = SizeBuckets::new();
    assert_eq!(visit_entry(&mut buckets, false, None, "gone".to_string()), Ok(None));
    assert_eq!(visit_entry(&mut buckets, false, Some(0), "empty".to_string()), Ok(None));
    assert_eq!(buckets.file_count(), 0);
}

#[test]
fn every_hundredth_recorded_file_reports_scanning_progress() {
    let mut buckets = SizeBuckets::new();
    for i in 1..=250usize {
        let outcome = visit_entry(&mut buckets, false, Some(1 + (i as u64 % 7)), format!("f{}", i));
        if i % 100 == 0 {
            assert_eq!(
                outcome,
                Ok(Some(DedupProgress { stage: ProgressStage::Scanning, current: i, total: 0 }))
            );
        } else {
            assert_eq!(outcome, Ok(None));
        }
        // skipped entries neither count nor report
        assert_eq!(visit_entry(&mut buckets, false, Some(0), "zero".to_string()), Ok(None));
    }
    assert_eq!(buckets.file_count(), 250);
}

#[test]
fn progress_events_have_their_stage_texts() {
    assert_eq!(stage_label(ProgressStage::Scanning), "扫描文件");
    assert_eq!(stage_label(ProgressStage::Fingerprinting), "计算文件指纹");
    assert_eq!(stage_label(ProgressStage::Done), "完成");
    assert_eq!(scan_started(), DedupProgress { stage: ProgressStage::Scanning, current: 0, total: 0 });
    assert_eq!(scan_done(42), DedupProgress { stage: ProgressStage::Done, current: 42, total: 42 });
    assert_eq!(scan_progress(100).map(|e| e.current), Some(100));
    assert_eq!(scan_progress(300).map(|e| e.total), Some(0));
    assert_eq!(scan_progress(101), None);
}

#[test]
fn fingerprint_progress_is_due_every_twenty_or_at_the_end() {
    assert!(should_report(20, 0, 100));
    assert!(!should_report(19, 0, 100));
    assert!(should_report(45, 20, 100));
    assert!(!should_report(39, 20, 100));
    assert!(should_report(100, 95, 100));
    assert!(should_report(3, 0, 3));
    assert!(!should_report(20, 20, 100));
    assert!(!should_report(10, 20, 100));
    assert!(!should_report(100, 100, 100));
    assert_eq!(
        fingerprint_progress(40, 20, 50),
        Some(DedupProgress { stage: ProgressStage::Fingerprinting, current: 40, total: 50 })
    );
    assert_eq!(fingerprint_progress(30, 20, 50), None);
}

#[test]
fn sequential_progress_never_regresses_and_ends_at_one_hundred_percent() {
    let total = 57usize;
    let mut events = vec![scan_started()];
    let mut last = 0usize;
    for current in 1..=total {
        if let Some(event) = fingerprint_progress(current, last, total) {
            last = current;
            events.push(event);
        }
    }
    events.push(scan_done(total));
    assert_eq!(events.iter().map(|e| e.current).collect::<Vec<_>>(), vec![0, 20, 40, 57, 57]);
    let mut previous = 0.0f64;
    for event in &events {
        let (done, whole) = done_fraction(*event);
        let percent = done as f64 / whole as f64 * 100.0;
        assert!(percent >= previous);
        previous = percent;
    }
    assert_eq!(previous, 100.0);
    assert_eq!(done_fraction(scan_done(0)), (1, 1));
}

#[test]
fn scenario_two_equal_files_one_different_one_size_unique() {
    let result = scan(
        &[
            ("/root/A", b"xxxxxxxxxx"),
            ("/root/B", b"xxxxxxxxxx"),
            ("/root/C", b"yyyyyyyyyy"),
            ("/root/D", b"zzzzz"),
        ],
        false,
    )
    .unwrap();
    assert_eq!(result.groups.len(), 1);
    assert_eq!(result.groups[0].size, 10);
    assert_eq!(paths(&result.groups[0]), vec!["/root/A", "/root/B"]);
    assert_eq!(result.groups[0].hash, calculate_fast_hash(b"xxxxxxxxxx", 10));
    assert_eq!(result.total_groups, 1);
    assert_eq!(result.total_duplicates, 1);
    assert_eq!(result.wasted_size, 10);
    assert_eq!(result.groups[0].files[0].modified, 1_700_000_000);
    assert_eq!(result.groups[0].files[0].size, 10);
}

#[test]
fn cancelling_yields_cancellation_and_no_report() {
    let outcome = scan(&[("/a", b"same"), ("/b", b"same")], true);
    assert_eq!(outcome.err(), Some(ScanError::Cancelled));
}

#[test]
fn deleting_the_duplicates_and_rescanning_leaves_no_group() {
    let first = scan(&[("/a", b"same"), ("/b", b"same"), ("/c", b"same"), ("/d", b"else")], false).unwrap();
    assert_eq!(first.groups.len(), 1);
    assert_eq!(paths(&first.groups[0]), vec!["/a", "/b", "/c"]);
    assert_eq!(first.total_duplicates, 2);
    assert_eq!(first.wasted_size, 8);
    // keep the first file of the group, delete the rest
    let second = scan(&[("/a", b"same"), ("/d", b"else")], false).unwrap();
    assert!(second.groups.is_empty());
    assert_eq!(second.total_groups, 0);
    assert_eq!(second.total_duplicates, 0);
    assert_eq!(second.wasted_size, 0);
}

#[test]
fn failed_candidates_are_dropped() {
    let candidates = vec![(4, "/a".to_string()), (4, "/b".to_string()), (4, "/c".to_string())];
    let outcomes = vec![
        Some(fingerprinted("h".to_string(), Some("a".to_string()), Some(5))),
        None,
        Some(fingerprinted("h".to_string(), None, None)),
    ];
    let records = assemble(candidates, outcomes);
    assert_eq!(records.len(), 2);
    assert_eq!(records[0].0, "h");
    assert_eq!(records[0].1.path, "/a");
    assert_eq!(records[0].1.name, "a");
    assert_eq!(records[0].1.size, 4);
    assert_eq!(records[0].1.modified, 5);
    assert_eq!(records[1].1.path, "/c");
    assert_eq!(records[1].1.name, "");
    assert_eq!(records[1].1.modified, 0);
}

#[test]
fn candidates_without_an_outcome_are_dropped() {
    let candidates = vec![(4, "/a".to_string()), (4, "/b".to_string())];
    let outcomes: Vec<Option<Fingerprinted>> =
        vec![Some(Fingerprinted { hash: "h".to_string(), name: "a".to_string(), modified: 1 })];
    let records = assemble(candidates, outcomes);
    assert_eq!(records.len(), 1);
    assert_eq!(records[0].1.path, "/a");
    let result = finish_scan(false, vec![(4, "/a".to_string())], Vec::new()).unwrap();
    assert!(result.groups.is_empty());
}

#[test]
fn candidate_name_is_the_last_component() {
    let outcome = fingerprint_candidate("dir/sub/photo.jpg", 3, b"abc", None);
    assert_eq!(outcome.name, "photo.jpg");
    assert_eq!(outcome.modified, 0);
    assert_eq!(outcome.hash, calculate_fast_hash(b"abc", 3));
}

#[test]
fn groups_need_two_members_and_keep_record_order() {
    let result = aggregate(vec![
        record("aa", "/1", 10),
        record("bb", "/2", 10),
        record("aa", "/3", 10),
        record("cc", "/4", 7),
        record("aa", "/5", 10),
    ]);
    assert_eq!(result.groups.len(), 1);
    assert_eq!(result.groups[0].hash, "aa");
    assert_eq!(result.groups[0].size, 10);
    assert_eq!(paths(&result.groups[0]), vec!["/1", "/3", "/5"]);
    assert_eq!(result.total_groups, 1);
    assert_eq!(result.total_duplicates, 2);
    assert_eq!(result.wasted_size, 20);
    check_totals(&result);
}

#[test]
fn no_records_give_an_empty_report() {
    let result = aggregate(Vec::new());
    assert!(result.groups.is_empty());
    assert_eq!(result.total_groups, 0);
    assert_eq!(result.total_duplicates, 0);
    assert_eq!(result.wasted_size, 0);
}

#[test]
fn groups_are_presented_by_descending_size_ties_in_order_of_appearance() {
    let result = aggregate(vec![
        record("s1", "/a1", 5),
        record("b1", "/b1", 50),
        record("m1", "/c1", 20),
        record("m2", "/d1", 20),
        record("s1", "/a2", 5),
        record("m2", "/d2", 20),
        record("b1", "/b2", 50),
        record("m1", "/c2", 20),
        record("m3", "/e1", 20),
        record("m3", "/e2", 20),
    ]);
    let order: Vec<(String, u64)> = result.groups.iter().map(|g| (g.hash.clone(), g.size)).collect();
    assert_eq!(
        order,
        vec![
            ("b1".to_string(), 50),
            ("m1".to_string(), 20),
            ("m2".to_string(), 20),
            ("m3".to_string(), 20),
            ("s1".to_string(), 5)
        ]
    );
    assert_eq!(result.total_duplicates, 5);
    assert_eq!(result.wasted_size, 50 + 20 + 20 + 20 + 5);
    check_totals(&result);
}

#[test]
fn equal_fingerprints_of_different_sizes_are_not_duplicates() {
    let result = aggregate(vec![
        record("same", "/a", 10),
        record("same", "/b", 11),
        record("same", "/c", 10),
        record("same", "/d", 12),
    ]);
    assert_eq!(result.groups.len(), 1);
    assert_eq!(result.groups[0].size, 10);
    assert_eq!(paths(&result.groups[0]), vec!["/a", "/c"]);
    for group in &result.groups {
        assert!(group.files.len() >= 2);
        assert!(group.files.iter().all(|f| f.size == group.size));
    }
}

#[test]
fn every_group_has_two_members_of_one_size() {
    let mut records = Vec::new();
    for i in 0..200u64 {
        records.push(record(&format!("h{}", i % 37), &format!("/f{}", i), 1 + i % 5));
    }
    let result = aggregate(records);
    assert!(!result.groups.is_empty());
    for group in &result.groups {
        assert!(group.files.len() >= 2);
        assert!(group.files.iter().all(|f| f.size == group.size));
    }
    for pair in result.groups.windows(2) {
        assert!(pair[0].size >= pair[1].size);
    }
    check_totals(&result);
}

#[test]
fn grouping_keeps_single_files_and_first_appearance_order() {
    let groups = group_records(vec![
        record("x", "/1", 1),
        record("y", "/2", 2),
        record("x", "/3", 1),
        record("x", "/4", 2),
    ]);
    let shape: Vec<(String, u64, usize)> =
        groups.iter().map(|g| (g.hash.clone(), g.size, g.files.len())).collect();
    assert_eq!(
        shape,
        vec![("x".to_string(), 1, 2), ("y".to_string(), 2, 1), ("x".to_string(), 2, 1)]
    );
}

#[test]
fn many_groups_in_one_slot_are_told_apart() {
    let mut records = Vec::new();
    for round in 0..2 {
        for i in 0..500u64 {
            records.push(record(&format!("{:016x}", i * 7919), &format!("/r{}/f{}", round, i), 4096));
        }
    }
    let result = aggregate(records);
    assert_eq!(result.groups.len(), 500);
    assert_eq!(result.total_duplicates, 500);
    assert_eq!(result.wasted_size, 500 * 4096);
    assert_eq!(result.groups[0].hash, format!("{:016x}", 0));
    assert_eq!(paths(&result.groups[499]), vec!["/r0/f499", "/r1/f499"]);
}

#[test]
fn totals_that_do_not_fit_are_refused() {
    let records = vec![
        record("h", "/a", u64::MAX),
        record("h", "/b", u64::MAX),
        record("h", "/c", u64::MAX),
    ];
    assert!(try_aggregate(records).is_none());
    let fits = vec![record("h", "/a", u64::MAX), record("h", "/b", u64::MAX)];
    let result = try_aggregate(fits).unwrap();
    assert_eq!(result.wasted_size, u64::MAX);
    let outcome = finish_scan(
        false,
        vec![(u64::MAX, "/a".to_string()), (u64::MAX, "/b".to_string()), (u64::MAX, "/c".to_string())],
        vec![
            Some(fingerprinted("h".to_string(), None, None)),
            Some(fingerprinted("h".to_string(), None, None)),
            Some(fingerprinted("h".to_string(), None, None)),
        ],
    );
    assert_eq!(outcome.err(), Some(ScanError::TotalsOverflow));
}

#[test]
fn ranking_is_stable() {
    let groups: Vec<DuplicateGroup> = [(3u64, "a"), (9, "b"), (3, "c"), (9, "d"), (1, "e"), (3, "f")]
        .iter()
        .map(|(size, hash)| DuplicateGroup { hash: hash.to_string(), size: *size, files: Vec::new() })
        .collect();
    let ranked: Vec<String> = rank_desc(groups).into_iter().map(|g| g.hash).collect();
    assert_eq!(ranked, vec!["b", "d", "a", "c", "f", "e"]);
}

#[test]
fn scan_needs_a_root_that_is_a_directory() {
    assert_eq!(check_root(true, true), Ok(()));
    assert_eq!(check_root(false, false), Err(ScanError::InvalidRoot));
    assert_eq!(check_root(true, false), Err(ScanError::InvalidRoot));
    assert_eq!(check_root(false, true), Err(ScanError::InvalidRoot));
    assert_eq!(ScanError::InvalidRoot.message(), "路径不存在或不是目录");
}

#[test]
fn session_hands_out_events_in_order_up_to_one_hundred_percent() {
    let (mut walk, opening) = WalkSession::begin();
    let mut events = vec![opening];
    for i in 0..230u64 {
        // sizes 1..=115, each twice: every file is a candidate
        let outcome = walk.visit(false, Some(1 + i % 115), format!("/f{}", i));
        if let Ok(Some(event)) = outcome {
            events.push(event);
        }
        assert!(outcome.is_ok());
    }
    assert_eq!(walk.visit(false, Some(0), "/zero".to_string()), Ok(None));
    assert_eq!(walk.visit(false, None, "/gone".to_string()), Ok(None));
    assert_eq!(walk.file_count(), 230);
    let (mut session, candidates) = walk.begin_fingerprinting();
    assert_eq!(candidates.len(), 230);
    assert_eq!(candidates[0], (1, "/f0".to_string()));
    for _ in 0..candidates.len() {
        if let Some(event) = session.complete_one() {
            events.push(event);
        }
    }
    assert_eq!(session.completed_count(), 230);
    // nothing more is counted once every candidate has completed
    assert_eq!(session.complete_one(), None);
    assert_eq!(session.completed_count(), 230);
    events.push(session.done());

    let shape: Vec<(ProgressStage, usize, usize)> = events.iter().map(|e| (e.stage, e.current, e.total)).collect();
    let mut expected = vec![
        (ProgressStage::Scanning, 0, 0),
        (ProgressStage::Scanning, 100, 0),
        (ProgressStage::Scanning, 200, 0),
    ];
    for current in (20..=220).step_by(20) {
        expected.push((ProgressStage::Fingerprinting, current, 230));
    }
    expected.push((ProgressStage::Fingerprinting, 230, 230));
    expected.push((ProgressStage::Done, 230, 230));
    assert_eq!(shape, expected);

    let mut previous = 0.0f64;
    for event in &events {
        let (done, whole) = done_fraction(*event);
        let percent = done as f64 / whole as f64 * 100.0;
        assert!((0.0..=100.0).contains(&percent));
        assert!(percent >= previous);
        previous = percent;
    }
    assert_eq!(previous, 100.0);
}

#[test]
fn cancelled_session_stops_and_keeps_its_events() {
    let (mut walk, _) = WalkSession::begin();
    assert_eq!(walk.visit(false, Some(3), "/a".to_string()), Ok(None));
    assert_eq!(walk.visit(true, Some(3), "/b".to_string()), Err(ScanError::Cancelled));
    assert_eq!(walk.file_count(), 1);
    let (session, candidates) = walk.begin_fingerprinting();
    assert!(candidates.is_empty());
    assert_eq!(session.done(), scan_done(0));
}
