use ftt::diff::diff_snapshots;
use ftt::diff::status;
use ftt::ignore::IgnoreSet;
use ftt::ignore::parse_ignore_patterns;
use ftt::index::SnapshotIndex;
use ftt::index::TagMap;
use ftt::index::log_ids;
use ftt::index::tag_snapshot;
use ftt::rewind::rewind;
use ftt::save::save_snapshot;
use ftt::save::scan;
use ftt::select::RewindSelector;
use ftt::select::SnapSelector;
use ftt::store::BlobStore;
use ftt::FttError;

fn files_v1() -> Vec<(String, Vec<u8>)> {
    vec![
        ("a.txt".to_string(), b"hello".to_vec()),
        ("b.txt".to_string(), b"world".to_vec()),
    ]
}

fn files_v2() -> Vec<(String, Vec<u8>)> {
    vec![
        ("a.txt".to_string(), b"goodbye".to_vec()),
        ("b.txt".to_string(), b"world".to_vec()),
        ("c.txt".to_string(), b"new".to_vec()),
    ]
}

#[test]
fn save_assigns_sequential_ids() {
    let mut index = SnapshotIndex::new();
    let mut store = BlobStore::new();
    let rules = IgnoreSet::new();
    assert_eq!(index.len(), 0);
    let id1 = save_snapshot(&mut index, &mut store, files_v1(), &rules);
    let id2 = save_snapshot(&mut index, &mut store, files_v2(), &rules);
    let id3 = save_snapshot(&mut index, &mut store, files_v2(), &rules);
    assert_eq!(id1, 1);
    assert_eq!(id2, 2);
    assert_eq!(id3, 3);
    assert_eq!(log_ids(&index), vec![1, 2, 3]);
}

#[test]
fn dedup_identical_content_one_blob() {
    let mut store = BlobStore::new();
    let f1 = store.insert_content(b"same".to_vec());
    let f2 = store.insert_content(b"same".to_vec());
    assert_eq!(f1, f2);
    assert_eq!(store.len(), 1);
    assert_eq!(store.get(&f1).unwrap(), &b"same".to_vec());
}

#[test]
fn save_two_identical_files_one_blob() {
    let mut index = SnapshotIndex::new();
    let mut store = BlobStore::new();
    let rules = IgnoreSet::new();
    let files = vec![
        ("x.txt".to_string(), b"dup".to_vec()),
        ("y.txt".to_string(), b"dup".to_vec()),
    ];
    save_snapshot(&mut index, &mut store, files, &rules);
    assert_eq!(store.len(), 1);
}

#[test]
fn diff_classifies_modified_added_deleted() {
    let mut index = SnapshotIndex::new();
    let mut store = BlobStore::new();
    let rules = IgnoreSet::new();
    save_snapshot(&mut index, &mut store, files_v1(), &rules);
    save_snapshot(&mut index, &mut store, files_v2(), &rules);

    let report = diff_snapshots(
        &index,
        &TagMap::new(),
        &Some(SnapSelector::ById(1)),
        &Some(SnapSelector::ById(2)),
    )
    .unwrap();
    assert_eq!(report.modified, vec!["a.txt".to_string()]);
    assert_eq!(report.added, vec!["c.txt".to_string()]);
    assert!(report.deleted.is_empty());
}

#[test]
fn rewind_restores_and_deletes() {
    let mut index = SnapshotIndex::new();
    let mut store = BlobStore::new();
    let rules = IgnoreSet::new();
    save_snapshot(&mut index, &mut store, files_v1(), &rules);
    save_snapshot(&mut index, &mut store, files_v2(), &rules);

    let live = scan(&files_v2(), &rules);
    let dirs: Vec<String> = vec![];
    let (id, plan) = rewind(
        &index,
        &TagMap::new(),
        &Some(RewindSelector::Back(1)),
        &live,
        &dirs,
        &store,
    )
    .unwrap();
    assert_eq!(id, 1);
    assert!(plan.missing.is_empty());
    assert_eq!(plan.restore.len(), 1);
    assert_eq!(plan.restore[0].0, "a.txt".to_string());
    assert_eq!(plan.restore[0].1, b"hello".to_vec());
    assert_eq!(plan.delete_files, vec!["c.txt".to_string()]);
    assert!(plan.delete_dirs.is_empty());
}

#[test]
fn rewind_to_matching_tree_is_empty() {
    let mut index = SnapshotIndex::new();
    let mut store = BlobStore::new();
    let rules = IgnoreSet::new();
    let files = vec![("sub/f.txt".to_string(), b"z".to_vec())];
    save_snapshot(&mut index, &mut store, files.clone(), &rules);
    let live = scan(&files, &rules);
    let dirs = vec!["sub".to_string()];
    let (id, plan) = rewind(
        &index,
        &TagMap::new(),
        &Some(RewindSelector::Back(0)),
        &live,
        &dirs,
        &store,
    )
    .unwrap();
    assert_eq!(id, 1);
    assert!(plan.restore.is_empty());
    assert!(plan.missing.is_empty());
    assert!(plan.delete_files.is_empty());
    assert!(plan.delete_dirs.is_empty());
}

#[test]
fn rewind_prunes_dirs_deepest_first() {
    let mut index = SnapshotIndex::new();
    let mut store = BlobStore::new();
    let rules = IgnoreSet::new();
    save_snapshot(&mut index, &mut store, files_v1(), &rules);
    let live = scan(&files_v1(), &rules);
    let dirs = vec!["a".to_string(), "a/b/c".to_string(), "a/b".to_string()];
    let (_, plan) = rewind(
        &index,
        &TagMap::new(),
        &Some(RewindSelector::Back(0)),
        &live,
        &dirs,
        &store,
    )
    .unwrap();
    assert_eq!(
        plan.delete_dirs,
        vec!["a/b/c".to_string(), "a/b".to_string(), "a".to_string()]
    );
}

#[test]
fn round_trip_save_rewind_scan() {
    let mut index = SnapshotIndex::new();
    let mut store = BlobStore::new();
    let rules = IgnoreSet::new();
    save_snapshot(&mut index, &mut store, files_v1(), &rules);
    // the tree is unchanged since the save: rewinding to the snapshot
    // plans no writes, so the scan afterwards reproduces the mapping
    let live = scan(&files_v1(), &rules);
    let (_, plan) = rewind(
        &index,
        &TagMap::new(),
        &Some(RewindSelector::Back(0)),
        &live,
        &Vec::new(),
        &store,
    )
    .unwrap();
    assert!(plan.restore.is_empty());
    assert!(plan.missing.is_empty());
    assert!(plan.delete_files.is_empty());
    let snap = index.get(0);
    for (path, data) in files_v1() {
        let f = ftt::fingerprint::fingerprint(&data);
        assert_eq!(live.get(&path).unwrap(), &f);
        assert_eq!(snap.files.get(&path).unwrap(), &f);
    }
}

#[test]
fn tagged_snapshot_diffs_empty_against_itself() {
    let mut index = SnapshotIndex::new();
    let mut store = BlobStore::new();
    let mut tags = TagMap::new();
    let rules = IgnoreSet::new();
    save_snapshot(&mut index, &mut store, files_v1(), &rules);
    save_snapshot(&mut index, &mut store, files_v2(), &rules);
    tag_snapshot(&mut tags, &index, "v1".to_string(), 2).unwrap();
    let report = diff_snapshots(
        &index,
        &tags,
        &Some(SnapSelector::ByTag("v1".to_string())),
        &Some(SnapSelector::ById(2)),
    )
    .unwrap();
    assert!(report.is_empty());
}

#[test]
fn ignored_paths_stay_out_of_every_scan() {
    let rules = parse_ignore_patterns("*.log\nbuild/\n");
    let files = vec![
        ("build/out.log".to_string(), b"x".to_vec()),
        ("notes.log".to_string(), b"y".to_vec()),
        ("keep.txt".to_string(), b"z".to_vec()),
    ];
    let m = scan(&files, &rules);
    assert_eq!(m.len(), 1);
    assert!(m.get("keep.txt").is_some());
    assert!(m.get("notes.log").is_none());
    assert!(m.get("build/out.log").is_none());
}

#[test]
fn metadata_directory_is_never_scanned() {
    let rules = IgnoreSet::new();
    let files = vec![
        (".ftt/index.json".to_string(), b"x".to_vec()),
        ("real.txt".to_string(), b"y".to_vec()),
    ];
    let m = scan(&files, &rules);
    assert_eq!(m.len(), 1);
    assert!(m.get("real.txt").is_some());
}

#[test]
fn status_reports_changes_against_latest() {
    let mut index = SnapshotIndex::new();
    let mut store = BlobStore::new();
    let rules = IgnoreSet::new();
    save_snapshot(&mut index, &mut store, files_v1(), &rules);
    let live_same = scan(&files_v1(), &rules);
    assert!(status(&index, &live_same).unwrap().is_empty());
    let live_changed = scan(&files_v2(), &rules);
    let report = status(&index, &live_changed).unwrap();
    assert_eq!(report.modified, vec!["a.txt".to_string()]);
    assert_eq!(report.added, vec!["c.txt".to_string()]);
}

#[test]
fn status_on_empty_index_is_no_snapshots() {
    let index = SnapshotIndex::new();
    let live = scan(&files_v1(), &IgnoreSet::new());
    assert_eq!(status(&index, &live).unwrap_err(), FttError::NoSnapshots);
}

#[test]
fn selector_errors() {
    let mut index = SnapshotIndex::new();
    let mut store = BlobStore::new();
    let mut tags = TagMap::new();
    let rules = IgnoreSet::new();

    // empty history refuses diff and rewind outright
    let live = scan(&files_v1(), &rules);
    assert_eq!(
        diff_snapshots(&index, &tags, &Some(SnapSelector::ById(1)), &Some(SnapSelector::ById(1)))
            .unwrap_err(),
        FttError::NoSnapshots
    );
    assert_eq!(
        rewind(&index, &tags, &Some(RewindSelector::Back(0)), &live, &Vec::new(), &store)
            .unwrap_err(),
        FttError::NoSnapshots
    );

    save_snapshot(&mut index, &mut store, files_v1(), &rules);

    assert_eq!(
        diff_snapshots(&index, &tags, &None, &Some(SnapSelector::ById(1))).unwrap_err(),
        FttError::AmbiguousSelector
    );
    assert_eq!(
        diff_snapshots(&index, &tags, &Some(SnapSelector::ById(9)), &Some(SnapSelector::ById(1)))
            .unwrap_err(),
        FttError::UnknownSnapshot
    );
    assert_eq!(
        diff_snapshots(
            &index,
            &tags,
            &Some(SnapSelector::ByTag("missing".to_string())),
            &Some(SnapSelector::ById(1))
        )
        .unwrap_err(),
        FttError::UnknownTag
    );
    assert_eq!(
        rewind(&index, &tags, &Some(RewindSelector::Back(5)), &live, &Vec::new(), &store)
            .unwrap_err(),
        FttError::OutOfRange
    );
    assert_eq!(
        rewind(&index, &tags, &None, &live, &Vec::new(), &store).unwrap_err(),
        FttError::AmbiguousSelector
    );
    assert_eq!(
        tag_snapshot(&mut tags, &index, "v9".to_string(), 9).unwrap_err(),
        FttError::UnknownSnapshot
    );
}

#[test]
fn missing_blob_is_reported_not_fatal() {
    let mut index = SnapshotIndex::new();
    let mut store = BlobStore::new();
    let rules = IgnoreSet::new();
    save_snapshot(&mut index, &mut store, files_v1(), &rules);
    // a store rebuilt without the saved objects simulates tampering
    let empty_store = BlobStore::new();
    let live = scan(&vec![("b.txt".to_string(), b"world".to_vec())], &rules);
    let (_, plan) = rewind(
        &index,
        &TagMap::new(),
        &Some(RewindSelector::Back(0)),
        &live,
        &Vec::new(),
        &empty_store,
    )
    .unwrap();
    assert!(plan.restore.is_empty());
    assert_eq!(plan.missing, vec!["a.txt".to_string()]);
}

#[test]
fn tag_overwrites_label() {
    let mut index = SnapshotIndex::new();
    let mut store = BlobStore::new();
    let mut tags = TagMap::new();
    let rules = IgnoreSet::new();
    save_snapshot(&mut index, &mut store, files_v1(), &rules);
    save_snapshot(&mut index, &mut store, files_v2(), &rules);
    tag_snapshot(&mut tags, &index, "v".to_string(), 1).unwrap();
    tag_snapshot(&mut tags, &index, "v".to_string(), 2).unwrap();
    assert_eq!(tags.get_id("v"), Some(2));
}

#[test]
fn store_rebuild_checks_content() {
    let f = ftt::fingerprint::fingerprint(b"data");
    let good = vec![(f.clone(), b"data".to_vec())];
    let rebuilt = BlobStore::from_objects(good).unwrap();
    assert_eq!(rebuilt.len(), 1);
    assert_eq!(rebuilt.get(&f).unwrap(), &b"data".to_vec());
    let bad = vec![("0000".to_string(), b"data".to_vec())];
    assert!(BlobStore::from_objects(bad).is_none());
    let doubled = vec![(f.clone(), b"data".to_vec()), (f.clone(), b"data".to_vec())];
    assert!(BlobStore::from_objects(doubled).is_none());
    assert!(BlobStore::from_objects(Vec::new()).is_some());
}

#[test]
fn index_rebuild_checks_ids() {
    let good = vec![
        (1u32, vec![("a".to_string(), "f1".to_string())]),
        (2u32, vec![("b".to_string(), "f2".to_string())]),
    ];
    let ix = SnapshotIndex::from_records(good).unwrap();
    assert_eq!(ix.len(), 2);
    let bad = vec![(2u32, vec![])];
    assert!(SnapshotIndex::from_records(bad).is_none());
    let dup = vec![(1u32, vec![
        ("a".to_string(), "f1".to_string()),
        ("a".to_string(), "f2".to_string()),
    ])];
    assert!(SnapshotIndex::from_records(dup).is_none());
    let empty = SnapshotIndex::from_records(Vec::new()).unwrap();
    assert_eq!(empty.len(), 0);
}
