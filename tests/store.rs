use odb_index::store::{
    DiskState, Error, IndexFile, Next, Outcome, RefreshMode, SingleOrMultiIndex, SlotIndexMarker, Snapshot,
    Store,
};

fn single(path: &str, token: Option<u64>) -> IndexFile {
    IndexFile::Single { path: path.as_bytes().to_vec(), index: token }
}

fn disk(indices: Vec<IndexFile>) -> DiskState {
    DiskState { indices, loose_dbs: vec![b"objects".to_vec()] }
}

fn ids(s: &Snapshot) -> Vec<usize> {
    s.indices.iter().map(|l| l.id).collect()
}

fn tokens(s: &Snapshot) -> Vec<u64> {
    s.indices
        .iter()
        .map(|l| match &l.file {
            SingleOrMultiIndex::Single { index, .. } => *index,
            SingleOrMultiIndex::Multi { index, .. } => *index,
        })
        .collect()
}

/// Runs the whole refresh protocol against a fixed disk state.
fn refresh(store: &mut Store, mode: RefreshMode, marker: Option<SlotIndexMarker>, d: &DiskState) -> Option<Outcome> {
    match store.load_next_indices(mode, marker) {
        Next::Done(o) => o,
        Next::ScanDisk(seen) => store.consolidate_with_disk_state(seen, d).expect("no concurrent change"),
    }
}

fn initialized(files: Vec<IndexFile>) -> Store {
    let mut store = Store::new();
    let d = disk(files);
    refresh(&mut store, RefreshMode::Never, None, &d);
    store
}

#[test]
fn first_refresh_consolidates_with_disk() {
    let mut store = Store::new();
    assert!(!store.is_initialized());
    assert!(matches!(store.load_next_indices(RefreshMode::Never, None), Next::ScanDisk(0)));
    let d = disk(vec![single("a.idx", Some(10)), single("b.idx", Some(11))]);
    match store.consolidate_with_disk_state(0, &d) {
        Ok(Some(Outcome::Replace(s))) => {
            assert_eq!(ids(&s), vec![0, 1]);
            assert_eq!(tokens(&s), vec![10, 11]);
            assert_eq!(s.loose_dbs, vec![b"objects".to_vec()]);
            assert_eq!(s.marker, SlotIndexMarker { generation: 0, state_id: 1 });
        }
        _ => panic!("expected a plain replacement"),
    }
    assert!(store.is_initialized());
    assert_eq!(store.num_disk_state_consolidations(), 1);
}

#[test]
fn first_refresh_on_empty_disk_still_replaces() {
    let mut store = Store::new();
    match refresh(&mut store, RefreshMode::AfterAllIndicesLoaded, None, &disk(vec![])) {
        Some(Outcome::Replace(s)) => {
            assert!(s.indices.is_empty());
            assert_eq!(s.marker.state_id, 1);
        }
        _ => panic!("expected a plain replacement"),
    }
}

#[test]
fn added_pack_gives_stable_replacement() {
    let mut store = initialized(vec![single("a.idx", Some(10))]);
    let marker = store.marker();
    let d = disk(vec![single("b.idx", Some(11)), single("a.idx", Some(99))]);
    match store.load_next_indices(RefreshMode::AfterAllIndicesLoaded, Some(marker)) {
        Next::ScanDisk(seen) => {
            assert_eq!(seen, marker.state_id);
            match store.consolidate_with_disk_state(seen, &d) {
                Ok(Some(Outcome::ReplaceStable(s))) => {
                    assert_eq!(ids(&s), vec![0, 1]);
                    assert_eq!(tokens(&s), vec![10, 11]);
                    assert_eq!(s.marker, SlotIndexMarker { generation: 0, state_id: 2 });
                }
                _ => panic!("expected a stable replacement"),
            }
        }
        _ => panic!("expected a disk scan"),
    }
}

#[test]
fn state_change_within_generation_is_stable_without_disk() {
    let mut store = initialized(vec![single("a.idx", Some(10))]);
    let old = store.marker();
    let d = disk(vec![single("a.idx", Some(10)), single("b.idx", Some(11))]);
    refresh(&mut store, RefreshMode::AfterAllIndicesLoaded, Some(old), &d);
    match store.load_next_indices(RefreshMode::Never, Some(old)) {
        Next::Done(Some(Outcome::ReplaceStable(s))) => {
            assert_eq!(ids(&s), vec![0, 1]);
            assert_eq!(tokens(&s)[0], 10);
        }
        _ => panic!("expected a stable replacement"),
    }
}

#[test]
fn generation_bump_gives_plain_replacement() {
    let mut store = initialized(vec![single("a.idx", Some(10)), single("b.idx", Some(11))]);
    let old = store.marker();
    let d = disk(vec![single("b.idx", Some(50)), single("c.idx", Some(12))]);
    match store.consolidate_with_disk_state(old.state_id, &d) {
        Ok(Some(Outcome::Replace(s))) => {
            assert_eq!(ids(&s), vec![0, 1]);
            assert_eq!(tokens(&s), vec![11, 12]);
            assert_eq!(s.marker, SlotIndexMarker { generation: 1, state_id: 2 });
        }
        _ => panic!("expected a plain replacement"),
    }
    match store.load_next_indices(RefreshMode::Never, Some(old)) {
        Next::Done(Some(Outcome::Replace(s))) => assert_eq!(s.marker.generation, 1),
        _ => panic!("expected a plain replacement"),
    }
}

#[test]
fn stable_handle_keeps_vanished_packs() {
    let mut store = initialized(vec![single("a.idx", Some(10)), single("b.idx", Some(11))]);
    let h = store.register_handle(true);
    assert!(h.requires_stable_ids);
    let seen = store.marker().state_id;
    let d = disk(vec![single("b.idx", Some(11))]);
    assert!(matches!(store.consolidate_with_disk_state(seen, &d), Ok(None)));
    assert_eq!(store.marker(), SlotIndexMarker { generation: 0, state_id: 1 });
    store.deregister_handle(h);
    match store.consolidate_with_disk_state(seen, &d) {
        Ok(Some(Outcome::Replace(s))) => assert_eq!(tokens(&s), vec![11]),
        _ => panic!("expected a plain replacement"),
    }
}

#[test]
fn never_refresh_is_idempotent() {
    let mut store = initialized(vec![single("a.idx", Some(10))]);
    let m = store.marker();
    for _ in 0..3 {
        assert!(matches!(store.load_next_indices(RefreshMode::Never, Some(m)), Next::Done(None)));
    }
    assert_eq!(store.num_disk_state_consolidations(), 1);
    let d = disk(vec![single("a.idx", Some(10))]);
    assert!(refresh(&mut store, RefreshMode::AfterAllIndicesLoaded, Some(m), &d).is_none());
    assert_eq!(store.marker(), m);
    assert_eq!(store.num_disk_state_consolidations(), 2);
}

#[test]
fn unload_needs_no_stable_handle() {
    let mut store = initialized(vec![single("a.idx", Some(10))]);
    assert!(store.may_unload_packs());
    let plain = store.register_handle(false);
    assert!(store.may_unload_packs());
    let stable1 = store.register_handle(true);
    let stable2 = store.register_handle(true);
    assert!(!store.may_unload_packs());
    assert!(store.load_pack_data(0, 0, 7));
    assert!(!store.unload_packs());
    store.deregister_handle(stable1);
    assert!(!store.may_unload_packs());
    store.deregister_handle(stable2);
    assert!(store.may_unload_packs());
    assert!(store.unload_packs());
    match &store.collect_snapshot().indices[0].file {
        SingleOrMultiIndex::Single { index, data } => {
            assert_eq!(*index, 10);
            assert_eq!(*data, None);
        }
        _ => panic!("expected a single pack"),
    }
    store.deregister_handle(plain);
}

#[test]
fn snapshot_is_unaffected_by_later_changes() {
    let mut store = initialized(vec![single("a.idx", Some(10))]);
    let s = store.collect_snapshot();
    let d = disk(vec![single("b.idx", Some(11))]);
    let seen = store.marker().state_id;
    store.consolidate_with_disk_state(seen, &d).unwrap();
    assert!(store.unload_packs());
    assert_eq!(ids(&s), vec![0]);
    assert_eq!(tokens(&s), vec![10]);
    assert_eq!(s.marker, SlotIndexMarker { generation: 0, state_id: 1 });
    assert_eq!(store.marker(), SlotIndexMarker { generation: 1, state_id: 2 });
}

#[test]
fn markers_never_go_back() {
    let mut store = Store::new();
    let mut seen = vec![store.marker()];
    let steps = vec![
        vec![single("a.idx", Some(1))],
        vec![single("a.idx", Some(1)), single("b.idx", Some(2))],
        vec![single("b.idx", Some(2))],
        vec![single("b.idx", Some(2))],
        vec![],
    ];
    for files in steps {
        let d = disk(files);
        let m = store.marker();
        refresh(&mut store, RefreshMode::AfterAllIndicesLoaded, Some(m), &d);
        seen.push(store.marker());
    }
    for w in seen.windows(2) {
        assert!((w[0].generation, w[0].state_id) <= (w[1].generation, w[1].state_id));
    }
    assert_eq!(store.marker(), SlotIndexMarker { generation: 2, state_id: 4 });
}

#[test]
fn unloaded_slots_are_left_out_until_loaded() {
    let mut store = initialized(vec![single("a.idx", None), single("b.idx", Some(11))]);
    let s = store.collect_snapshot();
    assert_eq!(ids(&s), vec![1]);
    assert!(store.load_index(0, 10));
    assert!(!store.load_index(0, 12));
    assert!(!store.load_index(5, 12));
    let s = store.collect_snapshot();
    assert_eq!(ids(&s), vec![0, 1]);
    assert_eq!(tokens(&s), vec![10, 11]);
}

#[test]
fn multi_index_slots_track_their_packs() {
    let multi = IndexFile::Multi { path: b"multi-pack-index".to_vec(), multi_index: Some(3), num_packs: 2 };
    let mut store = initialized(vec![multi]);
    assert!(store.load_pack_data(0, 1, 8));
    assert!(!store.load_pack_data(0, 1, 9));
    assert!(!store.load_pack_data(0, 2, 9));
    match &store.collect_snapshot().indices[0].file {
        SingleOrMultiIndex::Multi { index, data } => {
            assert_eq!(*index, 3);
            assert_eq!(data, &vec![None, Some(8)]);
        }
        _ => panic!("expected a multi-pack index"),
    }
}

#[test]
fn stale_scan_is_refused() {
    let mut store = initialized(vec![single("a.idx", Some(10))]);
    let d = disk(vec![single("b.idx", Some(11))]);
    assert!(matches!(store.consolidate_with_disk_state(0, &d), Err(Error::StateChanged)));
    assert_eq!(store.marker().state_id, 1);
    assert_eq!(store.num_disk_state_consolidations(), 1);
}

#[test]
fn changed_loose_dbs_bump_state() {
    let mut store = initialized(vec![single("a.idx", Some(10))]);
    let d = DiskState {
        indices: vec![single("a.idx", Some(10))],
        loose_dbs: vec![b"objects".to_vec(), b"alternate/objects".to_vec()],
    };
    match store.consolidate_with_disk_state(1, &d) {
        Ok(Some(Outcome::ReplaceStable(s))) => {
            assert_eq!(s.loose_dbs.len(), 2);
            assert_eq!(ids(&s), vec![0]);
        }
        _ => panic!("expected a stable replacement"),
    }
}

#[test]
fn handle_follows_the_snapshots_it_obtains() {
    let mut store = Store::new();
    let mut handle = store.register_handle(false);
    assert!(handle.marker.is_none());
    let d = disk(vec![single("a.idx", Some(10))]);
    match refresh(&mut store, RefreshMode::Never, handle.marker, &d) {
        Some(Outcome::Replace(s)) => handle.observe(&s),
        _ => panic!("expected a plain replacement"),
    }
    assert_eq!(handle.marker, Some(store.marker()));
    assert!(!handle.requires_stable_ids);
    assert!(matches!(store.load_next_indices(RefreshMode::Never, handle.marker), Next::Done(None)));
    store.deregister_handle(handle);
}
