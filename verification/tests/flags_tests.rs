use memmap2::MmapMut;
use mmap_store::{mmap_capacity_bytes, DynamicMmapFlags, FileId, StoreError};
use rand::prelude::StdRng;
use rand::{Rng, SeedableRng};

fn open_fresh(directory: &str) -> DynamicMmapFlags {
    let status_mmap = MmapMut::map_anon(16).unwrap();
    let flags_mmap = MmapMut::map_anon(mmap_capacity_bytes(0)).unwrap();
    DynamicMmapFlags::open(status_mmap, flags_mmap, directory.to_string()).unwrap()
}

/// Grows the store, creating the other slot's mapping when growth
/// crosses a capacity boundary.
fn grow(store: &mut DynamicMmapFlags, new_len: usize) {
    match store.set_len(new_len).unwrap() {
        None => {}
        Some(plan) => {
            let new_mmap = MmapMut::map_anon(plan.capacity_bytes).unwrap();
            store.apply_rotation(new_len, new_mmap).unwrap();
        }
    }
}

fn reopen(store: DynamicMmapFlags, directory: &str) -> DynamicMmapFlags {
    let (status_mmap, flags_mmap) = store.into_mmaps();
    DynamicMmapFlags::open(status_mmap, flags_mmap, directory.to_string()).unwrap()
}

#[test]
fn test_bitflags_saving() {
    let num_flags = 5000;
    let mut rng = StdRng::seed_from_u64(42);

    let random_flags: Vec<bool> = (0..num_flags).map(|_| rng.gen()).collect();

    let mut dynamic_flags = open_fresh("storage_dir");
    grow(&mut dynamic_flags, num_flags);
    for (i, flag) in random_flags.iter().enumerate() {
        if *flag {
            assert!(!dynamic_flags.set(i, true));
        }
    }
    // File swapping happens every 1024 (MINIMAL_MMAP_SIZE) flags
    // < 1024 -> A
    // < 2048 -> B
    // < 4096 -> A
    // < 8192 -> B
    // < 16384 -> A
    let expected_current_file_id = FileId::B;
    assert_eq!(dynamic_flags.current_file_id(), expected_current_file_id);

    grow(&mut dynamic_flags, num_flags * 2);
    for (i, flag) in random_flags.iter().enumerate() {
        if !flag {
            assert!(!dynamic_flags.set(num_flags + i, true));
        }
    }

    let expected_current_file_id = FileId::A;
    assert_eq!(dynamic_flags.current_file_id(), expected_current_file_id);

    dynamic_flags.flusher().unwrap();

    let dynamic_flags = reopen(dynamic_flags, "storage_dir");
    assert_eq!(dynamic_flags.len(), num_flags * 2);
    for (i, flag) in random_flags.iter().enumerate() {
        assert_eq!(dynamic_flags.get(i), *flag);
        assert_eq!(dynamic_flags.get(num_flags + i), !*flag);
    }
}

#[test]
fn test_slot_alternates_only_at_capacity_boundaries() {
    let mut store = open_fresh("dir");
    assert_eq!(store.current_file_id(), FileId::A);

    // Within the 128-byte floor (1024 flags): no rotation.
    grow(&mut store, 512);
    assert_eq!(store.current_file_id(), FileId::A);
    grow(&mut store, 1024);
    assert_eq!(store.current_file_id(), FileId::A);

    // Each capacity-exceeding growth flips the slot.
    grow(&mut store, 1025);
    assert_eq!(store.current_file_id(), FileId::B);
    grow(&mut store, 2048);
    assert_eq!(store.current_file_id(), FileId::B);
    grow(&mut store, 2049);
    assert_eq!(store.current_file_id(), FileId::A);
    grow(&mut store, 4097);
    assert_eq!(store.current_file_id(), FileId::B);
    grow(&mut store, 5000);
    assert_eq!(store.current_file_id(), FileId::B);
    assert_eq!(store.len(), 5000);
}

#[test]
fn test_set_returns_previous_value() {
    let mut store = open_fresh("dir");
    grow(&mut store, 10);
    assert_eq!(store.set(3, true), false);
    assert_eq!(store.set(3, true), true);
    assert_eq!(store.set(3, false), true);
    assert_eq!(store.set(3, false), false);
    assert_eq!(store.get(3), false);
    assert_eq!(store.set(3, true), false);
    assert_eq!(store.get(3), true);
}

#[test]
fn test_out_of_range_keys_are_harmless() {
    let mut store = open_fresh("dir");
    grow(&mut store, 100);
    assert_eq!(store.get(100), false);
    assert_eq!(store.get(usize::MAX), false);
    assert_eq!(store.set(100, true), false);
    assert_eq!(store.set(usize::MAX, true), false);
    // The ignored writes left nothing behind: growth exposes unset flags.
    grow(&mut store, 200);
    assert_eq!(store.get(100), false);
    for k in 0..200 {
        assert_eq!(store.get(k), false);
    }
}

#[test]
fn test_growth_keeps_values_and_new_flags_read_false() {
    let mut store = open_fresh("dir");
    grow(&mut store, 100);
    store.set(0, true);
    store.set(99, true);
    // Within capacity.
    grow(&mut store, 1000);
    assert!(store.get(0));
    assert!(store.get(99));
    for k in 100..1000 {
        assert!(!store.get(k));
    }
    // Across a rotation.
    grow(&mut store, 3000);
    assert!(store.get(0));
    assert!(store.get(99));
    for k in 100..3000 {
        assert!(!store.get(k));
    }
}

#[test]
fn test_shrinking_fails_and_changes_nothing() {
    let mut store = open_fresh("dir");
    grow(&mut store, 50);
    store.set(7, true);
    assert!(matches!(store.set_len(49), Err(StoreError::InvalidArgument)));
    assert_eq!(store.len(), 50);
    assert!(store.get(7));
    // Growing to the current length is a quiet no-op.
    assert_eq!(store.set_len(50).unwrap().is_none(), true);
    assert_eq!(store.len(), 50);
}

#[test]
fn test_flush_reopen_roundtrip() {
    let mut store = open_fresh("dir");
    grow(&mut store, 20);
    store.set(11, true);
    store.flusher().unwrap();
    let store = reopen(store, "dir");
    assert_eq!(store.len(), 20);
    assert_eq!(store.get(11), true);
    assert_eq!(store.get(12), false);
}

#[test]
fn test_open_rejects_bad_status() {
    // An unknown slot tag is corruption.
    let mut status_mmap = MmapMut::map_anon(16).unwrap();
    status_mmap[8] = 2;
    let flags_mmap = MmapMut::map_anon(128).unwrap();
    let r = DynamicMmapFlags::open(status_mmap, flags_mmap, "dir".to_string());
    assert!(matches!(r, Err(StoreError::CorruptState)));

    // A status record of the wrong size is corruption.
    let status_mmap = MmapMut::map_anon(15).unwrap();
    let flags_mmap = MmapMut::map_anon(128).unwrap();
    let r = DynamicMmapFlags::open(status_mmap, flags_mmap, "dir".to_string());
    assert!(matches!(r, Err(StoreError::CorruptState)));

    // A flags mapping whose size is not the capacity the length implies
    // is rejected.
    let status_mmap = MmapMut::map_anon(16).unwrap();
    let flags_mmap = MmapMut::map_anon(64).unwrap();
    let r = DynamicMmapFlags::open(status_mmap, flags_mmap, "dir".to_string());
    assert!(matches!(r, Err(StoreError::InvalidArgument)));
}

#[test]
fn test_open_clears_stale_bits_beyond_length() {
    // A crash can leave set bits beyond the persisted length; opening
    // brings them back to false so growth exposes only unset flags.
    let status_mmap = MmapMut::map_anon(16).unwrap();
    let mut flags_mmap = MmapMut::map_anon(128).unwrap();
    for b in flags_mmap.iter_mut() {
        *b = 0xFF;
    }
    let mut store =
        DynamicMmapFlags::open(status_mmap, flags_mmap, "dir".to_string()).unwrap();
    assert_eq!(store.len(), 0);
    grow(&mut store, 1024);
    for k in 0..1024 {
        assert!(!store.get(k));
    }
}

#[test]
fn test_files_reports_status_and_active_slot() {
    let mut store = open_fresh("storage");
    let files = store.files();
    assert_eq!(files, vec!["storage/status.dat".to_string(), "storage/flags_a.dat".to_string()]);
    grow(&mut store, 2000);
    let files = store.files();
    assert_eq!(files, vec!["storage/status.dat".to_string(), "storage/flags_b.dat".to_string()]);
}

#[test]
fn test_get_bitslice_matches_get() {
    let mut store = open_fresh("dir");
    grow(&mut store, 12);
    store.set(1, true);
    store.set(9, true);
    let bits = store.get_bitslice();
    assert_eq!(bits.len(), 12);
    for (k, bit) in bits.iter().enumerate() {
        assert_eq!(*bit, store.get(k));
    }
    assert_eq!(
        bits,
        vec![
            false, true, false, false, false, false, false, false, false, true, false, false
        ]
    );
}

#[test]
fn test_status_record_on_disk_layout() {
    // The status record is an 8-byte little-endian length followed by an
    // 8-byte little-endian slot tag, 0 for A and 1 for B.
    let mut store = open_fresh("dir");
    grow(&mut store, 0x1234); // crosses the 1024-flag floor: slot B
    assert_eq!(store.current_file_id(), FileId::B);
    store.flusher().unwrap();
    let (status_mmap, _flags_mmap) = store.into_mmaps();
    let record: &[u8] = &status_mmap[..];
    assert_eq!(record.len(), 16);
    assert_eq!(&record[0..8], &[0x34, 0x12, 0, 0, 0, 0, 0, 0]);
    assert_eq!(&record[8..16], &[1, 0, 0, 0, 0, 0, 0, 0]);
}

#[test]
fn test_status_file_path() {
    assert_eq!(mmap_store::status_file("some/dir"), "some/dir/status.dat");
}
