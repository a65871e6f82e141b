use memmap2::MmapMut;
use mmap_store::{check_mmap_file_name_pattern, chunk_files_in_order, chunk_name, MmapChunk, StoreError};

fn names(list: &[&str]) -> Vec<String> {
    list.iter().map(|s| s.to_string()).collect()
}

#[test]
fn test_chunk_name_pattern() {
    assert_eq!(check_mmap_file_name_pattern("chunk_0.mmap"), Some(0));
    assert_eq!(check_mmap_file_name_pattern("chunk_7.mmap"), Some(7));
    assert_eq!(check_mmap_file_name_pattern("chunk_123.mmap"), Some(123));
    assert_eq!(check_mmap_file_name_pattern("chunk_007.mmap"), Some(7));
    assert_eq!(check_mmap_file_name_pattern("chunk_.mmap"), None);
    assert_eq!(check_mmap_file_name_pattern("chunk_1.mmapx"), None);
    assert_eq!(check_mmap_file_name_pattern("xchunk_1.mmap"), None);
    assert_eq!(check_mmap_file_name_pattern("chunk_1x.mmap"), None);
    assert_eq!(check_mmap_file_name_pattern("status.dat"), None);
    assert_eq!(check_mmap_file_name_pattern(""), None);
    // A value beyond the platform's address width does not parse.
    assert_eq!(
        check_mmap_file_name_pattern("chunk_99999999999999999999999.mmap"),
        None
    );
}

#[test]
fn test_chunk_name_builds_canonical_path() {
    assert_eq!(chunk_name("dir", 0), "dir/chunk_0.mmap");
    assert_eq!(chunk_name("dir", 42), "dir/chunk_42.mmap");
    assert_eq!(chunk_name("a/b", 1230), "a/b/chunk_1230.mmap");
}

#[test]
fn test_chunk_name_roundtrips_through_pattern() {
    for id in [0usize, 1, 9, 10, 99, 100, 12345] {
        let path = chunk_name("d", id);
        let name = path.strip_prefix("d/").unwrap();
        assert_eq!(check_mmap_file_name_pattern(name), Some(id));
    }
}

#[test]
fn test_discover_missing_chunk_is_corrupt() {
    let r = chunk_files_in_order(&names(&["chunk_0.mmap", "chunk_2.mmap"]));
    assert_eq!(r, Err(StoreError::CorruptState));
}

#[test]
fn test_discover_orders_by_id() {
    let r = chunk_files_in_order(&names(&[
        "chunk_2.mmap",
        "chunk_0.mmap",
        "something.else",
        "chunk_1.mmap",
    ]))
    .unwrap();
    assert_eq!(r, names(&["chunk_0.mmap", "chunk_1.mmap", "chunk_2.mmap"]));
}

#[test]
fn test_discover_empty_directory() {
    let r = chunk_files_in_order(&names(&["status.dat", "flags_a.dat"])).unwrap();
    assert_eq!(r, Vec::<String>::new());
}

#[test]
fn test_discover_single_created_chunk() {
    // A freshly created chunk is found again as exactly one chunk of the
    // requested byte length, all zero.
    let chunk = MmapChunk::new(MmapMut::map_anon(64).unwrap());
    let listing = names(&["chunk_0.mmap"]);
    let r = chunk_files_in_order(&listing).unwrap();
    assert_eq!(r.len(), 1);
    assert_eq!(check_mmap_file_name_pattern(&r[0]), Some(0));
    assert_eq!(chunk.byte_len(), 64);
    assert!(chunk.data().iter().all(|b| *b == 0));
}

#[test]
fn test_discover_missing_zero_is_corrupt() {
    let r = chunk_files_in_order(&names(&["chunk_1.mmap"]));
    assert_eq!(r, Err(StoreError::CorruptState));
}

#[test]
fn test_discover_duplicate_ids_keep_one_name() {
    let r = chunk_files_in_order(&names(&["chunk_0.mmap", "chunk_00.mmap"])).unwrap();
    assert_eq!(r.len(), 1);
    assert_eq!(check_mmap_file_name_pattern(&r[0]), Some(0));
}

#[test]
fn test_chunk_elements_roundtrip() {
    let mut chunk = MmapChunk::new(MmapMut::map_anon(16).unwrap());
    assert_eq!(chunk.byte_len(), 16);
    assert_eq!(chunk.element_count(), 4);
    chunk.write_element(0, 0x01020304);
    chunk.write_element(3, 0xDEADBEEF);
    assert_eq!(chunk.read_element(0), 0x01020304);
    assert_eq!(chunk.read_element(1), 0);
    assert_eq!(chunk.read_element(2), 0);
    assert_eq!(chunk.read_element(3), 0xDEADBEEF);
    // Elements are packed little-endian.
    assert_eq!(&chunk.data()[0..4], &[0x04, 0x03, 0x02, 0x01]);
    chunk.flusher().unwrap();
}

#[test]
fn test_chunk_data_mut_writes_land_in_the_mapping() {
    let mut chunk = MmapChunk::new(MmapMut::map_anon(8).unwrap());
    chunk.data_mut()[5] = 0xAB;
    assert_eq!(chunk.data()[5], 0xAB);
    assert_eq!(chunk.read_element(1), 0x0000AB00);
}
