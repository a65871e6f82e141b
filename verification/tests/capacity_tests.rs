use mmap_store::capacity::mmap_max_current_size;
use mmap_store::mmap_capacity_bytes;

#[test]
fn test_capacity() {
    assert_eq!(mmap_capacity_bytes(0), 128);
    assert_eq!(mmap_capacity_bytes(1), 128);
    assert_eq!(mmap_capacity_bytes(1023), 128);
    assert_eq!(mmap_capacity_bytes(1024), 128);
    assert_eq!(mmap_capacity_bytes(1025), 256);
    assert_eq!(mmap_capacity_bytes(10000), 2048);
}

#[test]
fn test_capacity_is_deterministic_and_doubles() {
    // The floor covers every count up to eight flags per floor byte.
    for n in 0..=1024 {
        assert_eq!(mmap_capacity_bytes(n), 128);
    }
    assert_eq!(mmap_capacity_bytes(0), mmap_capacity_bytes(0));
    // One flag past a capacity boundary doubles the file.
    assert_eq!(mmap_capacity_bytes(2048), 256);
    assert_eq!(mmap_capacity_bytes(2049), 512);
    assert_eq!(mmap_capacity_bytes(4096), 512);
    assert_eq!(mmap_capacity_bytes(4097), 1024);
    assert_eq!(mmap_capacity_bytes(16384), 2048);
    assert_eq!(mmap_capacity_bytes(16385), 4096);
}

#[test]
fn test_max_current_size() {
    assert_eq!(mmap_max_current_size(0), 1024);
    assert_eq!(mmap_max_current_size(1024), 1024);
    assert_eq!(mmap_max_current_size(1025), 2048);
    assert_eq!(mmap_max_current_size(5000), 8192);
}
