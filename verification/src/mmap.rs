//! The trusted boundary to `memmap2`: a writable memory mapping is held
//! as an opaque value whose current content is named by `map_bytes`, and
//! read, written and flushed through the small wrappers below. Everything
//! above this module is verified against these contracts.
//!
//! The contracts treat a mapping's content as owned by its `MmapMut`
//! value. That matches the store's single-writer model: no two live
//! mappings may be opened over the same file for writing at once, which
//! is the caller's discipline to keep.

use vstd::prelude::*;

use crate::errors::StoreError;

verus! {

#[verifier::external_type_specification]
#[verifier::external_body]
pub struct ExMmapMut(memmap2::MmapMut);

/// The bytes a writable memory mapping currently holds.
pub uninterp spec fn map_bytes(m: memmap2::MmapMut) -> Seq<u8>;

/// Relies on `memmap2::MmapMut`'s `Deref` view as a byte slice: the
/// mapping's length in bytes, fixed for the mapping's lifetime.
#[verifier::external_body]
pub(crate) fn mmap_len(m: &memmap2::MmapMut) -> (r: usize)
    ensures
        r == map_bytes(*m).len(),
{
    m.len()
}

/// Relies on `memmap2::MmapMut`'s `Deref` view as a byte slice: reads
/// one byte of the mapping.
#[verifier::external_body]
pub(crate) fn mmap_read(m: &memmap2::MmapMut, i: usize) -> (r: u8)
    requires
        i < map_bytes(*m).len(),
    ensures
        r == map_bytes(*m)[i as int],
{
    m[i]
}

/// Relies on `memmap2::MmapMut`'s `DerefMut` view as a byte slice:
/// writes one byte of the mapping in place.
#[verifier::external_body]
pub(crate) fn mmap_write(m: &mut memmap2::MmapMut, i: usize, b: u8)
    requires
        i < map_bytes(*old(m)).len(),
    ensures
        map_bytes(*final(m)) == map_bytes(*old(m)).update(i as int, b),
{
    m[i] = b;
}

/// Relies on `memmap2::MmapMut::flush`: synchronously flushes the
/// mapping's outstanding modifications to durable storage. The content
/// is not changed, and every failure surfaces as an I/O error.
#[verifier::external_body]
pub(crate) fn mmap_flush(m: &memmap2::MmapMut) -> (r: Result<(), StoreError>)
    ensures
        r matches Err(e) ==> e == StoreError::IoError,
{
    match m.flush() {
        Ok(()) => Ok(()),
        Err(_) => Err(StoreError::IoError),
    }
}

} // verus!
