//! The growable, persistent flag vector. A handle owns two live
//! mappings: the 16-byte status record and the active slot's flags file,
//! whose byte length is always `mmap_capacity_bytes(len)`. Growth within
//! that capacity only rewrites the status record; growth past it rotates
//! to the other slot: the caller supplies a fresh mapping of the new
//! capacity (created at the path the returned plan names), the old file's
//! content is copied forward, and the status record then names the new
//! slot. The persisted status is the single point of truth: a crash
//! before the caller flushes simply reverts to the old slot at the old
//! length, which is still a fully valid image.

use vstd::prelude::*;

use crate::bits::{byte_clear_from, byte_get_bit, byte_set_bit, spec_bit_at, spec_byte_bit};
use crate::capacity::{
    lemma_capacity_bytes_minimal, lemma_needs_more_bytes, mmap_capacity_bytes, spec_bytes_needed,
    spec_capacity_bytes,
};
use crate::errors::StoreError;
use crate::mmap::{map_bytes, mmap_flush, mmap_len, mmap_read, mmap_write};
use crate::status::{
    decode_status, flags_file, spec_status_bytes, spec_status_of_bytes, status_file,
    DynamicMmapStatus, FileId, STATUS_RECORD_BYTES,
};

verus! {

/// What a capacity-exceeding growth needs from the filesystem: a file of
/// `capacity_bytes` bytes at `path` (the other slot's file), mapped
/// writable and handed to `apply_rotation`.
pub struct RotationPlan {
    /// The slot the store will rotate into.
    pub file_id: FileId,
    /// Exact byte length the new slot's file must have.
    pub capacity_bytes: usize,
    /// Path of the new slot's file inside the store directory.
    pub path: String,
}

/// A persistent, growable vector of single-bit flags over two
/// alternating memory-mapped files and a persisted status record.
pub struct DynamicMmapFlags {
    /// Mapping of the 16-byte status record.
    pub status_mmap: memmap2::MmapMut,
    /// In-memory image of the status record; always agrees with the
    /// bytes of `status_mmap`.
    pub status: DynamicMmapStatus,
    /// Mapping of the active slot's flags file.
    pub flags_mmap: memmap2::MmapMut,
    /// Directory that holds the status and flags files.
    pub directory: String,
}

impl View for DynamicMmapFlags {
    type V = Seq<bool>;

    /// The logical flag vector: one boolean per valid key.
    open spec fn view(&self) -> Seq<bool> {
        Seq::new(
            self.status.len as nat,
            |k: int| spec_bit_at(map_bytes(self.flags_mmap), k),
        )
    }
}

impl DynamicMmapFlags {
    /// A well-formed handle: the cached status agrees with the mapped
    /// status record, the flags mapping has exactly the capacity the
    /// length implies, and every bit at or beyond the length is unset,
    /// so that growth only ever exposes unset flags.
    pub open spec fn wf(self) -> bool {
        &&& spec_status_of_bytes(map_bytes(self.status_mmap)) == Some(self.status)
        &&& map_bytes(self.status_mmap).len() == STATUS_RECORD_BYTES
        &&& map_bytes(self.flags_mmap).len() == spec_capacity_bytes(self.status.len as int)
        &&& self.status.len <= 8 * map_bytes(self.flags_mmap).len()
        &&& forall|k: int|
            self.status.len <= k < 8 * map_bytes(self.flags_mmap).len() ==> !spec_bit_at(
                map_bytes(self.flags_mmap),
                k,
            )
    }

    /// Growth to `new_len` exceeds the active file's capacity.
    pub open spec fn spec_needs_rotation(self, new_len: int) -> bool {
        spec_bytes_needed(new_len) > map_bytes(self.flags_mmap).len()
    }

    /// Number of flags currently valid.
    pub fn len(&self) -> (r: usize)
        ensures
            r == self@.len(),
    {
        self.status.len
    }

    /// Which slot's file holds the current data.
    pub fn current_file_id(&self) -> (r: FileId)
        ensures
            r == self.status.current_file_id,
    {
        self.status.current_file_id
    }

    /// Reads the flag at `key`; any key at or beyond the current length
    /// reads `false`. Never fails.
    pub fn get(&self, key: usize) -> (r: bool)
        requires
            self.wf(),
        ensures
            r == (key < self@.len() && self@[key as int]),
    {
        if key >= self.status.len {
            return false;
        }
        proof {
            assert(key / 8 < map_bytes(self.flags_mmap).len()) by (nonlinear_arith)
                requires
                    key < 8 * map_bytes(self.flags_mmap).len(),
            ;
        }
        let byte = mmap_read(&self.flags_mmap, key / 8);
        byte_get_bit(byte, (key % 8) as u8)
    }

    /// Sets the flag at `key` to `value` and returns its previous value.
    /// A key at or beyond the current length is a silent no-op returning
    /// `false`: callers are expected to grow first.
    pub fn set(&mut self, key: usize, value: bool) -> (r: bool)
        requires
            old(self).wf(),
        ensures
            final(self).wf(),
            final(self).status == old(self).status,
            final(self).directory == old(self).directory,
            final(self).status_mmap == old(self).status_mmap,
            r == (key < old(self)@.len() && old(self)@[key as int]),
            key < old(self)@.len() ==> final(self)@ == old(self)@.update(key as int, value),
            key >= old(self)@.len() ==> *final(self) == *old(self),
    {
        if key >= self.status.len {
            return false;
        }
        let ghost old_bytes = map_bytes(self.flags_mmap);
        proof {
            assert(key / 8 < map_bytes(self.flags_mmap).len()) by (nonlinear_arith)
                requires
                    key < 8 * map_bytes(self.flags_mmap).len(),
            ;
        }
        let i = key / 8;
        let j = (key % 8) as u8;
        let byte = mmap_read(&self.flags_mmap, i);
        let prev = byte_get_bit(byte, j);
        let new_byte = byte_set_bit(byte, j, value);
        mmap_write(&mut self.flags_mmap, i, new_byte);
        proof {
            let new_bytes = map_bytes(self.flags_mmap);
            assert forall|k: int| 0 <= k < 8 * new_bytes.len() && k != key implies spec_bit_at(
                new_bytes,
                k,
            ) == spec_bit_at(old_bytes, k) by {
                if k / 8 == i {
                    assert(k % 8 != key % 8) by (nonlinear_arith)
                        requires
                            k / 8 == key / 8,
                            k != key,
                            0 <= k,
                            0 <= key,
                    ;
                }
            }
            assert(spec_bit_at(new_bytes, key as int) == value);
            assert(self@ =~= old(self)@.update(key as int, value));
        }
        prev
    }

    /// Grows the store to `new_len` flags, newly exposed flags reading
    /// `false`. Shrinking fails with `InvalidArgument` and growth to the
    /// current length is a no-op. Growth within the active file's
    /// capacity completes immediately; growth past it returns the
    /// rotation plan for the caller to create and map the other slot's
    /// file, after which `apply_rotation` completes the growth.
    pub fn set_len(&mut self, new_len: usize) -> (r: Result<Option<RotationPlan>, StoreError>)
        requires
            old(self).wf(),
        ensures
            final(self).wf(),
            final(self).directory == old(self).directory,
            match r {
                Err(e) => {
                    &&& e == StoreError::InvalidArgument
                    &&& new_len < old(self)@.len()
                    &&& *final(self) == *old(self)
                },
                Ok(None) => {
                    &&& new_len >= old(self)@.len()
                    &&& !old(self).spec_needs_rotation(new_len as int)
                    &&& final(self).status.len == new_len
                    &&& final(self).status.current_file_id == old(self).status.current_file_id
                    &&& final(self).flags_mmap == old(self).flags_mmap
                    &&& final(self)@ == old(self)@ + Seq::new(
                        (new_len - old(self)@.len()) as nat,
                        |k: int| false,
                    )
                },
                Ok(Some(plan)) => {
                    &&& new_len > old(self)@.len()
                    &&& old(self).spec_needs_rotation(new_len as int)
                    &&& *final(self) == *old(self)
                    &&& plan.file_id == old(self).status.current_file_id.spec_rotate()
                    &&& plan.capacity_bytes == spec_capacity_bytes(new_len as int)
                    &&& plan.path@ == old(self).directory@ + "/"@ + plan.file_id.spec_file_name()
                },
            },
            r is Err <==> new_len < old(self)@.len(),
    {
        if new_len < self.status.len {
            return Err(StoreError::InvalidArgument);
        }
        let bytes_needed: usize = new_len / 8 + if new_len % 8 == 0 {
            0
        } else {
            1
        };
        assert(bytes_needed == spec_bytes_needed(new_len as int));
        let current_capacity = mmap_len(&self.flags_mmap);
        if bytes_needed > current_capacity {
            let new_file_id = self.status.current_file_id.rotate();
            let plan = RotationPlan {
                file_id: new_file_id,
                capacity_bytes: mmap_capacity_bytes(new_len),
                path: flags_file(self.directory.as_str(), new_file_id),
            };
            proof {
                lemma_needs_more_bytes(new_len as int, current_capacity as int);
            }
            return Ok(Some(plan));
        }
        let ghost old_self = *self;
        let new_status = DynamicMmapStatus {
            len: new_len,
            current_file_id: self.status.current_file_id,
        };
        store_status(&mut self.status_mmap, new_status);
        self.status = new_status;
        proof {
            crate::status::lemma_status_roundtrip(new_status);
            lemma_capacity_bytes_minimal(old_self.status.len as int);
            lemma_capacity_bytes_minimal(new_len as int);
            lemma_needs_more_bytes(new_len as int, map_bytes(self.flags_mmap).len() as int);
            // The capacity implied by the new length is still the current
            // file's size: it suffices, and capacities only grow.
            assert(spec_capacity_bytes(new_len as int) <= map_bytes(self.flags_mmap).len());
            assert(spec_capacity_bytes(new_len as int) >= map_bytes(self.flags_mmap).len());
            assert(self@ =~= old(self)@ + Seq::new(
                (new_len - old(self)@.len()) as nat,
                |k: int| false,
            ));
        }
        Ok(None)
    }

    /// Completes a capacity-exceeding growth to `new_len`: copies the
    /// active file's content onto the fresh mapping of the other slot,
    /// zeroes the remainder, swaps the live mapping, and promotes the
    /// status record to the new slot and length. The promotion is not
    /// flushed here; durability is deferred to the flush call. Fails
    /// with `InvalidArgument`, changing nothing, unless `new_len` grows
    /// the store past its current capacity and the mapping has exactly
    /// the implied capacity.
    pub fn apply_rotation(&mut self, new_len: usize, new_mmap: memmap2::MmapMut) -> (r: Result<
        (),
        StoreError,
    >)
        requires
            old(self).wf(),
        ensures
            final(self).wf(),
            final(self).directory == old(self).directory,
            r is Ok <==> {
                &&& new_len >= old(self)@.len()
                &&& old(self).spec_needs_rotation(new_len as int)
                &&& map_bytes(new_mmap).len() == spec_capacity_bytes(new_len as int)
            },
            match r {
                Ok(()) => {
                    &&& final(self).status.len == new_len
                    &&& final(self).status.current_file_id == old(
                        self,
                    ).status.current_file_id.spec_rotate()
                    &&& final(self)@ == old(self)@ + Seq::new(
                        (new_len - old(self)@.len()) as nat,
                        |k: int| false,
                    )
                },
                Err(e) => {
                    &&& e == StoreError::InvalidArgument
                    &&& *final(self) == *old(self)
                },
            },
    {
        let bytes_needed: usize = new_len / 8 + if new_len % 8 == 0 {
            0
        } else {
            1
        };
        assert(bytes_needed == spec_bytes_needed(new_len as int));
        let old_capacity = mmap_len(&self.flags_mmap);
        let new_capacity = mmap_capacity_bytes(new_len);
        if new_len < self.status.len || bytes_needed <= old_capacity || mmap_len(&new_mmap)
            != new_capacity {
            return Err(StoreError::InvalidArgument);
        }
        proof {
            lemma_needs_more_bytes(new_len as int, old_capacity as int);
            lemma_capacity_bytes_minimal(new_len as int);
        }
        let ghost old_bytes = map_bytes(self.flags_mmap);
        let mut target = new_mmap;
        // Copy the whole old file forward: its bits below the old length
        // are the valid flags, and everything above is already unset.
        let mut i: usize = 0;
        while i < old_capacity
            invariant
                i <= old_capacity < map_bytes(target).len(),
                old_capacity == old_bytes.len(),
                map_bytes(self.flags_mmap) == old_bytes,
                map_bytes(target).len() == spec_capacity_bytes(new_len as int),
                forall|j: int| 0 <= j < i ==> map_bytes(target)[j] == old_bytes[j],
            decreases old_capacity - i,
        {
            let b = mmap_read(&self.flags_mmap, i);
            mmap_write(&mut target, i, b);
            i = i + 1;
        }
        // Zero the rest so every flag past the old capacity reads false.
        let mut i: usize = old_capacity;
        while i < new_capacity
            invariant
                old_capacity <= i <= new_capacity,
                old_capacity == old_bytes.len(),
                map_bytes(self.flags_mmap) == old_bytes,
                new_capacity == map_bytes(target).len() == spec_capacity_bytes(new_len as int),
                forall|j: int| 0 <= j < old_capacity ==> map_bytes(target)[j] == old_bytes[j],
                forall|j: int| old_capacity <= j < i ==> map_bytes(target)[j] == 0,
            decreases new_capacity - i,
        {
            mmap_write(&mut target, i, 0);
            i = i + 1;
        }
        let new_status = DynamicMmapStatus {
            len: new_len,
            current_file_id: self.status.current_file_id.rotate(),
        };
        store_status(&mut self.status_mmap, new_status);
        self.status = new_status;
        self.flags_mmap = target;
        proof {
            crate::status::lemma_status_roundtrip(new_status);
            let new_bytes = map_bytes(self.flags_mmap);
            crate::bits::lemma_byte_zero();
            assert forall|k: int| 0 <= k < 8 * old_bytes.len() implies spec_bit_at(new_bytes, k)
                == spec_bit_at(old_bytes, k) by {
                assert(k / 8 < old_bytes.len()) by (nonlinear_arith)
                    requires
                        0 <= k < 8 * old_bytes.len(),
                ;
            }
            assert forall|k: int| 8 * old_bytes.len() <= k < 8 * new_bytes.len() implies !spec_bit_at(
                new_bytes,
                k,
            ) by {
                assert(old_bytes.len() <= k / 8 < new_bytes.len()) by (nonlinear_arith)
                    requires
                        8 * old_bytes.len() <= k < 8 * new_bytes.len(),
                ;
                assert(new_bytes[k / 8] == 0);
            }
            assert(new_len <= 8 * new_bytes.len());
            assert(old(self).status.len <= 8 * old_bytes.len());
            assert(self@ =~= old(self)@ + Seq::new(
                (new_len - old(self)@.len()) as nat,
                |k: int| false,
            ));
        }
        Ok(())
    }

    /// Flushes the active flags mapping and then the status record, in
    /// that order: the data must be durable before the pointer that
    /// claims it is valid. Nothing else guarantees persistence; callers
    /// decide the flush cadence. Whether the flushes reach the disk is
    /// the machine's to decide; a failure is always an I/O error.
    pub fn flusher(&self) -> (r: Result<(), StoreError>)
        requires
            self.wf(),
        ensures
            r matches Err(e) ==> e == StoreError::IoError,
    {
        match mmap_flush(&self.flags_mmap) {
            Ok(()) => mmap_flush(&self.status_mmap),
            Err(e) => Err(e),
        }
    }

    /// The whole logical flag vector as plain booleans, in key order.
    pub fn get_bitslice(&self) -> (r: Vec<bool>)
        requires
            self.wf(),
        ensures
            r@ == self@,
    {
        let n = self.status.len;
        let mut bools: Vec<bool> = Vec::new();
        let mut k: usize = 0;
        while k < n
            invariant
                k <= n == self.status.len,
                self.wf(),
                bools@ == self@.subrange(0, k as int),
            decreases n - k,
        {
            bools.push(self.get(k));
            k = k + 1;
            proof {
                assert(bools@ =~= self@.subrange(0, k as int));
            }
        }
        proof {
            assert(bools@ =~= self@);
        }
        bools
    }

    /// The files that hold the store's durable state: the status record
    /// and the active slot's flags file. The inactive slot's file is
    /// deliberately not reported; it is never to be trusted.
    pub fn files(&self) -> (r: Vec<String>)
        ensures
            r@.len() == 2,
            r@[0]@ == self.directory@ + "/"@ + "status.dat"@,
            r@[1]@ == self.directory@ + "/"@ + self.status.current_file_id.spec_file_name(),
    {
        let mut files: Vec<String> = Vec::new();
        files.push(status_file(self.directory.as_str()));
        files.push(flags_file(self.directory.as_str(), self.status.current_file_id));
        files
    }

    /// Closes the store, handing back the status and flags mappings (in
    /// that order) so the caller controls when they are unmapped.
    /// Nothing is flushed implicitly.
    pub fn into_mmaps(self) -> (r: (memmap2::MmapMut, memmap2::MmapMut))
        ensures
            r.0 == self.status_mmap,
            r.1 == self.flags_mmap,
    {
        (self.status_mmap, self.flags_mmap)
    }

    /// Assembles a store from its two mappings: the status record names
    /// the length and active slot, and the flags mapping must have
    /// exactly the capacity the length implies (the caller re-derives it
    /// rather than trusting file sizes). Bits at or beyond the length
    /// are cleared so that later growth exposes only unset flags; bits
    /// below it are taken as they stand. Fails with `CorruptState` if
    /// the status record cannot be interpreted and with
    /// `InvalidArgument` if the flags mapping has the wrong length.
    pub fn open(
        status_mmap: memmap2::MmapMut,
        flags_mmap: memmap2::MmapMut,
        directory: String,
    ) -> (r: Result<DynamicMmapFlags, StoreError>)
        ensures
            match r {
                Ok(flags) => {
                    &&& flags.wf()
                    &&& spec_status_of_bytes(map_bytes(status_mmap)) == Some(flags.status)
                    &&& map_bytes(flags.status_mmap) == map_bytes(status_mmap)
                    &&& flags.directory == directory
                    &&& flags@ == Seq::new(
                        flags.status.len as nat,
                        |k: int| spec_bit_at(map_bytes(flags_mmap), k),
                    )
                },
                Err(e) => {
                    &&& (e == StoreError::CorruptState <==> spec_status_of_bytes(
                        map_bytes(status_mmap),
                    ) is None)
                    &&& (spec_status_of_bytes(map_bytes(status_mmap)) matches Some(st)
                        ==> e == StoreError::InvalidArgument && map_bytes(flags_mmap).len()
                        != spec_capacity_bytes(st.len as int))
                },
            },
            r is Ok <==> (spec_status_of_bytes(map_bytes(status_mmap)) matches Some(st)
                && map_bytes(flags_mmap).len() == spec_capacity_bytes(st.len as int)),
    {
        let status_vec = mmap_to_vec(&status_mmap);
        let status = match decode_status(&status_vec) {
            Ok(status) => status,
            Err(e) => {
                return Err(e);
            },
        };
        let capacity = mmap_capacity_bytes(status.len);
        let mut flags_mmap = flags_mmap;
        if mmap_len(&flags_mmap) != capacity {
            return Err(StoreError::InvalidArgument);
        }
        proof {
            lemma_capacity_bytes_minimal(status.len as int);
        }
        let ghost orig_bytes = map_bytes(flags_mmap);
        // Clear every bit at or beyond the logical length: content there
        // is don't-care on disk (a crash can leave stale bits from
        // unflushed growth), and the growth rule relies on it reading
        // false.
        let len = status.len;
        let full_bytes = len / 8;
        let partial = (len % 8) as u8;
        proof {
            assert(full_bytes <= spec_bytes_needed(len as int) <= capacity);
            assert(partial != 0 ==> full_bytes < spec_bytes_needed(len as int)) by (nonlinear_arith)
                requires
                    full_bytes == len as int / 8,
                    partial == len as int % 8,
                    spec_bytes_needed(len as int) == (len as int + 7) / 8,
                    0 <= len as int,
            ;
        }
        let mut start = full_bytes;
        let mut cleared: u8 = 0;
        if partial != 0 {
            let byte = mmap_read(&flags_mmap, full_bytes);
            cleared = byte_clear_from(byte, partial);
            mmap_write(&mut flags_mmap, full_bytes, cleared);
            start = full_bytes + 1;
            proof {
                assert(map_bytes(flags_mmap) == orig_bytes.update(full_bytes as int, cleared));
            }
        }
        let ghost base_bytes = map_bytes(flags_mmap);
        let mut i: usize = start;
        while i < capacity
            invariant
                start <= i <= capacity == map_bytes(flags_mmap).len(),
                base_bytes.len() == capacity,
                forall|j: int| 0 <= j < start ==> map_bytes(flags_mmap)[j] == base_bytes[j],
                forall|j: int| start <= j < i ==> map_bytes(flags_mmap)[j] == 0,
            decreases capacity - i,
        {
            mmap_write(&mut flags_mmap, i, 0);
            i = i + 1;
        }
        let flags = DynamicMmapFlags { status_mmap, status, flags_mmap, directory };
        proof {
            let new_bytes = map_bytes(flags.flags_mmap);
            crate::bits::lemma_byte_zero();
            // Bits below the length sit in untouched bytes or in the kept
            // low bits of the partial byte.
            assert forall|k: int| 0 <= k < len implies spec_bit_at(new_bytes, k) == spec_bit_at(
                orig_bytes,
                k,
            ) by {
                assert(0 <= k / 8 <= full_bytes && 0 <= k % 8 < 8 && (k / 8 == full_bytes ==> k % 8
                    < partial)) by (nonlinear_arith)
                    requires
                        0 <= k < len as int,
                        full_bytes == len as int / 8,
                        partial == len as int % 8,
                ;
                assert(k / 8 < start);
                assert(new_bytes[k / 8] == base_bytes[k / 8]);
                if k / 8 == full_bytes {
                    assert(partial != 0);
                    assert(base_bytes[k / 8] == cleared);
                    assert(spec_byte_bit(cleared, (k % 8) as u8) == spec_byte_bit(
                        orig_bytes[k / 8],
                        (k % 8) as u8,
                    ));
                } else {
                    assert(base_bytes[k / 8] == orig_bytes[k / 8]);
                }
            }
            // Bits at or beyond the length were cleared or zeroed.
            assert forall|k: int| len <= k < 8 * new_bytes.len() implies !spec_bit_at(
                new_bytes,
                k,
            ) by {
                assert(k / 8 >= full_bytes && 0 <= k % 8 < 8 && (k / 8 == full_bytes ==> k % 8
                    >= partial) && k / 8 < new_bytes.len()) by (nonlinear_arith)
                    requires
                        0 <= len as int <= k < 8 * new_bytes.len(),
                        full_bytes == len as int / 8,
                        partial == len as int % 8,
                        new_bytes.len() == capacity as int,
                ;
                if k / 8 >= start {
                    assert(new_bytes[k / 8] == 0);
                } else {
                    assert(k / 8 == full_bytes && partial != 0);
                    assert(new_bytes[k / 8] == base_bytes[k / 8] == cleared);
                    assert(!spec_byte_bit(cleared, (k % 8) as u8));
                }
            }
            assert(flags.wf());
            assert(flags@ =~= Seq::new(
                flags.status.len as nat,
                |k: int| spec_bit_at(orig_bytes, k),
            ));
        }
        Ok(flags)
    }
}

/// What a read returns is unchanged by growth: a flag below the old
/// length keeps its value, and every other key reads `false`, both
/// before and after. Stated over the flag sequences that `set_len` and
/// `apply_rotation` ensure, with reads phrased as `get` phrases them.
pub proof fn lemma_grow_preserves_reads(pre: Seq<bool>, grown: Seq<bool>, new_len: int, k: int)
    requires
        0 <= pre.len() <= new_len,
        grown == pre + Seq::new((new_len - pre.len()) as nat, |i: int| false),
        0 <= k,
    ensures
        (k < grown.len() && grown[k]) == (k < pre.len() && pre[k]),
{
}

/// The durability round trip, one step above the disk: a store `f`
/// assembled (as `open` ensures) from the very status and flags images
/// that a well-formed store `s` holds reads the same length and the
/// same flags as `s`. Once a flush has made `s`'s images durable, this
/// is what a later `open` of the same directory sees; that the flush
/// reaches the disk is the filesystem's guarantee and cannot be stated
/// here.
pub proof fn lemma_reopen_matches_flushed_store(s: DynamicMmapFlags, f: DynamicMmapFlags)
    requires
        s.wf(),
        spec_status_of_bytes(map_bytes(s.status_mmap)) == Some(f.status),
        f@ == Seq::new(f.status.len as nat, |k: int| spec_bit_at(map_bytes(s.flags_mmap), k)),
    ensures
        f.status == s.status,
        f@ == s@,
{
    assert(f@ =~= s@);
}

/// Reads a whole mapping into a byte vector.
fn mmap_to_vec(m: &memmap2::MmapMut) -> (r: Vec<u8>)
    ensures
        r@ == map_bytes(*m),
{
    let len = mmap_len(m);
    let mut v: Vec<u8> = Vec::new();
    let mut i: usize = 0;
    while i < len
        invariant
            i <= len == map_bytes(*m).len(),
            v@ == map_bytes(*m).subrange(0, i as int),
        decreases len - i,
    {
        v.push(mmap_read(m, i));
        i = i + 1;
        proof {
            assert(v@ =~= map_bytes(*m).subrange(0, i as int));
        }
    }
    proof {
        assert(v@ =~= map_bytes(*m));
    }
    v
}

/// Writes the 16-byte encoding of `status` over a status mapping.
fn store_status(m: &mut memmap2::MmapMut, status: DynamicMmapStatus)
    requires
        map_bytes(*old(m)).len() == STATUS_RECORD_BYTES,
    ensures
        map_bytes(*final(m)) == spec_status_bytes(status),
{
    proof {
        vstd::bytes::lemma_auto_spec_u64_to_from_le_bytes();
    }
    let len_bytes = vstd::bytes::u64_to_le_bytes(status.len as u64);
    let tag_bytes = vstd::bytes::u64_to_le_bytes(status.current_file_id.tag());
    let mut i: usize = 0;
    while i < 8
        invariant
            i <= 8,
            len_bytes@ == vstd::bytes::spec_u64_to_le_bytes(status.len as u64),
            len_bytes@.len() == 8,
            map_bytes(*m).len() == STATUS_RECORD_BYTES,
            forall|j: int| 0 <= j < i ==> map_bytes(*m)[j] == len_bytes@[j],
        decreases 8 - i,
    {
        let b = len_bytes[i];
        mmap_write(m, i, b);
        i = i + 1;
    }
    let mut i: usize = 0;
    while i < 8
        invariant
            i <= 8,
            len_bytes@ == vstd::bytes::spec_u64_to_le_bytes(status.len as u64),
            tag_bytes@ == vstd::bytes::spec_u64_to_le_bytes(status.current_file_id.spec_tag()),
            tag_bytes@.len() == 8,
            map_bytes(*m).len() == STATUS_RECORD_BYTES,
            forall|j: int| 0 <= j < 8 ==> map_bytes(*m)[j] == len_bytes@[j],
            forall|j: int| 0 <= j < i ==> map_bytes(*m)[8 + j] == tag_bytes@[j],
        decreases 8 - i,
    {
        let b = tag_bytes[i];
        mmap_write(m, 8 + i, b);
        i = i + 1;
    }
    proof {
        assert(map_bytes(*m) =~= spec_status_bytes(status));
    }
}

} // verus!
