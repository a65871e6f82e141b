//! Fixed-length memory-mapped chunk files. Each chunk holds a packed
//! run of fixed-width (4-byte, little-endian) numeric elements and is
//! identified by a non-negative id embedded in its file name,
//! `chunk_<id>.mmap`. A directory of chunks is only valid when the ids
//! form a dense run `0, 1, ..., n-1`; discovery rejects anything else as
//! corruption.

use vstd::bytes::{spec_u32_from_le_bytes, spec_u32_to_le_bytes};
use vstd::prelude::*;
use vstd::string::{StrSliceExecFns, StringExecFns};

use crate::decimal::{
    parse_decimal, push_decimal, spec_all_digits, spec_decimal, spec_digits_val,
};
use crate::errors::StoreError;
use crate::mmap::{map_bytes, mmap_flush, mmap_len, mmap_read, mmap_write};

verus! {

/// Name of a chunk file: `chunk_<id>.mmap`.
pub open spec fn spec_chunk_file_name(chunk_id: int) -> Seq<char> {
    "chunk_"@ + spec_decimal(chunk_id) + ".mmap"@
}

/// The chunk id a file name encodes, if any: the name must be
/// `chunk_<digits>.mmap` with a value this platform can address.
pub open spec fn spec_parse_chunk_name(name: Seq<char>) -> Option<int> {
    if name.len() >= 12 && name.subrange(0, 6) == "chunk_"@ && name.subrange(
        name.len() - 5,
        name.len() as int,
    ) == ".mmap"@ {
        let digits = name.subrange(6, name.len() - 5);
        if spec_all_digits(digits) && spec_digits_val(digits) <= usize::MAX {
            Some(spec_digits_val(digits))
        } else {
            None
        }
    } else {
        None
    }
}

/// A chunk's name parses back to its id.
pub proof fn lemma_chunk_name_roundtrip(chunk_id: int)
    requires
        0 <= chunk_id <= usize::MAX,
    ensures
        spec_parse_chunk_name(spec_chunk_file_name(chunk_id)) == Some(chunk_id),
{
    crate::decimal::lemma_decimal_roundtrip(chunk_id);
    reveal_strlit("chunk_");
    reveal_strlit(".mmap");
    let name = spec_chunk_file_name(chunk_id);
    assert(name.len() >= 12);
    assert(name.subrange(0, 6) =~= "chunk_"@);
    assert(name.subrange(name.len() - 5, name.len() as int) =~= ".mmap"@);
    assert(name.subrange(6, name.len() - 5) =~= spec_decimal(chunk_id));
}

/// Checks if the file name matches the pattern for mmap chunks.
/// Returns the id from the file name if it matches, `None` otherwise.
pub fn check_mmap_file_name_pattern(file_name: &str) -> (r: Option<usize>)
    ensures
        match r {
            Some(v) => spec_parse_chunk_name(file_name@) == Some(v as int),
            None => spec_parse_chunk_name(file_name@) is None,
        },
{
    proof {
        reveal_strlit("chunk_");
        reveal_strlit(".mmap");
    }
    let len = file_name.unicode_len();
    if len < 12 {
        return None;
    }
    let prefix = "chunk_";
    let mut i: usize = 0;
    while i < 6
        invariant
            i <= 6,
            len == file_name@.len(),
            len >= 12,
            prefix@ == "chunk_"@,
            prefix@.len() == 6,
            forall|j: int| 0 <= j < i ==> file_name@[j] == "chunk_"@[j],
        decreases 6 - i,
    {
        if file_name.get_char(i) != prefix.get_char(i) {
            proof {
                assert(file_name@.subrange(0, 6) != "chunk_"@) by {
                    assert(file_name@.subrange(0, 6)[i as int] == file_name@[i as int]);
                }
            }
            return None;
        }
        i = i + 1;
    }
    proof {
        assert(file_name@.subrange(0, 6) =~= "chunk_"@);
    }
    let suffix = ".mmap";
    let mut i: usize = 0;
    while i < 5
        invariant
            i <= 5,
            len == file_name@.len(),
            len >= 12,
            suffix@ == ".mmap"@,
            suffix@.len() == 5,
            file_name@.subrange(0, 6) == "chunk_"@,
            forall|j: int| 0 <= j < i ==> file_name@[len - 5 + j] == ".mmap"@[j],
        decreases 5 - i,
    {
        if file_name.get_char(len - 5 + i) != suffix.get_char(i) {
            proof {
                assert(file_name@.subrange(len - 5, len as int) != ".mmap"@) by {
                    assert(file_name@.subrange(len - 5, len as int)[i as int] == file_name@[len - 5
                        + i]);
                }
            }
            return None;
        }
        i = i + 1;
    }
    proof {
        assert(file_name@.subrange(len - 5, len as int) =~= ".mmap"@);
    }
    parse_decimal(file_name, 6, len - 5)
}

/// Path of the chunk file with the given id inside the directory.
pub fn chunk_name(directory: &str, chunk_id: usize) -> (r: String)
    ensures
        r@ == directory@ + "/"@ + spec_chunk_file_name(chunk_id as int),
{
    let mut path = directory.to_owned();
    path.append("/");
    path.append("chunk_");
    push_decimal(chunk_id, &mut path);
    path.append(".mmap");
    proof {
        assert(path@ =~= directory@ + "/"@ + spec_chunk_file_name(chunk_id as int));
    }
    path
}

/// One fixed-length memory-mapped chunk file, holding packed 4-byte
/// little-endian numeric elements. Never resized after creation: the
/// store grows by adding chunks, not by enlarging one.
pub struct MmapChunk {
    /// Memory mapped file for chunk data.
    pub data: memmap2::MmapMut,
}

impl View for MmapChunk {
    type V = Seq<u8>;

    /// The raw bytes of the mapped region.
    open spec fn view(&self) -> Seq<u8> {
        map_bytes(self.data)
    }
}

/// Element `i` of a chunk image.
pub open spec fn spec_element(bytes: Seq<u8>, i: int) -> u32 {
    spec_u32_from_le_bytes(bytes.subrange(4 * i, 4 * i + 4))
}

impl MmapChunk {
    /// Wraps a writable mapping of a chunk file.
    pub fn new(mmap: memmap2::MmapMut) -> (r: Self)
        ensures
            r@ == map_bytes(mmap),
    {
        MmapChunk { data: mmap }
    }

    /// Byte length of the mapped region; fixed at creation.
    pub fn byte_len(&self) -> (r: usize)
        ensures
            r == self@.len(),
    {
        mmap_len(&self.data)
    }

    /// Number of whole elements the chunk holds.
    pub fn element_count(&self) -> (r: usize)
        ensures
            r == self@.len() / 4,
    {
        mmap_len(&self.data) / 4
    }

    /// Relies on `memmap2::MmapMut`'s `Deref` view as a byte slice: the
    /// chunk's mapped region as a read slice.
    #[verifier::external_body]
    pub fn data(&self) -> (r: &[u8])
        ensures
            r@ == self@,
    {
        &self.data
    }

    /// Relies on `memmap2::MmapMut`'s `DerefMut` view as a byte slice:
    /// the chunk's mapped region as a mutable slice, initially holding
    /// the mapping's bytes. Writes made through it land in the mapping,
    /// so nothing is known of the chunk's content afterwards.
    #[verifier::external_body]
    pub fn data_mut(&mut self) -> (r: &mut [u8])
        ensures
            r@ == old(self)@,
    {
        &mut self.data
    }

    /// Reads element `i`.
    pub fn read_element(&self, i: usize) -> (r: u32)
        requires
            i < self@.len() / 4,
        ensures
            r == spec_element(self@, i as int),
    {
        // Reading the mapped length bounds the index arithmetic below.
        let len_bytes = mmap_len(&self.data);
        proof {
            assert(len_bytes == self@.len());
            assert(4 * i + 4 <= self@.len()) by (nonlinear_arith)
                requires
                    i < self@.len() / 4,
            ;
        }
        let base = 4 * i;
        let mut bytes: Vec<u8> = Vec::new();
        bytes.push(mmap_read(&self.data, base));
        bytes.push(mmap_read(&self.data, base + 1));
        bytes.push(mmap_read(&self.data, base + 2));
        bytes.push(mmap_read(&self.data, base + 3));
        proof {
            assert(bytes@ =~= self@.subrange(4 * i, 4 * i + 4));
        }
        vstd::bytes::u32_from_le_bytes(bytes.as_slice())
    }

    /// Writes element `i`, leaving every other element unchanged.
    pub fn write_element(&mut self, i: usize, value: u32)
        requires
            i < old(self)@.len() / 4,
        ensures
            final(self)@.len() == old(self)@.len(),
            spec_element(final(self)@, i as int) == value,
            forall|e: int|
                0 <= e < old(self)@.len() / 4 && e != i ==> spec_element(final(self)@, e)
                    == spec_element(old(self)@, e),
    {
        proof {
            let ghost n = old(self)@.len();
            assert(4 * i + 4 <= n) by (nonlinear_arith)
                requires
                    i < n / 4,
            ;
            vstd::bytes::lemma_auto_spec_u32_to_from_le_bytes();
        }
        // Reading the mapped length bounds the index arithmetic below.
        let len_bytes = mmap_len(&self.data);
        proof {
            assert(len_bytes == self@.len());
        }
        let bytes = vstd::bytes::u32_to_le_bytes(value);
        let base = 4 * i;
        mmap_write(&mut self.data, base, bytes[0]);
        mmap_write(&mut self.data, base + 1, bytes[1]);
        mmap_write(&mut self.data, base + 2, bytes[2]);
        mmap_write(&mut self.data, base + 3, bytes[3]);
        proof {
            assert(self@.subrange(4 * i, 4 * i + 4) =~= spec_u32_to_le_bytes(value));
            assert forall|e: int| 0 <= e < old(self)@.len() / 4 && e != i implies spec_element(
                self@,
                e,
            ) == spec_element(old(self)@, e) by {
                let n = self@.len();
                assert(4 * e + 4 <= n && (4 * e + 4 <= 4 * i || 4 * e >= 4 * i + 4))
                    by (nonlinear_arith)
                    requires
                        0 <= e < n / 4,
                        e != i,
                        0 <= i,
                ;
                assert(self@.subrange(4 * e, 4 * e + 4) =~= old(self)@.subrange(4 * e, 4 * e + 4));
            }
        }
    }

    /// Flushes the chunk's mapping to durable storage; a failure is
    /// always an I/O error.
    pub fn flusher(&self) -> (r: Result<(), StoreError>)
        ensures
            r matches Err(e) ==> e == StoreError::IoError,
    {
        mmap_flush(&self.data)
    }
}

/// Some name in the list encodes the given chunk id.
pub open spec fn spec_has_chunk(names: Seq<String>, id: int) -> bool {
    exists|j: int| 0 <= j < names.len() && spec_parse_chunk_name(names[j]@) == Some(id)
}

/// The chunk names in the list form the dense run `0, ..., n - 1`: every
/// id below `n` is present and nothing names an id at or beyond `n`.
pub open spec fn spec_chunks_dense(names: Seq<String>, n: int) -> bool {
    &&& forall|id: int| 0 <= id < n ==> spec_has_chunk(names, id)
    &&& forall|j: int|
        0 <= j < names.len() ==> (#[trigger] spec_parse_chunk_name(names[j]@) matches Some(v)
            ==> v < n)
}

/// Orders the chunk file names of a directory listing by their ids.
/// Names that do not match the chunk pattern are ignored. Succeeds
/// exactly when the ids form a dense run `0, 1, ..., n - 1`, returning
/// one matching name per id in ascending id order; any gap in that run
/// is fatal corruption.
pub fn chunk_files_in_order(names: &Vec<String>) -> (r: Result<Vec<String>, StoreError>)
    ensures
        match r {
            Ok(ordered) => {
                &&& spec_chunks_dense(names@, ordered@.len() as int)
                &&& forall|i: int|
                    0 <= i < ordered@.len() ==> spec_parse_chunk_name(ordered@[i]@) == Some(i)
                &&& forall|i: int|
                    0 <= i < ordered@.len() ==> exists|j: int|
                        0 <= j < names@.len() && names@[j]@ == #[trigger] ordered@[i]@
            },
            Err(e) => {
                &&& e == StoreError::CorruptState
                &&& forall|n: int| !spec_chunks_dense(names@, n)
            },
        },
{
    // Find the largest id any name encodes.
    let mut max_id: usize = 0;
    let mut any: bool = false;
    let mut j: usize = 0;
    while j < names.len()
        invariant
            j <= names@.len(),
            any ==> exists|j2: int|
                0 <= j2 < j && spec_parse_chunk_name(names@[j2]@) == Some(max_id as int),
            forall|j2: int|
                0 <= j2 < j ==> (#[trigger] spec_parse_chunk_name(names@[j2]@) matches Some(v)
                    ==> any && v <= max_id as int),
        decreases names@.len() - j,
    {
        match check_mmap_file_name_pattern(names[j].as_str()) {
            Some(id) => {
                if !any || id > max_id {
                    max_id = id;
                }
                any = true;
            },
            None => {},
        }
        j = j + 1;
    }
    if !any {
        proof {
            assert(spec_chunks_dense(names@, 0));
        }
        return Ok(Vec::new());
    }
    // Pick, for each id up to the maximum, a name that encodes it.
    let mut ordered: Vec<String> = Vec::new();
    let mut target: usize = 0;
    loop
        invariant
            target <= max_id,
            ordered@.len() == target,
            forall|i: int|
                0 <= i < target ==> spec_parse_chunk_name(ordered@[i]@) == Some(i),
            forall|i: int|
                0 <= i < target ==> exists|j2: int|
                    0 <= j2 < names@.len() && names@[j2]@ == #[trigger] ordered@[i]@,
            exists|j2: int|
                0 <= j2 < names@.len() && spec_parse_chunk_name(names@[j2]@) == Some(max_id as int),
            forall|j2: int|
                0 <= j2 < names@.len() ==> (#[trigger] spec_parse_chunk_name(names@[j2]@)
                    matches Some(v) ==> v <= max_id as int),
        decreases max_id - target,
    {
        let mut found: bool = false;
        let mut found_j: usize = 0;
        let mut j: usize = 0;
        while j < names.len()
            invariant
                j <= names@.len(),
                !found ==> forall|j2: int|
                    0 <= j2 < j ==> spec_parse_chunk_name(names@[j2]@) != Some(target as int),
                found ==> found_j < names@.len() && spec_parse_chunk_name(names@[found_j as int]@)
                    == Some(target as int),
            decreases names@.len() - j,
        {
            if !found {
                match check_mmap_file_name_pattern(names[j].as_str()) {
                    Some(id) => {
                        if id == target {
                            found = true;
                            found_j = j;
                        }
                    },
                    None => {},
                }
            }
            j = j + 1;
        }
        if !found {
            proof {
                assert forall|n: int| !spec_chunks_dense(names@, n) by {
                    if n > target {
                        assert(!spec_has_chunk(names@, target as int));
                    } else {
                        let jm = choose|j2: int|
                            0 <= j2 < names@.len() && spec_parse_chunk_name(names@[j2]@) == Some(
                                max_id as int,
                            );
                        assert(spec_parse_chunk_name(names@[jm]@) matches Some(v) && v >= n);
                    }
                }
            }
            return Err(StoreError::CorruptState);
        }
        ordered.push(names[found_j].clone());
        if target == max_id {
            proof {
                assert forall|id: int| 0 <= id < ordered@.len() implies spec_has_chunk(
                    names@,
                    id,
                ) by {
                    let j2 = choose|j2: int|
                        0 <= j2 < names@.len() && names@[j2]@ == #[trigger] ordered@[id]@;
                    assert(spec_parse_chunk_name(names@[j2]@) == Some(id));
                }
                assert(spec_chunks_dense(names@, ordered@.len() as int));
            }
            return Ok(ordered);
        }
        target = target + 1;
    }
}

} // verus!
