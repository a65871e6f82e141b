//! The persisted status record: which of the two backing files is active
//! and how many flags are valid. On disk it is a fixed 16-byte record,
//! an 8-byte little-endian length followed by an 8-byte little-endian
//! slot tag (0 for A, 1 for B); an all-zero record reads as an empty
//! store on slot A.

use vstd::bytes::spec_u64_to_le_bytes;
use vstd::prelude::*;
use vstd::string::StringExecFns;

use crate::errors::StoreError;

verus! {

/// Byte length of the status record on disk.
pub const STATUS_RECORD_BYTES: usize = 16;

/// Identifies the A/B variant of the flags file being used.
#[derive(Clone, Copy, Debug, PartialEq, Eq, Structural)]
pub enum FileId {
    /// The tag stored for `A` is zero, so a freshly created all-zero
    /// status record names it.
    A,
    B,
}

impl FileId {
    /// The other file variant.
    pub open spec fn spec_rotate(self) -> FileId {
        match self {
            FileId::A => FileId::B,
            FileId::B => FileId::A,
        }
    }

    /// The tag this variant is persisted as.
    pub open spec fn spec_tag(self) -> u64 {
        match self {
            FileId::A => 0,
            FileId::B => 1,
        }
    }

    /// Name of this variant's flags file inside the store directory.
    pub open spec fn spec_file_name(self) -> Seq<char> {
        match self {
            FileId::A => "flags_a.dat"@,
            FileId::B => "flags_b.dat"@,
        }
    }

    /// Rotate to the next file variant.
    #[must_use]
    pub fn rotate(self) -> (r: Self)
        ensures
            r == self.spec_rotate(),
    {
        match self {
            FileId::A => FileId::B,
            FileId::B => FileId::A,
        }
    }

    /// Get the filename for this FileId.
    pub fn file_name(self) -> (r: &'static str)
        ensures
            r@ == self.spec_file_name(),
    {
        match self {
            FileId::A => "flags_a.dat",
            FileId::B => "flags_b.dat",
        }
    }

    /// The persisted tag of this variant.
    pub fn tag(self) -> (r: u64)
        ensures
            r == self.spec_tag(),
    {
        match self {
            FileId::A => 0,
            FileId::B => 1,
        }
    }
}

/// Rotation alternates strictly between the two slots: it never yields
/// the same slot, and rotating twice returns to the starting slot.
pub proof fn lemma_rotate_involution(id: FileId)
    ensures
        id.spec_rotate() != id,
        id.spec_rotate().spec_rotate() == id,
{
}

/// The in-memory image of the status record.
#[derive(Clone, Copy, Debug, PartialEq, Eq, Structural)]
pub struct DynamicMmapStatus {
    /// Number of logical flags currently valid; never decreases while the
    /// store is open.
    pub len: usize,
    /// Which flags file holds the current data.
    pub current_file_id: FileId,
}

/// The exact 16 bytes that persist a status value.
pub open spec fn spec_status_bytes(status: DynamicMmapStatus) -> Seq<u8> {
    spec_u64_to_le_bytes(status.len as u64) + spec_u64_to_le_bytes(status.current_file_id.spec_tag())
}

/// Whether a 16-byte record is a well-formed persisted status: the tag
/// is 0 or 1 and the length fits the platform's address width.
pub open spec fn spec_status_of_bytes(bytes: Seq<u8>) -> Option<DynamicMmapStatus> {
    if bytes.len() != STATUS_RECORD_BYTES {
        None
    } else {
        let len_u64 = vstd::bytes::spec_u64_from_le_bytes(bytes.subrange(0, 8));
        let tag = vstd::bytes::spec_u64_from_le_bytes(bytes.subrange(8, 16));
        if len_u64 > usize::MAX as u64 || tag > 1 {
            None
        } else {
            Some(
                DynamicMmapStatus {
                    len: len_u64 as usize,
                    current_file_id: if tag == 0 {
                        FileId::A
                    } else {
                        FileId::B
                    },
                },
            )
        }
    }
}

/// Encoding then decoding a status record yields it back.
pub proof fn lemma_status_roundtrip(status: DynamicMmapStatus)
    ensures
        spec_status_bytes(status).len() == STATUS_RECORD_BYTES,
        spec_status_of_bytes(spec_status_bytes(status)) == Some(status),
{
    vstd::bytes::lemma_auto_spec_u64_to_from_le_bytes();
    let bytes = spec_status_bytes(status);
    assert(bytes.subrange(0, 8) =~= spec_u64_to_le_bytes(status.len as u64));
    assert(bytes.subrange(8, 16) =~= spec_u64_to_le_bytes(status.current_file_id.spec_tag()));
}

/// Decodes a status record, rejecting a record of the wrong size, an
/// unknown slot tag, or a length beyond what this platform can address.
pub fn decode_status(bytes: &Vec<u8>) -> (r: Result<DynamicMmapStatus, StoreError>)
    ensures
        match r {
            Ok(status) => spec_status_of_bytes(bytes@) == Some(status),
            Err(e) => e == StoreError::CorruptState && spec_status_of_bytes(bytes@) is None,
        },
{
    if bytes.len() != STATUS_RECORD_BYTES {
        return Err(StoreError::CorruptState);
    }
    let len_u64 = vstd::bytes::u64_from_le_bytes(vstd::slice::slice_subrange(bytes.as_slice(), 0, 8));
    let tag = vstd::bytes::u64_from_le_bytes(vstd::slice::slice_subrange(bytes.as_slice(), 8, 16));
    if tag > 1 {
        return Err(StoreError::CorruptState);
    }
    if len_u64 > usize::MAX as u64 {
        return Err(StoreError::CorruptState);
    }
    Ok(
        DynamicMmapStatus {
            len: len_u64 as usize,
            current_file_id: if tag == 0 {
                FileId::A
            } else {
                FileId::B
            },
        },
    )
}

/// Path of the status record's file inside the store directory.
pub fn status_file(directory: &str) -> (r: String)
    ensures
        r@ == directory@ + "/"@ + "status.dat"@,
{
    let mut path = directory.to_owned();
    path.append("/");
    path.append("status.dat");
    path
}

/// Path of a slot's flags file inside the store directory.
pub fn flags_file(directory: &str, file_id: FileId) -> (r: String)
    ensures
        r@ == directory@ + "/"@ + file_id.spec_file_name(),
{
    let mut path = directory.to_owned();
    path.append("/");
    path.append(file_id.file_name());
    path
}

} // verus!
