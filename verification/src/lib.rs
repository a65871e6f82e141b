//! Persistence primitives for a vector store: a growable, memory-mapped
//! vector of single-bit flags that survives restarts through a two-slot
//! rotation scheme, and a directory of fixed-length memory-mapped chunk
//! files holding packed numeric elements.

pub mod bits;
pub mod capacity;
pub mod chunks;
pub mod decimal;
pub mod errors;
pub mod flags;
pub mod mmap;
pub mod status;

pub use capacity::mmap_capacity_bytes;
pub use errors::StoreError;
pub use flags::{DynamicMmapFlags, RotationPlan};
pub use status::{status_file, DynamicMmapStatus, FileId};
pub use chunks::{check_mmap_file_name_pattern, chunk_files_in_order, chunk_name, MmapChunk};
pub use capacity::mmap_max_current_size;
pub use capacity::MINIMAL_MMAP_SIZE;
