//! Error kinds surfaced by the store: filesystem or mapping failures,
//! rejected arguments (shrinking a length-only-grows structure, or a
//! mapping of the wrong size), and corruption (a gap in the chunk id
//! sequence, or an unreadable status record).

use vstd::prelude::*;

verus! {

#[derive(Clone, Copy, Debug, PartialEq, Eq, Structural)]
pub enum StoreError {
    /// A mapping could not be flushed, or a file operation failed.
    IoError,
    /// The requested operation contradicts the store's state, such as
    /// shrinking it or handing it a mapping of the wrong length.
    InvalidArgument,
    /// The on-disk state is inconsistent: a chunk id is missing from the
    /// dense sequence, or the status record cannot be interpreted.
    CorruptState,
}

} // verus!
