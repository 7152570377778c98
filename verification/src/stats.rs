//! Counters describing how much one tree-copy operation copied.

use vstd::prelude::*;

verus! {

/// Counters of how many things were copied.
///
/// Created empty when a copy starts and updated by every successful copy
/// operation; returned to the caller when the whole operation succeeds.
#[derive(Clone, Copy, Debug, PartialEq, Eq, Structural)]
pub struct CopyStats {
    /// The number of plain files copied.
    pub files: usize,
    /// The number of directories created.
    pub dirs: usize,
    /// The number of symlinks copied.
    pub symlinks: usize,
    /// The number of bytes of file content copied, across all files.
    pub file_bytes: u64,
    /// The number of entries skipped by the filter callback.
    pub filtered_out: usize,
}

impl CopyStats {
    /// All counters zero.
    pub open spec fn zero() -> CopyStats {
        CopyStats { files: 0, dirs: 0, symlinks: 0, file_bytes: 0, filtered_out: 0 }
    }

    /// An empty set of counters, as at the start of a copy.
    pub fn new() -> (r: CopyStats)
        ensures
            r == CopyStats::zero(),
    {
        CopyStats { files: 0, dirs: 0, symlinks: 0, file_bytes: 0, filtered_out: 0 }
    }
}

impl Default for CopyStats {
    /// An empty set of counters, as at the start of a copy.
    fn default() -> (r: CopyStats)
        ensures
            r == CopyStats::zero(),
    {
        CopyStats::new()
    }
}

} // verus!
