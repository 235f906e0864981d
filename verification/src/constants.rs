use vstd::prelude::*;

verus! {

/// The number of bytes in one page, on disk and in a buffer frame.
pub const PAGE_SIZE: usize = 4096;

/// The number of pages by which the database file grows when it has no free slot.
pub const NUM_NEW_PAGES: usize = 16;

} // verus!
