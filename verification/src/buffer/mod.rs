pub mod buffer_pool_manager;
pub mod lru_k_replacer;

use vstd::prelude::*;

verus! {

/// The kind of access a page receives; a scan does not refresh a frame
/// whose history is already full.
#[derive(Clone, Copy, Debug, PartialEq, Eq, Structural)]
pub enum AccessType {
    Lookup,
    Scan,
    Write,
}

} // verus!
