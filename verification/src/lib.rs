//! A small storage engine core: an LRU-K page replacer, a buffer pool
//! manager, the bookkeeping of a paged database file, and page guards.
pub mod buffer;
pub mod constants;
pub mod storage;
pub mod util;
