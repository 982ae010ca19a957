//! Page geometry.
use vstd::prelude::*;

verus! {

/// Bytes per page, on disk and in the buffer cache.
pub const PAGE_SIZE: u64 = 0x2000;

/// Identifies a page across residency changes.
pub type PageId = u64;

} // verus!
