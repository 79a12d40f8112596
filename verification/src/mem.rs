//! Memory.

pub mod laws;
pub mod userbuf;
pub mod word;

use vstd::prelude::*;

verus! {

/// Size of a page in bytes.
pub const PG_SIZE: usize = 4096;

/// The root of a page table, as the memory manager names it.
#[derive(Clone, Copy, Debug, PartialEq, Eq, Structural)]
pub struct PageTable {
    pub root: usize,
}

} // verus!
