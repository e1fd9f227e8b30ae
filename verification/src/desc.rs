//! Arena construction parameters, consumed once at creation.

use vstd::prelude::*;
use crate::geom::align_up;
use crate::geom::is_pow2;
use crate::geom::PAGE_SIZE;

verus! {

/// Which growth strategy an arena uses, fixed for its whole lifetime.
#[derive(Clone, Copy, Debug, PartialEq, Eq, Structural)]
pub enum MGABackendKind {
    /// A chain of heap-obtained blocks, grown one block at a time.
    GrowableBlocks,
    /// One reservation of the maximum size, committed in increments.
    ReserveCommit,
}

/// Initialization parameters for an arena.
#[derive(Clone, Copy, Debug)]
pub struct MGADesc {
    /// The maximum size of the arena in bytes, rounded up to the page size.
    /// Must be positive, or creation fails.
    pub desired_max_size: usize,
    /// The size of a block in bytes, rounded up to the page size. Zero
    /// selects a default proportional to the maximum size.
    pub desired_block_size: usize,
    /// The alignment of returned addresses. Must be a power of two; zero
    /// selects the pointer-width default.
    pub align: usize,
    /// The growth strategy to build.
    pub backend: MGABackendKind,
}

/// Whether a descriptor can be turned into an arena: a positive maximum
/// size whose page rounding still fits the machine word, a block size whose
/// page rounding fits as well, and an alignment that is zero or a power of
/// two.
pub open spec fn desc_valid(d: MGADesc) -> bool {
    &&& d.desired_max_size > 0
    &&& align_up(d.desired_max_size as int, PAGE_SIZE as int) <= usize::MAX
    &&& align_up(d.desired_block_size as int, PAGE_SIZE as int) <= usize::MAX
    &&& (d.align == 0 || is_pow2(d.align as nat))
}

impl Default for MGADesc {
    /// The smallest arena once rounded to the page size, with the block
    /// size, the alignment and the backend left to their defaults.
    fn default() -> (d: Self)
        ensures
            d.desired_max_size == 1,
            d.desired_block_size == 0,
            d.align == 0,
            d.backend is GrowableBlocks,
            desc_valid(d),
    {
        MGADesc {
            desired_max_size: 1,
            desired_block_size: 0,
            align: 0,
            backend: MGABackendKind::GrowableBlocks,
        }
    }
}

} // verus!
