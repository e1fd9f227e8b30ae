//! A bump-pointer memory arena: fast sequential allocation, bulk rewind,
//! nested temporary scopes, and a small pool of reusable scratch arenas.
//!
//! An arena hands out addresses in a single logical byte space. Allocation
//! advances a position counter; deallocation rewinds it. Two backends grow
//! the underlying storage: a chain of heap blocks, or a single reservation
//! committed in increments.

pub mod arena;
pub mod chain;
pub mod desc;
pub mod err;
pub mod geom;
pub mod laws;
pub mod ops;
pub mod scratch;
pub mod temp;
pub mod units;

pub use units::mga_gib as gib_to_bytes;
pub use units::mga_kib as kib_to_bytes;
pub use units::mga_mib as mib_to_bytes;
