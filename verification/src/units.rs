//! Byte-unit helpers: binary kilo/mega/giga multiples.

use vstd::prelude::*;

verus! {

/// Returns the number of bytes in `x` KiB (1,024 bytes each).
pub fn mga_kib(x: u64) -> (r: u64)
    ensures
        r == x << 10u64,
        x < 0x40000000000000 ==> r == x * 1024,
{
    proof {
        assert(x < 0x40000000000000 ==> (x << 10u64) == x * 1024) by (bit_vector);
    }
    x << 10u64
}

/// Returns the number of bytes in `x` MiB (1,048,576 bytes each).
pub fn mga_mib(x: u64) -> (r: u64)
    ensures
        r == x << 20u64,
        x < 0x100000000000 ==> r == x * 1048576,
{
    proof {
        assert(x < 0x100000000000 ==> (x << 20u64) == x * 1048576) by (bit_vector);
    }
    x << 20u64
}

/// Returns the number of bytes in `x` GiB (1,073,741,824 bytes each).
pub fn mga_gib(x: u64) -> (r: u64)
    ensures
        r == x << 30u64,
        x < 0x400000000 ==> r == x * 1073741824,
{
    proof {
        assert(x < 0x400000000 ==> (x << 30u64) == x * 1073741824) by (bit_vector);
    }
    x << 30u64
}

} // verus!
