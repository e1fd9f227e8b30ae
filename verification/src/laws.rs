//! Algebraic laws of the position discipline: alignment of returned
//! addresses, and the checkpoint order of nested temporary regions.

use vstd::prelude::*;
use crate::geom::align_up;
use crate::geom::lemma_align_up;
use crate::geom::lemma_align_up_keeps_alignment;

verus! {

/// A push from an aligned position returns an aligned address and leaves
/// the position aligned: the address is the position itself, and the
/// position advances by `align_up(n, a)`, a multiple of `a`. Since an
/// arena starts at position 0 and every push and pop moves the position
/// by such a multiple, every address a push returns is a multiple of the
/// alignment.
pub proof fn lemma_push_address_aligned(p: int, n: int, a: int)
    requires
        a >= 1,
        0 <= p,
        0 <= n,
        p % a == 0,
    ensures
        align_up(n, a) % a == 0,
        (p + align_up(n, a)) % a == 0,
{
    lemma_align_up(n, a);
    lemma_align_up_keeps_alignment(p, n, a);
}

/// Nested temporary regions rewind in reverse order. From position 0, an
/// outer region saves 0; a push of `a` bytes moves the position to
/// `align_up(a, al)`; an inner region saves that; a push of `b` bytes
/// moves it further. Ending the inner region succeeds and restores the
/// position to immediately after the first push; ending the outer region
/// then succeeds and restores it to 0.
pub proof fn lemma_nested_temp_regions(a: int, b: int, al: int)
    requires
        al >= 1,
        0 <= a,
        0 <= b,
    ensures
        ({
            let outer_saved = 0int;
            let after_a = outer_saved + align_up(a, al);
            let inner_saved = after_a;
            let after_b = after_a + align_up(b, al);
            &&& inner_saved <= after_b
            &&& inner_saved == after_a
            &&& outer_saved <= inner_saved
            &&& outer_saved == 0
        }),
{
    lemma_align_up(a, al);
    lemma_align_up(b, al);
}

} // verus!
