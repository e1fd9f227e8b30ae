//! Page, alignment and rounding arithmetic shared by the whole engine.

use vstd::prelude::*;
use vstd::arithmetic::div_mod::lemma_add_mod_noop;
use vstd::arithmetic::div_mod::lemma_fundamental_div_mod;
use vstd::arithmetic::div_mod::lemma_mod_division_less_than_divisor;
use vstd::arithmetic::div_mod::lemma_mod_multiples_basic;
use vstd::arithmetic::div_mod::lemma_small_mod;

verus! {

/// Size of a platform page: the granularity of every backing allocation.
pub const PAGE_SIZE: usize = 4096;

/// Alignment chosen when a descriptor leaves it unspecified: the pointer width.
pub const DEFAULT_ALIGN: usize = 8;

/// Ceiling on the number of blocks a growable arena may chain.
pub const MAX_NODES: usize = 64;

/// Holds when `a` is a power of two.
pub open spec fn is_pow2(a: nat) -> bool
    decreases a,
{
    if a == 0 {
        false
    } else if a == 1 {
        true
    } else {
        a % 2 == 0 && is_pow2(a / 2)
    }
}

/// Least multiple of `a` that is at least `n`.
pub open spec fn align_up(n: int, a: int) -> int
    recommends
        n >= 0,
        a >= 1,
{
    if n % a == 0 {
        n
    } else {
        n + a - n % a
    }
}

/// Rounding up to an alignment lands on a multiple of it, overshooting the
/// argument by less than one alignment unit.
pub proof fn lemma_align_up(n: int, a: int)
    requires
        n >= 0,
        a >= 1,
    ensures
        n <= align_up(n, a) < n + a,
        align_up(n, a) % a == 0,
{
    lemma_mod_division_less_than_divisor(n, a);
    if n % a == 0 {
    } else {
        lemma_fundamental_div_mod(n, a);
        assert(a * (n / a) + a == a * (n / a + 1)) by (nonlinear_arith);
        assert(align_up(n, a) == a * (n / a + 1));
        lemma_mod_multiples_basic(n / a + 1, a);
        assert((a * (n / a + 1)) % a == 0) by {
            assert(a * (n / a + 1) == (n / a + 1) * a) by (nonlinear_arith);
        }
    }
}

/// Advancing an aligned position by an aligned-up amount keeps it aligned.
pub proof fn lemma_align_up_keeps_alignment(p: int, n: int, a: int)
    requires
        p >= 0,
        n >= 0,
        a >= 1,
        p % a == 0,
    ensures
        (p + align_up(n, a)) % a == 0,
{
    lemma_align_up(n, a);
    lemma_add_mod_noop(p, align_up(n, a), a);
    lemma_small_mod(0, a as nat);
}

/// Decides whether `x` is a power of two.
pub fn exec_is_pow2(x: usize) -> (r: bool)
    ensures
        r == is_pow2(x as nat),
{
    if x == 0 {
        return false;
    }
    let mut v: usize = x;
    while v % 2 == 0
        invariant
            1 <= v <= x,
            is_pow2(x as nat) == is_pow2(v as nat),
        decreases v,
    {
        v = v / 2;
    }
    v == 1
}

/// Rounds `n` up to a multiple of `a`, detecting overflow of the result.
pub fn align_up_checked(n: usize, a: usize) -> (r: Option<usize>)
    requires
        a >= 1,
    ensures
        match r {
            Some(v) => v == align_up(n as int, a as int),
            None => align_up(n as int, a as int) > usize::MAX,
        },
{
    let rem = n % a;
    if rem == 0 {
        Some(n)
    } else {
        proof {
            lemma_mod_division_less_than_divisor(n as int, a as int);
        }
        n.checked_add(a - rem)
    }
}

} // verus!
