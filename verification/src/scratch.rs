//! The scratch pool: a small fixed collection of reusable arenas, handed
//! out as temporary regions with conflict avoidance.
//!
//! Each thread owns one pool value; no locking exists or is needed. A
//! caller that already holds one scratch arena passes its slot in the
//! conflict list to receive a different, non-aliasing one.

use vstd::prelude::*;
use crate::arena::Arena;
use crate::desc::desc_valid;
use crate::desc::MGADesc;
use crate::err::MGAErrorCode;

verus! {

/// How many scratch arenas a pool holds once built.
pub const SCRATCH_COUNT: usize = 2;

/// A handle to a scratch arena drawn from a pool: the slot it occupies
/// and the checkpoint `release` restores.
pub struct ScratchRegion {
    slot: usize,
    saved: usize,
}

impl ScratchRegion {
    /// The pool slot this region draws from: the arena's identity.
    pub closed spec fn slot_spec(self) -> nat {
        self.slot as nat
    }

    /// The position restored when the region is released.
    pub closed spec fn saved_pos(self) -> nat {
        self.saved as nat
    }

    /// Returns the slot this region draws from.
    pub fn slot(&self) -> (s: usize)
        ensures
            s == self.slot_spec(),
    {
        self.slot
    }
}

/// A pool of reusable scratch arenas, built lazily from a configured
/// descriptor on first use.
pub struct ScratchPool {
    desc: MGADesc,
    slots: Vec<Arena>,
}

impl ScratchPool {
    /// Whether the pool's arenas have been built.
    pub closed spec fn built(self) -> bool {
        self.slots@.len() > 0
    }

    /// The descriptor the pool builds its arenas from.
    pub closed spec fn desc_spec(self) -> MGADesc {
        self.desc
    }

    /// How many arenas the pool currently holds.
    pub closed spec fn slot_count(self) -> nat {
        self.slots@.len()
    }

    /// The arena in the given slot.
    pub closed spec fn slot_arena(self, i: int) -> Arena {
        self.slots@[i]
    }

    /// Internal consistency: the pool is unbuilt or full, and every arena
    /// in it is well-formed.
    pub closed spec fn wf(self) -> bool {
        &&& (self.slots@.len() == 0 || self.slots@.len() == SCRATCH_COUNT)
        &&& forall|i: int| 0 <= i < self.slots@.len() ==> (#[trigger] self.slots@[i]).wf()
    }

    /// Creates an unbuilt pool with the default descriptor.
    pub fn new() -> (p: ScratchPool)
        ensures
            p.wf(),
            !p.built(),
            desc_valid(p.desc_spec()),
    {
        ScratchPool { desc: MGADesc::default(), slots: Vec::new() }
    }

    /// Returns how many arenas the pool currently holds: zero before the
    /// first use, the full count after it.
    pub fn slot_len(&self) -> (n: usize)
        ensures
            n == self.slot_count(),
    {
        self.slots.len()
    }

    /// Sets the descriptor used to build the pool. Must precede first use;
    /// once the pool exists the call is ignored.
    pub fn configure(&mut self, desc: &MGADesc)
        requires
            old(self).wf(),
        ensures
            final(self).wf(),
            final(self).built() == old(self).built(),
            final(self).slot_count() == old(self).slot_count(),
            forall|i: int|
                0 <= i < old(self).slot_count() ==> final(self).slot_arena(i) == old(
                    self,
                ).slot_arena(i),
            old(self).built() ==> final(self).desc_spec() == old(self).desc_spec(),
            !old(self).built() ==> final(self).desc_spec() == *desc,
    {
        if self.slots.len() == 0 {
            self.desc = *desc;
        }
    }

    /// Draws a scratch region: builds the pool from the configured
    /// descriptor on first use, selects the first slot whose identity is
    /// absent from `conflicts`, and opens a region over it.
    ///
    /// Returns `None` exactly when the pool cannot be built from its
    /// descriptor or every slot is named in `conflicts`.
    #[verifier::loop_isolation(false)]
    pub fn get(&mut self, conflicts: &[usize]) -> (r: Option<ScratchRegion>)
        requires
            old(self).wf(),
        ensures
            final(self).wf(),
            final(self).desc_spec() == old(self).desc_spec(),
            r is Some <==> ((old(self).built() || desc_valid(old(self).desc_spec()))
                && (exists|j: usize| j < SCRATCH_COUNT && !(#[trigger] conflicts@.contains(j)))),
            old(self).built() ==> final(self).built() && final(self).slot_count() == old(
                self,
            ).slot_count() && (forall|i: int|
                0 <= i < old(self).slot_count() ==> final(self).slot_arena(i) == old(
                    self,
                ).slot_arena(i)),
            r is Some ==> final(self).built(),
            !old(self).built() && final(self).built() ==> (forall|i: int|
                0 <= i < final(self).slot_count() ==> (#[trigger] final(self).slot_arena(
                    i,
                )).pos() == 0),
            match r {
                Some(reg) => {
                    &&& reg.slot_spec() < SCRATCH_COUNT
                    &&& reg.slot_spec() < final(self).slot_count()
                    &&& !conflicts@.contains(reg.slot_spec() as usize)
                    &&& (forall|j: usize|
                        j < reg.slot_spec() ==> #[trigger] conflicts@.contains(j))
                    &&& reg.saved_pos() == final(self).slot_arena(reg.slot_spec() as int).pos()
                },
                None => true,
            },
    {
        if self.slots.len() == 0 {
            if !self.build() {
                return None;
            }
        }
        let n = self.slots.len();
        let mut j: usize = 0;
        while j < n
            invariant
                n == self.slot_count(),
                n == SCRATCH_COUNT,
                j <= n,
                self.wf(),
                forall|k: usize| k < j ==> #[trigger] conflicts@.contains(k),
            decreases n - j,
        {
            if !contains_slot(conflicts, j) {
                let saved = self.slots[j].get_pos();
                return Some(ScratchRegion { slot: j, saved });
            }
            j = j + 1;
        }
        None
    }

    /// Builds the pool's arenas from the configured descriptor; leaves
    /// the pool unbuilt when the descriptor is rejected.
    fn build(&mut self) -> (ok: bool)
        requires
            old(self).wf(),
            !old(self).built(),
        ensures
            final(self).wf(),
            final(self).desc_spec() == old(self).desc_spec(),
            ok == desc_valid(old(self).desc_spec()),
            ok ==> final(self).built() && (forall|i: int|
                0 <= i < final(self).slot_count() ==> (#[trigger] final(self).slot_arena(
                    i,
                )).pos() == 0),
            !ok ==> !final(self).built(),
    {
        let mut k: usize = 0;
        while k < SCRATCH_COUNT
            invariant
                k <= SCRATCH_COUNT,
                self.slots@.len() == k,
                self.desc == old(self).desc,
                forall|i: int|
                    0 <= i < k ==> (#[trigger] self.slots@[i]).wf() && self.slots@[i].pos() == 0,
                k > 0 ==> desc_valid(old(self).desc),
            decreases SCRATCH_COUNT - k,
        {
            match Arena::create(&self.desc) {
                Ok(a) => {
                    self.slots.push(a);
                },
                Err(_) => {
                    self.slots.clear();
                    return false;
                },
            }
            k = k + 1;
        }
        true
    }

    /// Borrows the arena in a slot, to allocate scratch data from it.
    pub fn arena_mut(&mut self, slot: usize) -> (a: &mut Arena)
        requires
            old(self).wf(),
            slot < old(self).slot_count(),
        ensures
            *a == old(self).slot_arena(slot as int),
            a.wf(),
            final(self).desc_spec() == old(self).desc_spec(),
            final(self).slot_count() == old(self).slot_count(),
            final(self).built() == old(self).built(),
            forall|i: int|
                0 <= i < old(self).slot_count() && i != slot ==> final(self).slot_arena(i) == old(
                    self,
                ).slot_arena(i),
            final(self).slot_arena(slot as int) == *final(a),
            final(a).wf() ==> final(self).wf(),
    {
        &mut self.slots[slot]
    }

    /// Borrows the arena in a slot for reading.
    pub fn arena(&self, slot: usize) -> (a: &Arena)
        requires
            self.wf(),
            slot < self.slot_count(),
        ensures
            *a == self.slot_arena(slot as int),
            a.wf(),
    {
        &self.slots[slot]
    }

    /// Releases a scratch region: rewinds its slot's arena to the saved
    /// position, returning the capacity for reuse without destroying the
    /// arena. Fails with `InvalidPop` on the slot's arena exactly when
    /// its position has been rewound below the checkpoint.
    pub fn release(&mut self, reg: ScratchRegion) -> (r: bool)
        requires
            old(self).wf(),
            reg.slot_spec() < old(self).slot_count(),
        ensures
            final(self).wf(),
            final(self).desc_spec() == old(self).desc_spec(),
            final(self).slot_count() == old(self).slot_count(),
            final(self).built() == old(self).built(),
            forall|i: int|
                0 <= i < old(self).slot_count() && i != reg.slot_spec()
                    ==> final(self).slot_arena(i) == old(self).slot_arena(i),
            r == (reg.saved_pos() <= old(self).slot_arena(reg.slot_spec() as int).pos()),
            r ==> final(self).slot_arena(reg.slot_spec() as int).pos() == reg.saved_pos(),
            !r ==> final(self).slot_arena(reg.slot_spec() as int).pos() == old(self).slot_arena(
                reg.slot_spec() as int,
            ).pos() && final(self).slot_arena(reg.slot_spec() as int).error_code()
                == MGAErrorCode::InvalidPop,
    {
        let slot = reg.slot;
        let a = &mut self.slots[slot];
        a.pop_to(reg.saved)
    }
}

/// Decides whether a conflict list names a slot.
fn contains_slot(conflicts: &[usize], x: usize) -> (b: bool)
    ensures
        b == conflicts@.contains(x),
{
    let n = conflicts.len();
    let mut i: usize = 0;
    while i < n
        invariant
            i <= n,
            n == conflicts@.len(),
            forall|k: int| 0 <= k < i ==> conflicts@[k] != x,
        decreases n - i,
    {
        if conflicts[i] == x {
            return true;
        }
        i = i + 1;
    }
    false
}

} // verus!
