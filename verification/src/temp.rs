//! Temporary regions: checkpoint/rollback scopes layered on an arena.

use vstd::prelude::*;
use crate::arena::Arena;
use crate::err::MGAErrorCode;

verus! {

/// A temporary region: the checkpoint `temp_begin` captured. It is
/// consumed by `temp_end`, so a region can be ended at most once.
pub struct MGATemp {
    saved: usize,
}

impl MGATemp {
    /// The position captured when the region began.
    pub closed spec fn saved_pos(self) -> nat {
        self.saved as nat
    }
}

impl Arena {
    /// Opens a temporary region over this arena, capturing the current
    /// position as its checkpoint.
    pub fn temp_begin(&self) -> (t: MGATemp)
        ensures
            t.saved_pos() == self.pos(),
    {
        MGATemp { saved: self.get_pos() }
    }

    /// Ends a temporary region: rewinds the arena to the region's saved
    /// position, undoing every allocation made since it began.
    ///
    /// Regions on one arena nest correctly only when ended in strict
    /// reverse order of creation; ending one out of order still rewinds
    /// to its saved position, silently invalidating memory an enclosing,
    /// still-open region assumed live. Fails with `InvalidPop`, leaving
    /// the arena unchanged, exactly when the position has already been
    /// rewound below the checkpoint.
    pub fn temp_end(&mut self, t: MGATemp) -> (r: bool)
        requires
            old(self).wf(),
        ensures
            final(self).wf(),
            old(self).same_config(*final(self)),
            r == (t.saved_pos() <= old(self).pos()),
            r ==> {
                &&& final(self).pos() == t.saved_pos()
                &&& final(self).mem() == old(self).mem().take(t.saved_pos() as int)
                &&& final(self).error_code() == old(self).error_code()
            },
            !r ==> {
                &&& final(self).pos() == old(self).pos()
                &&& final(self).mem() == old(self).mem()
                &&& final(self).error_code() == MGAErrorCode::InvalidPop
            },
    {
        self.pop_to(t.saved)
    }
}

} // verus!
