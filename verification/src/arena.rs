//! The arena core: one backend plus position, size, alignment and error
//! state, seen through a mathematical view of its logical byte space.

use vstd::prelude::*;
use crate::chain::caps_of;
use crate::chain::extend_zeros;
use crate::chain::grow_chain;
use crate::chain::kept_caps;
use crate::chain::locate;
use crate::chain::shrink_chain;
use crate::chain::store_of;
use crate::chain::zero_block;
use crate::chain::lemma_kept_caps_zero;
use crate::chain::lemma_store_index;
use crate::chain::lemma_store_len;
use crate::chain::lemma_store_push;
use crate::chain::lemma_store_update;
use crate::chain::lemma_sum_caps_mod;
use crate::desc::desc_valid;
use crate::desc::MGABackendKind;
use crate::desc::MGADesc;
use crate::err::ArenaResult;
use crate::err::MGAError;
use crate::err::MGAErrorCode;
use crate::geom::align_up;
use crate::geom::align_up_checked;
use crate::geom::exec_is_pow2;
use crate::geom::is_pow2;
use crate::geom::lemma_align_up;
use crate::geom::DEFAULT_ALIGN;
use crate::geom::MAX_NODES;
use crate::geom::PAGE_SIZE;
use vstd::pervasive::VecAdditionalExecFns;

verus! {

/// Runs `func` on a fresh growable arena of the given maximum size; the
/// arena is dropped when `func` returns. When creation fails, the closure
/// is not run.
pub fn with_arena<F: FnOnce(Arena)>(max_size: usize, func: F)
    requires
        forall|a: Arena| a.wf() ==> #[trigger] func.requires((a,)),
{
    match Arena::new(max_size) {
        Ok(a) => func(a),
        Err(_) => (),
    }
}

/// How an arena obtains and grows its backing memory.
#[derive(Debug)]
pub(crate) enum Backend {
    /// An append-only chain of heap blocks, logically concatenated into one
    /// address space by position arithmetic.
    GrowableBlocks { nodes: Vec<Vec<u8>> },
    /// A single reservation of the maximum size; `buf` holds the committed
    /// prefix, which only grows between resets.
    ReserveCommit { buf: Vec<u8> },
}

/// A bump-pointer arena: allocation advances a position counter through a
/// logical byte space; deallocation rewinds it.
#[derive(Debug)]
pub struct Arena {
    /// Bytes currently in use.
    pub(crate) position: usize,
    /// Maximum capacity, a positive multiple of the page size.
    pub(crate) max_size: usize,
    /// Growth increment, a positive multiple of the page size.
    pub(crate) block: usize,
    /// Alignment of returned addresses, a power of two.
    pub(crate) alignment: usize,
    /// Bytes of backing storage currently obtained; caches the backend sum.
    pub(crate) backing: usize,
    /// The growth strategy, fixed at construction.
    pub(crate) backend: Backend,
    /// The last error recorded on this arena.
    pub(crate) last_err: MGAErrorCode,
}

impl Arena {
    /// Bytes currently in use.
    pub closed spec fn pos(self) -> nat {
        self.position as nat
    }

    /// Maximum capacity in bytes.
    pub closed spec fn size(self) -> nat {
        self.max_size as nat
    }

    /// Growth increment in bytes.
    pub closed spec fn block_size(self) -> nat {
        self.block as nat
    }

    /// Alignment of returned addresses.
    pub closed spec fn align(self) -> nat {
        self.alignment as nat
    }

    /// The last error code recorded on this arena.
    pub closed spec fn error_code(self) -> MGAErrorCode {
        self.last_err
    }

    /// Whether the arena grows by chaining heap blocks.
    pub closed spec fn is_growable(self) -> bool {
        self.backend is GrowableBlocks
    }

    /// Whether the arena commits a fixed reservation.
    pub closed spec fn is_reserve(self) -> bool {
        self.backend is ReserveCommit
    }

    /// Every byte of backing storage the arena currently owns, in address
    /// order.
    pub closed spec fn store(self) -> Seq<u8> {
        match self.backend {
            Backend::GrowableBlocks { nodes } => store_of(nodes@),
            Backend::ReserveCommit { buf } => buf@,
        }
    }

    /// Bytes of backing storage currently obtained.
    pub open spec fn capacity(self) -> nat {
        self.store().len()
    }

    /// The bytes currently in use: the first `pos()` bytes of the store.
    pub open spec fn mem(self) -> Seq<u8> {
        self.store().take(self.pos() as int)
    }

    /// The capacities of the chained blocks, for a growable arena.
    pub closed spec fn block_caps(self) -> Seq<nat> {
        match self.backend {
            Backend::GrowableBlocks { nodes } => caps_of(nodes@),
            Backend::ReserveCommit { .. } => Seq::<nat>::empty(),
        }
    }

    /// How much of the reservation is committed, for a reserve arena.
    pub open spec fn commit_pos(self) -> nat {
        self.capacity()
    }

    /// The growable chain behind this arena, or the empty chain.
    pub(crate) closed spec fn chain_nodes(self) -> Seq<Vec<u8>> {
        match self.backend {
            Backend::GrowableBlocks { nodes } => nodes@,
            Backend::ReserveCommit { .. } => Seq::<Vec<u8>>::empty(),
        }
    }

    /// Internal consistency: the bookkeeping invariants every operation
    /// preserves.
    pub closed spec fn wf(self) -> bool {
        &&& self.max_size > 0
        &&& self.max_size as int % PAGE_SIZE as int == 0
        &&& self.block > 0
        &&& self.block as int % PAGE_SIZE as int == 0
        &&& self.alignment >= 1
        &&& is_pow2(self.alignment as nat)
        &&& self.position <= self.max_size
        &&& self.position as nat <= self.capacity()
        &&& self.backing as nat == self.capacity()
        &&& match self.backend {
            Backend::GrowableBlocks { nodes } => {
                &&& 1 <= nodes@.len() <= MAX_NODES
                &&& forall|i: int|
                    0 <= i < nodes@.len() ==> (#[trigger] nodes@[i]@.len()) > 0 && nodes@[i]@.len()
                        as int % PAGE_SIZE as int == 0
                &&& store_of(nodes@).len() <= usize::MAX
            },
            Backend::ReserveCommit { buf } => {
                &&& buf@.len() <= self.max_size
                &&& (buf@.len() as int % self.block as int == 0 || buf@.len() == self.max_size)
            },
        }
    }

    /// Whether `other` keeps this arena's configuration: the same maximum
    /// size, block size, alignment and backend kind.
    pub open spec fn same_config(self, other: Arena) -> bool {
        &&& other.size() == self.size()
        &&& other.block_size() == self.block_size()
        &&& other.align() == self.align()
        &&& other.is_growable() == self.is_growable()
        &&& other.is_reserve() == self.is_reserve()
    }

    /// The aligned amount a push of `n` bytes advances the position by.
    pub open spec fn advance(self, n: nat) -> int {
        align_up(n as int, self.align() as int)
    }

    /// Whether a push of `n` bytes succeeds in the current state: the new
    /// position stays within the maximum size, and a growable arena that
    /// must add a block is below the node ceiling.
    pub open spec fn can_push(self, n: nat) -> bool {
        &&& self.pos() + self.advance(n) <= self.size()
        &&& (self.is_growable() && self.pos() + self.advance(n) > self.capacity()
            ==> self.block_caps().len() < MAX_NODES)
    }

    /// Capacity of the block a growable arena adds to obtain `need` more
    /// bytes: the larger of the block size and the need, rounded up to the
    /// page size, clamped to the room left below the maximum size.
    pub open spec fn grown_cap(self, need: int) -> int {
        let want = if need > self.block_size() as int {
            need
        } else {
            self.block_size() as int
        };
        let raw = align_up(want, PAGE_SIZE as int);
        let room = self.size() as int - self.capacity() as int;
        if raw <= room {
            raw
        } else {
            room
        }
    }

    /// The commit level a reserve arena reaches to cover position `p`:
    /// whole block-size increments, clamped to the reservation.
    pub open spec fn commit_target(self, p: int) -> int {
        let t = align_up(p, self.block_size() as int);
        if t <= self.size() as int {
            t
        } else {
            self.size() as int
        }
    }

    /// The bounds a well-formed arena guarantees its callers.
    pub proof fn lemma_wf_facts(self)
        requires
            self.wf(),
        ensures
            self.align() >= 1,
            self.block_size() >= 1,
            self.size() >= 1,
            self.pos() <= self.size() <= usize::MAX,
            self.pos() <= self.capacity() <= usize::MAX,
            self.mem().len() == self.pos(),
    {
    }

    /// Creates an arena from a descriptor.
    ///
    /// The maximum and block sizes are rounded up to the page size; a zero
    /// block size selects an eighth of the maximum size, and a zero
    /// alignment the pointer width. Fails with `InitFailed` exactly on
    /// descriptors that `desc_valid` rejects.
    pub fn create(desc: &MGADesc) -> (r: ArenaResult<Arena>)
        ensures
            match r {
                Ok(a) => {
                    &&& desc_valid(*desc)
                    &&& a.wf()
                    &&& a.pos() == 0
                    &&& a.mem() == Seq::<u8>::empty()
                    &&& a.size() == align_up(desc.desired_max_size as int, PAGE_SIZE as int)
                    &&& a.align() == (if desc.align == 0 {
                        DEFAULT_ALIGN as nat
                    } else {
                        desc.align as nat
                    })
                    &&& a.block_size() == (if desc.desired_block_size == 0 {
                        align_up(a.size() as int / 8, PAGE_SIZE as int)
                    } else {
                        align_up(desc.desired_block_size as int, PAGE_SIZE as int)
                    })
                    &&& a.is_growable() == (desc.backend is GrowableBlocks)
                    &&& a.is_reserve() == (desc.backend is ReserveCommit)
                    &&& a.error_code() is NoError
                    &&& a.is_growable() ==> a.block_caps() =~= seq![a.block_size()]
                    &&& a.is_reserve() ==> a.commit_pos() == 0
                },
                Err(e) => {
                    &&& e.code is InitFailed
                    &&& !desc_valid(*desc)
                },
            },
    {
        if desc.desired_max_size == 0 {
            return Err(MGAError::new(MGAErrorCode::InitFailed));
        }
        if desc.align != 0 && !exec_is_pow2(desc.align) {
            return Err(MGAError::new(MGAErrorCode::InitFailed));
        }
        let size = match align_up_checked(desc.desired_max_size, PAGE_SIZE) {
            Some(s) => s,
            None => {
                return Err(MGAError::new(MGAErrorCode::InitFailed));
            },
        };
        proof {
            lemma_align_up(desc.desired_max_size as int, PAGE_SIZE as int);
        }
        let bsz = if desc.desired_block_size == 0 {
            match align_up_checked(size / 8, PAGE_SIZE) {
                Some(b) => b,
                None => {
                    proof {
                        lemma_align_up(size as int / 8, PAGE_SIZE as int);
                    }
                    return Err(MGAError::new(MGAErrorCode::InitFailed));
                },
            }
        } else {
            match align_up_checked(desc.desired_block_size, PAGE_SIZE) {
                Some(b) => b,
                None => {
                    return Err(MGAError::new(MGAErrorCode::InitFailed));
                },
            }
        };
        proof {
            if desc.desired_block_size == 0 {
                lemma_align_up(size as int / 8, PAGE_SIZE as int);
            } else {
                lemma_align_up(desc.desired_block_size as int, PAGE_SIZE as int);
            }
        }
        let alignment = if desc.align == 0 {
            proof {
                assert(is_pow2(1));
                assert(is_pow2(2));
                assert(is_pow2(4));
                assert(is_pow2(8));
            }
            DEFAULT_ALIGN
        } else {
            desc.align
        };
        let (backend, backing): (Backend, usize) = match desc.backend {
            MGABackendKind::GrowableBlocks => {
                let first = zero_block(bsz);
                let mut nodes: Vec<Vec<u8>> = Vec::new();
                nodes.push(first);
                proof {
                    lemma_store_push(Seq::<Vec<u8>>::empty(), first);
                    assert(store_of(nodes@) =~= first@);
                    assert(caps_of(nodes@) =~= seq![first@.len()]);
                }
                (Backend::GrowableBlocks { nodes }, bsz)
            },
            MGABackendKind::ReserveCommit => (Backend::ReserveCommit { buf: Vec::new() }, 0),
        };
        let a = Arena {
            position: 0,
            max_size: size,
            block: bsz,
            alignment,
            backing,
            backend,
            last_err: MGAErrorCode::NoError,
        };
        proof {
            assert(a.mem() =~= Seq::<u8>::empty());
            vstd::arithmetic::div_mod::lemma_small_mod(0, bsz as nat);
            if desc.backend is GrowableBlocks {
                assert(a.block_caps() =~= seq![a.block_size()]);
            }
        }
        Ok(a)
    }

    /// Creates a growable arena of the given maximum size with every other
    /// parameter left to its default.
    pub fn new(max_size: usize) -> (r: ArenaResult<Arena>)
        ensures
            match r {
                Ok(a) => {
                    &&& max_size > 0
                    &&& align_up(max_size as int, PAGE_SIZE as int) <= usize::MAX
                    &&& a.wf()
                    &&& a.pos() == 0
                    &&& a.size() == align_up(max_size as int, PAGE_SIZE as int)
                    &&& a.is_growable()
                    &&& a.align() == DEFAULT_ALIGN
                    &&& a.error_code() is NoError
                },
                Err(e) => {
                    &&& e.code is InitFailed
                    &&& (max_size == 0 || align_up(max_size as int, PAGE_SIZE as int)
                        > usize::MAX)
                },
            },
    {
        let mut d = MGADesc::default();
        d.desired_max_size = max_size;
        Arena::create(&d)
    }

    /// Returns the current position.
    pub fn get_pos(&self) -> (p: usize)
        ensures
            p == self.pos(),
    {
        self.position
    }

    /// Returns the maximum size.
    pub fn get_size(&self) -> (s: usize)
        ensures
            s == self.size(),
    {
        self.max_size
    }

    /// Returns the block size.
    pub fn get_block_size(&self) -> (b: usize)
        ensures
            b == self.block_size(),
    {
        self.block
    }

    /// Returns the alignment.
    pub fn get_align(&self) -> (a: usize)
        ensures
            a == self.align(),
    {
        self.alignment
    }

    /// Returns the last error recorded on this arena.
    pub fn get_error(&self) -> (e: MGAError)
        ensures
            e.code == self.error_code(),
    {
        MGAError { code: self.last_err }
    }

    /// Returns how many blocks a growable arena currently chains; zero for
    /// a reserve arena.
    pub fn block_count(&self) -> (n: usize)
        ensures
            self.is_growable() ==> n == self.block_caps().len(),
            self.is_reserve() ==> n == 0,
    {
        match &self.backend {
            Backend::GrowableBlocks { nodes } => nodes.len(),
            Backend::ReserveCommit { .. } => 0,
        }
    }

    /// Returns how much of a reserve arena's reservation is committed; for
    /// a growable arena, the total capacity of its blocks.
    pub fn get_commit_pos(&self) -> (c: usize)
        requires
            self.wf(),
        ensures
            c == self.commit_pos(),
    {
        self.backing
    }

    /// Allocates `size` bytes: returns the current position as the
    /// allocation's address and advances the position by the request
    /// rounded up to the alignment. The bytes are not guaranteed zero.
    ///
    /// Fails, returning `None` and recording the error, exactly when the
    /// new position would exceed the maximum size (`OutOfMemory`) or a
    /// growable arena would need a block beyond the node ceiling
    /// (`OutOfNodes`). On failure the arena is left unchanged.
    #[verifier::rlimit(30)]
    pub fn push(&mut self, size: usize) -> (r: Option<usize>)
        requires
            old(self).wf(),
        ensures
            final(self).wf(),
            old(self).same_config(*final(self)),
            r is Some <==> old(self).can_push(size as nat),
            match r {
                Some(addr) => {
                    &&& addr == old(self).pos()
                    &&& final(self).pos() == old(self).pos() + old(self).advance(size as nat)
                    &&& final(self).mem().len() == final(self).pos()
                    &&& final(self).mem().take(old(self).pos() as int) == old(self).mem()
                    &&& final(self).error_code() == old(self).error_code()
                    &&& (old(self).is_growable() ==> final(self).block_caps() == (if old(
                        self,
                    ).pos() + old(self).advance(size as nat) <= old(self).capacity() {
                        old(self).block_caps()
                    } else {
                        old(self).block_caps().push(
                            old(self).grown_cap(
                                old(self).pos() + old(self).advance(size as nat) - old(
                                    self,
                                ).capacity(),
                            ) as nat,
                        )
                    }))
                    &&& (old(self).is_reserve() ==> final(self).commit_pos() as int == (if old(
                        self,
                    ).pos() + old(self).advance(size as nat) <= old(self).commit_pos() {
                        old(self).commit_pos() as int
                    } else {
                        old(self).commit_target(
                            old(self).pos() + old(self).advance(size as nat),
                        )
                    }))
                },
                None => {
                    &&& final(self).pos() == old(self).pos()
                    &&& final(self).store() == old(self).store()
                    &&& final(self).mem() == old(self).mem()
                    &&& final(self).block_caps() == old(self).block_caps()
                    &&& final(self).error_code() == (if old(self).pos() + old(self).advance(
                        size as nat,
                    ) > old(self).size() {
                        MGAErrorCode::OutOfMemory
                    } else {
                        MGAErrorCode::OutOfNodes
                    })
                },
            },
    {
        let pos = self.position;
        let max = self.max_size;
        let bsz = self.block;
        let cap = self.backing;
        proof {
            lemma_align_up(size as int, self.alignment as int);
        }
        let a = match align_up_checked(size, self.alignment) {
            Some(v) => v,
            None => {
                self.last_err = MGAErrorCode::OutOfMemory;
                return None;
            },
        };
        let new_p = match pos.checked_add(a) {
            Some(v) => v,
            None => {
                self.last_err = MGAErrorCode::OutOfMemory;
                return None;
            },
        };
        if new_p > max {
            self.last_err = MGAErrorCode::OutOfMemory;
            return None;
        }
        if new_p > cap {
            match &mut self.backend {
                Backend::GrowableBlocks { nodes } => {
                    proof {
                        lemma_store_len(nodes@);
                        lemma_sum_caps_mod(caps_of(nodes@), PAGE_SIZE as int);
                        vstd::arithmetic::div_mod::lemma_sub_mod_noop(
                            max as int,
                            cap as int,
                            PAGE_SIZE as int,
                        );
                        vstd::arithmetic::div_mod::lemma_small_mod(0, PAGE_SIZE as nat);
                    }
                    if nodes.len() >= MAX_NODES {
                        self.last_err = MGAErrorCode::OutOfNodes;
                        return None;
                    }
                    let need = new_p - cap;
                    let want = if need > bsz {
                        need
                    } else {
                        bsz
                    };
                    let room = max - cap;
                    proof {
                        lemma_align_up(want as int, PAGE_SIZE as int);
                    }
                    let grown = match align_up_checked(want, PAGE_SIZE) {
                        Some(rawv) => if rawv <= room {
                            rawv
                        } else {
                            room
                        },
                        None => room,
                    };
                    grow_chain(nodes, grown);
                    self.backing = cap + grown;
                },
                Backend::ReserveCommit { buf } => {
                    proof {
                        lemma_align_up(new_p as int, bsz as int);
                    }
                    let target = match align_up_checked(new_p, bsz) {
                        Some(t) => if t <= max {
                            t
                        } else {
                            max
                        },
                        None => max,
                    };
                    extend_zeros(buf, target);
                    self.backing = target;
                },
            }
        }
        self.position = new_p;
        proof {
            assert(self.mem().take(pos as int) =~= old(self).mem());
        }
        Some(pos)
    }

    /// Rewinds the position to `new_pos`, releasing every growable block
    /// strictly newer than the one containing the new position.
    ///
    /// Fails, returning `false` and recording `InvalidPop`, exactly when
    /// `new_pos` exceeds the current position; the arena is then left
    /// unchanged. A reserve arena never decommits here.
    pub fn pop_to(&mut self, new_pos: usize) -> (r: bool)
        requires
            old(self).wf(),
        ensures
            final(self).wf(),
            old(self).same_config(*final(self)),
            r == (new_pos <= old(self).pos()),
            r ==> {
                &&& final(self).pos() == new_pos
                &&& final(self).mem() == old(self).mem().take(new_pos as int)
                &&& final(self).error_code() == old(self).error_code()
                &&& (old(self).is_growable() ==> final(self).block_caps() == kept_caps(
                    old(self).block_caps(),
                    new_pos as nat,
                ))
                &&& (old(self).is_reserve() ==> final(self).commit_pos() == old(
                    self,
                ).commit_pos())
            },
            !r ==> {
                &&& final(self).pos() == old(self).pos()
                &&& final(self).store() == old(self).store()
                &&& final(self).mem() == old(self).mem()
                &&& final(self).block_caps() == old(self).block_caps()
                &&& final(self).error_code() == MGAErrorCode::InvalidPop
            },
    {
        if new_pos > self.position {
            self.last_err = MGAErrorCode::InvalidPop;
            return false;
        }
        let cap = self.backing;
        match &mut self.backend {
            Backend::GrowableBlocks { nodes } => {
                proof {
                    lemma_store_len(nodes@);
                }
                let ghost onodes = nodes@;
                let new_cap = shrink_chain(nodes, cap, new_pos);
                proof {
                    assert forall|i: int| 0 <= i < nodes@.len() implies (#[trigger] nodes@[i]@.len())
                        > 0 && nodes@[i]@.len() as int % PAGE_SIZE as int == 0 by {
                        assert(nodes@[i] == onodes[i]);
                        assert(onodes[i]@.len() > 0 && onodes[i]@.len() as int % PAGE_SIZE as int
                            == 0);
                    }
                }
                self.backing = new_cap;
            },
            Backend::ReserveCommit { .. } => {},
        }
        self.position = new_pos;
        proof {
            let os = old(self).store();
            if old(self).is_growable() {
                assert(self.store() == os.take(self.backing as int));
                assert(new_pos <= self.backing <= os.len());
                assert(self.mem() =~= old(self).mem().take(new_pos as int));
            } else {
                assert(self.mem() =~= old(self).mem().take(new_pos as int));
            }
        }
        true
    }

    /// Deallocates `size` bytes: moves the position back by the request
    /// rounded up to the alignment.
    ///
    /// Fails, returning `false` and recording `InvalidPop`, exactly when
    /// that rounded amount exceeds the current position; the arena is then
    /// left unchanged.
    pub fn pop(&mut self, size: usize) -> (r: bool)
        requires
            old(self).wf(),
        ensures
            final(self).wf(),
            old(self).same_config(*final(self)),
            r == (old(self).advance(size as nat) <= old(self).pos()),
            r ==> {
                &&& final(self).pos() == old(self).pos() - old(self).advance(size as nat)
                &&& final(self).mem() == old(self).mem().take(final(self).pos() as int)
                &&& final(self).error_code() == old(self).error_code()
                &&& (old(self).is_growable() ==> final(self).block_caps() == kept_caps(
                    old(self).block_caps(),
                    final(self).pos(),
                ))
                &&& (old(self).is_reserve() ==> final(self).commit_pos() == old(
                    self,
                ).commit_pos())
            },
            !r ==> {
                &&& final(self).pos() == old(self).pos()
                &&& final(self).store() == old(self).store()
                &&& final(self).mem() == old(self).mem()
                &&& final(self).block_caps() == old(self).block_caps()
                &&& final(self).error_code() == MGAErrorCode::InvalidPop
            },
    {
        proof {
            lemma_align_up(size as int, self.alignment as int);
        }
        let a = match align_up_checked(size, self.alignment) {
            Some(v) => v,
            None => {
                self.last_err = MGAErrorCode::InvalidPop;
                return false;
            },
        };
        if a > self.position {
            self.last_err = MGAErrorCode::InvalidPop;
            return false;
        }
        let target = self.position - a;
        self.pop_to(target)
    }

    /// Rewinds the position to zero. A growable arena keeps its very first
    /// block alive for reuse; a reserve arena decommits everything. Since
    /// a push returns the current position, the next push after a reset
    /// returns address zero: the same address the arena's very first
    /// allocation received.
    pub fn reset(&mut self)
        requires
            old(self).wf(),
        ensures
            final(self).wf(),
            old(self).same_config(*final(self)),
            final(self).pos() == 0,
            final(self).mem() == Seq::<u8>::empty(),
            final(self).error_code() == old(self).error_code(),
            old(self).is_growable() ==> final(self).block_caps() == old(self).block_caps().take(
                1,
            ),
            old(self).is_reserve() ==> final(self).commit_pos() == 0,
    {
        proof {
            if old(self).is_growable() {
                assert forall|i: int| 0 <= i < old(self).block_caps().len() implies old(
                    self,
                ).block_caps()[i] > 0 by {
                    assert(old(self).block_caps()[i] == old(self).chain_nodes()[i]@.len());
                }
                lemma_kept_caps_zero(old(self).block_caps());
            }
        }
        let popped = self.pop_to(0);
        proof {
            assert(popped);
            assert(old(self).mem().take(0) =~= Seq::<u8>::empty());
        }
        proof {
            vstd::arithmetic::div_mod::lemma_small_mod(0, old(self).block_size());
        }
        match &mut self.backend {
            Backend::ReserveCommit { buf } => {
                buf.clear();
                self.backing = 0;
            },
            Backend::GrowableBlocks { .. } => {},
        }
        proof {
            assert(self.mem() =~= Seq::<u8>::empty());
        }
    }

    /// Reads the byte at address `addr` of the allocated region.
    pub fn read_u8(&self, addr: usize) -> (b: u8)
        requires
            self.wf(),
            addr < self.pos(),
        ensures
            b == self.mem()[addr as int],
    {
        match &self.backend {
            Backend::ReserveCommit { buf } => buf[addr],
            Backend::GrowableBlocks { nodes } => {
                proof {
                    lemma_store_len(nodes@);
                }
                let (j, off) = locate(nodes, addr);
                proof {
                    lemma_store_index(nodes@, j as int, off as int);
                }
                nodes[j][off]
            },
        }
    }

    /// Writes `val` to address `addr` of the allocated region; every other
    /// byte is untouched.
    pub fn write_u8(&mut self, addr: usize, val: u8)
        requires
            old(self).wf(),
            addr < old(self).pos(),
        ensures
            final(self).wf(),
            old(self).same_config(*final(self)),
            final(self).pos() == old(self).pos(),
            final(self).mem() == old(self).mem().update(addr as int, val),
            final(self).error_code() == old(self).error_code(),
            final(self).block_caps() == old(self).block_caps(),
            final(self).commit_pos() == old(self).commit_pos(),
    {
        match &mut self.backend {
            Backend::ReserveCommit { buf } => {
                buf.set(addr, val);
            },
            Backend::GrowableBlocks { nodes } => {
                proof {
                    lemma_store_len(nodes@);
                }
                let (j, off) = locate(nodes, addr);
                let ghost before = nodes@;
                let blk = &mut nodes[j];
                blk.set(off, val);
                proof {
                    lemma_store_update(before, nodes@, j as int, off as int, val);
                    assert forall|i: int| 0 <= i < nodes@.len() implies (#[trigger] nodes@[i]@.len())
                        > 0 && nodes@[i]@.len() as int % PAGE_SIZE as int == 0 by {
                        assert(caps_of(nodes@)[i] == caps_of(before)[i]);
                        assert(before[i]@.len() > 0 && before[i]@.len() as int % PAGE_SIZE as int
                            == 0);
                    }
                }
            },
        }
        proof {
            assert(self.mem() =~= old(self).mem().update(addr as int, val));
        }
    }
}

} // verus!
