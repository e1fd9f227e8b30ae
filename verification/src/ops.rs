//! Derived allocation operations: zeroed pushes, slice allocation, and
//! little-endian integer access, all built on the engine's primitives.

use vstd::prelude::*;
use crate::arena::Arena;
use crate::geom::lemma_align_up;

verus! {

/// The little-endian bytes of a 32-bit value, least significant first.
pub open spec fn le_bytes_u32(v: u32) -> Seq<u8> {
    seq![
        (v % 0x100) as u8,
        ((v / 0x100) % 0x100) as u8,
        ((v / 0x10000) % 0x100) as u8,
        ((v / 0x1000000) % 0x100) as u8,
    ]
}

/// The value four little-endian bytes denote.
pub open spec fn u32_of_le(b0: u8, b1: u8, b2: u8, b3: u8) -> int {
    b0 + 0x100 * b1 + 0x10000 * b2 + 0x1000000 * b3
}

/// The little-endian bytes of a 64-bit value, least significant first.
pub open spec fn le_bytes_u64(v: u64) -> Seq<u8> {
    seq![
        (v % 0x100) as u8,
        ((v / 0x100) % 0x100) as u8,
        ((v / 0x10000) % 0x100) as u8,
        ((v / 0x1000000) % 0x100) as u8,
        ((v / 0x100000000) % 0x100) as u8,
        ((v / 0x10000000000) % 0x100) as u8,
        ((v / 0x1000000000000) % 0x100) as u8,
        ((v / 0x100000000000000) % 0x100) as u8,
    ]
}

/// The value eight little-endian bytes denote.
pub open spec fn u64_of_le(b: Seq<u8>) -> int
    recommends
        b.len() == 8,
{
    b[0] + 0x100 * b[1] + 0x10000 * b[2] + 0x1000000 * b[3] + 0x100000000 * b[4] + 0x10000000000
        * b[5] + 0x1000000000000 * b[6] + 0x100000000000000 * b[7]
}

/// Reassembling the little-endian bytes of a 32-bit value gives it back.
pub proof fn lemma_u32_le_roundtrip(v: u32)
    ensures
        u32_of_le(le_bytes_u32(v)[0], le_bytes_u32(v)[1], le_bytes_u32(v)[2], le_bytes_u32(v)[3])
            == v,
{
    assert((v % 0x100) + 0x100 * ((v / 0x100) % 0x100) + 0x10000 * ((v / 0x10000) % 0x100)
        + 0x1000000 * ((v / 0x1000000) % 0x100) == v) by (bit_vector);
}

/// Reassembling the little-endian bytes of a 64-bit value gives it back.
pub proof fn lemma_u64_le_roundtrip(v: u64)
    ensures
        u64_of_le(le_bytes_u64(v)) == v,
{
    assert((v % 0x100) + 0x100 * ((v / 0x100) % 0x100) + 0x10000 * ((v / 0x10000) % 0x100)
        + 0x1000000 * ((v / 0x1000000) % 0x100) + 0x100000000 * ((v / 0x100000000) % 0x100)
        + 0x10000000000 * ((v / 0x10000000000) % 0x100) + 0x1000000000000 * ((v / 0x1000000000000)
        % 0x100) + 0x100000000000000 * ((v / 0x100000000000000) % 0x100) == v) by (bit_vector);
}

impl Arena {
    /// Zeroes the byte range `[from, to)` of the allocated region.
    fn fill_zero(&mut self, from: usize, to: usize)
        requires
            old(self).wf(),
            from <= to <= old(self).pos(),
        ensures
            final(self).wf(),
            old(self).same_config(*final(self)),
            final(self).pos() == old(self).pos(),
            final(self).mem().len() == old(self).mem().len(),
            forall|i: int|
                0 <= i < old(self).mem().len() && !(from <= i < to) ==> final(self).mem()[i] == old(
                    self,
                ).mem()[i],
            forall|i: int| from <= i < to ==> final(self).mem()[i] == 0u8,
            final(self).error_code() == old(self).error_code(),
            final(self).block_caps() == old(self).block_caps(),
            final(self).commit_pos() == old(self).commit_pos(),
    {
        let mut k = from;
        while k < to
            invariant
                from <= k <= to <= self.pos(),
                self.wf(),
                old(self).same_config(*self),
                self.pos() == old(self).pos(),
                self.mem().len() == old(self).mem().len(),
                forall|i: int|
                    0 <= i < old(self).mem().len() && !(from <= i < k) ==> self.mem()[i] == old(
                        self,
                    ).mem()[i],
                forall|i: int| from <= i < k ==> self.mem()[i] == 0u8,
                self.error_code() == old(self).error_code(),
                self.block_caps() == old(self).block_caps(),
                self.commit_pos() == old(self).commit_pos(),
            decreases to - k,
        {
            proof {
                self.lemma_wf_facts();
            }
            self.write_u8(k, 0u8);
            k = k + 1;
        }
    }

    /// Allocates `size` bytes as `push` does, and guarantees in addition
    /// that every returned byte reads as zero before any write.
    pub fn push_zero(&mut self, size: usize) -> (r: Option<usize>)
        requires
            old(self).wf(),
        ensures
            final(self).wf(),
            old(self).same_config(*final(self)),
            r is Some <==> old(self).can_push(size as nat),
            match r {
                Some(addr) => {
                    &&& addr == old(self).pos()
                    &&& final(self).pos() == old(self).pos() + old(self).advance(size as nat)
                    &&& final(self).mem().len() == final(self).pos()
                    &&& final(self).mem().take(old(self).pos() as int) == old(self).mem()
                    &&& (forall|i: int|
                        old(self).pos() <= i < final(self).pos() ==> final(self).mem()[i] == 0u8)
                    &&& final(self).error_code() == old(self).error_code()
                    &&& (old(self).is_growable() ==> final(self).block_caps() == (if old(
                        self,
                    ).pos() + old(self).advance(size as nat) <= old(self).capacity() {
                        old(self).block_caps()
                    } else {
                        old(self).block_caps().push(
                            old(self).grown_cap(
                                old(self).pos() + old(self).advance(size as nat) - old(
                                    self,
                                ).capacity(),
                            ) as nat,
                        )
                    }))
                    &&& (old(self).is_reserve() ==> final(self).commit_pos() as int == (if old(
                        self,
                    ).pos() + old(self).advance(size as nat) <= old(self).commit_pos() {
                        old(self).commit_pos() as int
                    } else {
                        old(self).commit_target(
                            old(self).pos() + old(self).advance(size as nat),
                        )
                    }))
                },
                None => {
                    &&& final(self).pos() == old(self).pos()
                    &&& final(self).store() == old(self).store()
                    &&& final(self).mem() == old(self).mem()
                    &&& final(self).block_caps() == old(self).block_caps()
                    &&& final(self).error_code() == (if old(self).pos() + old(self).advance(
                        size as nat,
                    ) > old(self).size() {
                        crate::err::MGAErrorCode::OutOfMemory
                    } else {
                        crate::err::MGAErrorCode::OutOfNodes
                    })
                },
            },
    {
        match self.push(size) {
            Some(addr) => {
                proof {
                    old(self).lemma_wf_facts();
                    lemma_align_up(size as int, old(self).align() as int);
                }
                let p = self.get_pos();
                self.fill_zero(addr, p);
                proof {
                    assert(self.mem().take(old(self).pos() as int) =~= old(self).mem());
                }
                Some(addr)
            },
            None => None,
        }
    }

    /// Allocates room for `data` and copies it in, returning the address
    /// of the copy. Fails exactly as `push` of `data.len()` does.
    pub fn alloc_slice(&mut self, data: &[u8]) -> (r: Option<usize>)
        requires
            old(self).wf(),
        ensures
            final(self).wf(),
            old(self).same_config(*final(self)),
            r is Some <==> old(self).can_push(data@.len()),
            match r {
                Some(addr) => {
                    &&& addr == old(self).pos()
                    &&& final(self).pos() == old(self).pos() + old(self).advance(data@.len())
                    &&& final(self).mem().len() == final(self).pos()
                    &&& final(self).mem().take(old(self).pos() as int) == old(self).mem()
                    &&& final(self).mem().subrange(addr as int, addr + data@.len()) == data@
                    &&& final(self).error_code() == old(self).error_code()
                },
                None => {
                    &&& final(self).pos() == old(self).pos()
                    &&& final(self).store() == old(self).store()
                    &&& final(self).mem() == old(self).mem()
                    &&& final(self).block_caps() == old(self).block_caps()
                    &&& final(self).error_code() == (if old(self).pos() + old(self).advance(
                        data@.len(),
                    ) > old(self).size() {
                        crate::err::MGAErrorCode::OutOfMemory
                    } else {
                        crate::err::MGAErrorCode::OutOfNodes
                    })
                },
            },
    {
        let n = data.len();
        match self.push(n) {
            Some(addr) => {
                proof {
                    old(self).lemma_wf_facts();
                    lemma_align_up(n as int, old(self).align() as int);
                }
                let ghost pushed = *self;
                let mut k: usize = 0;
                while k < n
                    invariant
                        0 <= k <= n,
                        n == data@.len(),
                        addr + n <= self.pos(),
                        self.wf(),
                        pushed.same_config(*self),
                        self.pos() == pushed.pos(),
                        self.mem().len() == pushed.mem().len(),
                        forall|i: int|
                            0 <= i < pushed.mem().len() && !(addr <= i < addr + k)
                                ==> self.mem()[i] == pushed.mem()[i],
                        forall|i: int| 0 <= i < k ==> self.mem()[addr + i] == data@[i],
                        self.error_code() == pushed.error_code(),
                    decreases n - k,
                {
                    proof {
                        self.lemma_wf_facts();
                    }
                    let b = data[k];
                    self.write_u8(addr + k, b);
                    k = k + 1;
                }
                proof {
                    assert(self.mem().take(old(self).pos() as int) =~= old(self).mem());
                    assert(self.mem().subrange(addr as int, addr + data@.len()) =~= data@);
                }
                Some(addr)
            },
            None => None,
        }
    }

    /// Allocates room for `len` bytes, all reading as zero; equivalent to
    /// `push_zero(len)`.
    pub fn alloc_zeroed_slice(&mut self, len: usize) -> (r: Option<usize>)
        requires
            old(self).wf(),
        ensures
            final(self).wf(),
            old(self).same_config(*final(self)),
            r is Some <==> old(self).can_push(len as nat),
            match r {
                Some(addr) => {
                    &&& addr == old(self).pos()
                    &&& final(self).pos() == old(self).pos() + old(self).advance(len as nat)
                    &&& final(self).mem().len() == final(self).pos()
                    &&& final(self).mem().take(old(self).pos() as int) == old(self).mem()
                    &&& (forall|i: int|
                        old(self).pos() <= i < final(self).pos() ==> final(self).mem()[i] == 0u8)
                    &&& final(self).error_code() == old(self).error_code()
                },
                None => {
                    &&& final(self).pos() == old(self).pos()
                    &&& final(self).store() == old(self).store()
                    &&& final(self).mem() == old(self).mem()
                    &&& final(self).block_caps() == old(self).block_caps()
                    &&& final(self).error_code() == (if old(self).pos() + old(self).advance(
                        len as nat,
                    ) > old(self).size() {
                        crate::err::MGAErrorCode::OutOfMemory
                    } else {
                        crate::err::MGAErrorCode::OutOfNodes
                    })
                },
            },
    {
        self.push_zero(len)
    }

    /// Writes `v` at `addr` in little-endian order; every byte outside the
    /// four written ones is untouched.
    pub fn write_u32(&mut self, addr: usize, v: u32)
        requires
            old(self).wf(),
            addr + 4 <= old(self).pos(),
        ensures
            final(self).wf(),
            old(self).same_config(*final(self)),
            final(self).pos() == old(self).pos(),
            final(self).mem().len() == old(self).mem().len(),
            final(self).mem().subrange(addr as int, addr + 4) == le_bytes_u32(v),
            forall|k: int| 0 <= k < 4 ==> final(self).mem()[addr + k] == le_bytes_u32(v)[k],
            forall|i: int|
                0 <= i < old(self).mem().len() && !(addr <= i < addr + 4) ==> final(self).mem()[i]
                    == old(self).mem()[i],
            final(self).error_code() == old(self).error_code(),
    {
        proof {
            old(self).lemma_wf_facts();
        }
        self.write_u8(addr, (v % 0x100) as u8);
        self.write_u8(addr + 1, ((v / 0x100) % 0x100) as u8);
        self.write_u8(addr + 2, ((v / 0x10000) % 0x100) as u8);
        self.write_u8(addr + 3, ((v / 0x1000000) % 0x100) as u8);
        proof {
            assert(self.mem().subrange(addr as int, addr + 4) =~= le_bytes_u32(v));
        }
    }

    /// Reads the little-endian 32-bit value at `addr`.
    pub fn read_u32(&self, addr: usize) -> (r: u32)
        requires
            self.wf(),
            addr + 4 <= self.pos(),
        ensures
            r == u32_of_le(
                self.mem()[addr as int],
                self.mem()[addr + 1],
                self.mem()[addr + 2],
                self.mem()[addr + 3],
            ),
    {
        proof {
            self.lemma_wf_facts();
        }
        let b0 = self.read_u8(addr);
        let b1 = self.read_u8(addr + 1);
        let b2 = self.read_u8(addr + 2);
        let b3 = self.read_u8(addr + 3);
        (b0 as u32) + 0x100 * (b1 as u32) + 0x10000 * (b2 as u32) + 0x1000000 * (b3 as u32)
    }

    /// Writes `v` at `addr` in little-endian order; every byte outside the
    /// eight written ones is untouched.
    pub fn write_u64(&mut self, addr: usize, v: u64)
        requires
            old(self).wf(),
            addr + 8 <= old(self).pos(),
        ensures
            final(self).wf(),
            old(self).same_config(*final(self)),
            final(self).pos() == old(self).pos(),
            final(self).mem().len() == old(self).mem().len(),
            final(self).mem().subrange(addr as int, addr + 8) == le_bytes_u64(v),
            forall|k: int| 0 <= k < 8 ==> final(self).mem()[addr + k] == le_bytes_u64(v)[k],
            forall|i: int|
                0 <= i < old(self).mem().len() && !(addr <= i < addr + 8) ==> final(self).mem()[i]
                    == old(self).mem()[i],
            final(self).error_code() == old(self).error_code(),
    {
        proof {
            old(self).lemma_wf_facts();
        }
        self.write_u8(addr, (v % 0x100) as u8);
        self.write_u8(addr + 1, ((v / 0x100) % 0x100) as u8);
        self.write_u8(addr + 2, ((v / 0x10000) % 0x100) as u8);
        self.write_u8(addr + 3, ((v / 0x1000000) % 0x100) as u8);
        self.write_u8(addr + 4, ((v / 0x100000000) % 0x100) as u8);
        self.write_u8(addr + 5, ((v / 0x10000000000) % 0x100) as u8);
        self.write_u8(addr + 6, ((v / 0x1000000000000) % 0x100) as u8);
        self.write_u8(addr + 7, ((v / 0x100000000000000) % 0x100) as u8);
        proof {
            assert(self.mem().subrange(addr as int, addr + 8) =~= le_bytes_u64(v));
        }
    }

    /// Reads the little-endian 64-bit value at `addr`.
    pub fn read_u64(&self, addr: usize) -> (r: u64)
        requires
            self.wf(),
            addr + 8 <= self.pos(),
        ensures
            r == u64_of_le(self.mem().subrange(addr as int, addr + 8)),
    {
        proof {
            self.lemma_wf_facts();
        }
        let b0 = self.read_u8(addr);
        let b1 = self.read_u8(addr + 1);
        let b2 = self.read_u8(addr + 2);
        let b3 = self.read_u8(addr + 3);
        let b4 = self.read_u8(addr + 4);
        let b5 = self.read_u8(addr + 5);
        let b6 = self.read_u8(addr + 6);
        let b7 = self.read_u8(addr + 7);
        (b0 as u64) + 0x100 * (b1 as u64) + 0x10000 * (b2 as u64) + 0x1000000 * (b3 as u64)
            + 0x100000000 * (b4 as u64) + 0x10000000000 * (b5 as u64) + 0x1000000000000 * (b6
            as u64) + 0x100000000000000 * (b7 as u64)
    }
}

} // verus!
