//! The growable backend's block chain, seen as one logical byte store.
//!
//! Blocks are kept in an append-only ordered sequence and concatenated, in
//! order, into a single address space; a position is translated to a
//! (block, offset) pair by summing the capacities of the earlier blocks.

use vstd::prelude::*;

verus! {

/// All bytes backing a block chain: the blocks' contents concatenated in order.
pub open spec fn store_of(bs: Seq<Vec<u8>>) -> Seq<u8>
    decreases bs.len(),
{
    if bs.len() == 0 {
        Seq::<u8>::empty()
    } else {
        store_of(bs.drop_last()) + bs.last()@
    }
}

/// The capacities of the blocks, in chain order.
pub open spec fn caps_of(bs: Seq<Vec<u8>>) -> Seq<nat> {
    Seq::new(bs.len(), |i: int| bs[i]@.len())
}

/// Total capacity of a chain, given its block capacities.
pub open spec fn sum_caps(caps: Seq<nat>) -> nat
    decreases caps.len(),
{
    if caps.len() == 0 {
        0
    } else {
        sum_caps(caps.drop_last()) + caps.last()
    }
}

/// The capacities kept by a rewind to position `p`: every block that starts
/// strictly after `p` is released, and the first block always stays.
pub open spec fn kept_caps(caps: Seq<nat>, p: nat) -> Seq<nat>
    decreases caps.len(),
{
    if caps.len() > 1 && sum_caps(caps.drop_last()) > p {
        kept_caps(caps.drop_last(), p)
    } else {
        caps
    }
}

/// The store is exactly as long as the chain's total capacity.
pub proof fn lemma_store_len(bs: Seq<Vec<u8>>)
    ensures
        store_of(bs).len() == sum_caps(caps_of(bs)),
    decreases bs.len(),
{
    if bs.len() == 0 {
    } else {
        lemma_store_len(bs.drop_last());
        assert(caps_of(bs.drop_last()) =~= caps_of(bs).drop_last());
        assert(caps_of(bs).last() == bs.last()@.len());
    }
}

/// Appending a block appends its bytes to the store.
pub proof fn lemma_store_push(bs: Seq<Vec<u8>>, b: Vec<u8>)
    ensures
        store_of(bs.push(b)) == store_of(bs) + b@,
        caps_of(bs.push(b)) =~= caps_of(bs).push(b@.len()),
{
    assert(bs.push(b).drop_last() =~= bs);
    assert(bs.push(b).last() == b);
}

/// Summing a prefix of the capacities, one block at a time.
pub proof fn lemma_sum_caps_take(caps: Seq<nat>, j: int)
    requires
        0 <= j < caps.len(),
    ensures
        sum_caps(caps.take(j + 1)) == sum_caps(caps.take(j)) + caps[j],
{
    assert(caps.take(j + 1).drop_last() =~= caps.take(j));
    assert(caps.take(j + 1).last() == caps[j]);
}

/// A prefix of the capacities never sums to more than the whole.
pub proof fn lemma_sum_caps_take_le(caps: Seq<nat>, j: int)
    requires
        0 <= j <= caps.len(),
    ensures
        sum_caps(caps.take(j)) <= sum_caps(caps),
    decreases caps.len() - j,
{
    if j == caps.len() {
        assert(caps.take(j) =~= caps);
    } else {
        lemma_sum_caps_take(caps, j);
        lemma_sum_caps_take_le(caps, j + 1);
    }
}

/// Position arithmetic: the byte at offset `off` of block `j` stands in the
/// store at the sum of the earlier capacities plus `off`.
pub proof fn lemma_store_index(bs: Seq<Vec<u8>>, j: int, off: int)
    requires
        0 <= j < bs.len(),
        0 <= off < bs[j]@.len(),
    ensures
        sum_caps(caps_of(bs).take(j)) + off < store_of(bs).len(),
        store_of(bs)[sum_caps(caps_of(bs).take(j)) + off] == bs[j]@[off],
    decreases bs.len(),
{
    lemma_store_len(bs);
    if j == bs.len() - 1 {
        lemma_store_len(bs.drop_last());
        assert(caps_of(bs.drop_last()) =~= caps_of(bs).take(j));
        assert(bs.last() == bs[j]);
    } else {
        lemma_store_index(bs.drop_last(), j, off);
        assert(caps_of(bs.drop_last()).take(j) =~= caps_of(bs).take(j));
        lemma_store_len(bs.drop_last());
    }
}

/// Updating one byte of one block updates exactly that byte of the store.
pub proof fn lemma_store_update(bs1: Seq<Vec<u8>>, bs2: Seq<Vec<u8>>, j: int, off: int, v: u8)
    requires
        bs1.len() == bs2.len(),
        0 <= j < bs1.len(),
        0 <= off < bs1[j]@.len(),
        bs2[j]@ == bs1[j]@.update(off, v),
        forall|k: int| 0 <= k < bs1.len() && k != j ==> bs2[k] == bs1[k],
    ensures
        store_of(bs2) =~= store_of(bs1).update(sum_caps(caps_of(bs1).take(j)) + off, v),
        caps_of(bs2) =~= caps_of(bs1),
    decreases bs1.len(),
{
    lemma_store_len(bs1);
    lemma_store_index(bs1, j, off);
    let g = sum_caps(caps_of(bs1).take(j)) + off;
    assert(caps_of(bs2) =~= caps_of(bs1));
    lemma_store_len(bs2);
    let a = store_of(bs1.drop_last());
    lemma_store_len(bs1.drop_last());
    assert(caps_of(bs1.drop_last()) =~= caps_of(bs1).take(bs1.len() - 1));
    if j == bs1.len() - 1 {
        assert(bs2.drop_last() =~= bs1.drop_last());
        assert(store_of(bs2) == a + bs1[j]@.update(off, v));
        assert(g == a.len() + off);
        assert forall|i: int| 0 <= i < store_of(bs2).len() implies store_of(bs2)[i] == store_of(
            bs1,
        ).update(g, v)[i] by {
            if i < a.len() {
                assert(store_of(bs2)[i] == a[i]);
                assert(store_of(bs1)[i] == a[i]);
            }
        }
        assert(store_of(bs2) =~= store_of(bs1).update(g, v));
    } else {
        assert(bs1.drop_last()[j] == bs1[j]);
        assert(bs2.drop_last()[j] == bs2[j]);
        assert forall|k: int| 0 <= k < bs1.drop_last().len() && k != j implies bs2.drop_last()[k]
            == bs1.drop_last()[k] by {}
        lemma_store_update(bs1.drop_last(), bs2.drop_last(), j, off, v);
        lemma_store_index(bs1.drop_last(), j, off);
        assert(caps_of(bs1.drop_last()).take(j) =~= caps_of(bs1).take(j));
        assert(store_of(bs2.drop_last()) == a.update(g, v));
        assert(g < a.len());
        assert(bs2.last() == bs1.last());
        assert(store_of(bs2) == a.update(g, v) + bs1.last()@);
        assert forall|i: int| 0 <= i < store_of(bs2).len() implies store_of(bs2)[i] == store_of(
            bs1,
        ).update(g, v)[i] by {
            if i < a.len() {
            } else {
                assert(store_of(bs2)[i] == bs1.last()@[i - a.len()]);
                assert(store_of(bs1)[i] == bs1.last()@[i - a.len()]);
            }
        }
        assert(store_of(bs2) =~= store_of(bs1).update(g, v));
    }
}

/// Dropping the last block truncates the store to the remaining capacity.
pub proof fn lemma_store_drop_last(bs: Seq<Vec<u8>>)
    requires
        bs.len() >= 1,
    ensures
        store_of(bs.drop_last()) == store_of(bs).take(
            sum_caps(caps_of(bs.drop_last())) as int,
        ),
{
    lemma_store_len(bs);
    lemma_store_len(bs.drop_last());
    assert(store_of(bs.drop_last()) =~= store_of(bs).take(
        store_of(bs.drop_last()).len() as int,
    ));
}

/// A rewind to position zero keeps exactly the first block.
pub proof fn lemma_kept_caps_zero(caps: Seq<nat>)
    requires
        caps.len() >= 1,
        forall|i: int| 0 <= i < caps.len() ==> caps[i] > 0,
    ensures
        kept_caps(caps, 0) =~= caps.take(1),
    decreases caps.len(),
{
    if caps.len() > 1 {
        if sum_caps(caps.drop_last()) > 0 {
            lemma_kept_caps_zero(caps.drop_last());
            assert(caps.drop_last().take(1) =~= caps.take(1));
        } else {
            lemma_sum_first_positive(caps.drop_last());
        }
    } else {
        assert(caps.take(1) =~= caps);
    }
}

/// A nonempty chain of nonempty blocks has positive total capacity.
proof fn lemma_sum_first_positive(caps: Seq<nat>)
    requires
        caps.len() >= 1,
        caps[0] > 0,
    ensures
        sum_caps(caps) > 0,
    decreases caps.len(),
{
    if caps.len() > 1 {
        lemma_sum_first_positive(caps.drop_last());
    }
}

/// A sum of multiples of `m` is a multiple of `m`.
pub proof fn lemma_sum_caps_mod(caps: Seq<nat>, m: int)
    requires
        m >= 1,
        forall|i: int| 0 <= i < caps.len() ==> (#[trigger] caps[i]) as int % m == 0,
    ensures
        sum_caps(caps) as int % m == 0,
    decreases caps.len(),
{
    if caps.len() == 0 {
        vstd::arithmetic::div_mod::lemma_small_mod(0, m as nat);
    } else {
        lemma_sum_caps_mod(caps.drop_last(), m);
        vstd::arithmetic::div_mod::lemma_add_mod_noop(
            sum_caps(caps.drop_last()) as int,
            caps.last() as int,
            m,
        );
        vstd::arithmetic::div_mod::lemma_small_mod(0, m as nat);
    }
}

/// Appends a zero-filled block of capacity `grown` to a block chain.
pub(crate) fn grow_chain(nodes: &mut Vec<Vec<u8>>, grown: usize)
    ensures
        final(nodes)@.len() == old(nodes)@.len() + 1,
        final(nodes)@ == old(nodes)@.push(final(nodes)@.last()),
        final(nodes)@.last()@.len() == grown,
        forall|i: int| 0 <= i < grown ==> final(nodes)@.last()@[i] == 0u8,
        store_of(final(nodes)@) == store_of(old(nodes)@) + final(nodes)@.last()@,
        caps_of(final(nodes)@) =~= caps_of(old(nodes)@).push(grown as nat),
{
    let b = zero_block(grown);
    proof {
        lemma_store_push(nodes@, b);
    }
    nodes.push(b);
}

/// Extends a committed buffer with zero bytes up to `new_len`.
pub(crate) fn extend_zeros(buf: &mut Vec<u8>, new_len: usize)
    requires
        old(buf)@.len() <= new_len,
    ensures
        final(buf)@.len() == new_len,
        final(buf)@.take(old(buf)@.len() as int) == old(buf)@,
        forall|i: int| old(buf)@.len() <= i < new_len ==> final(buf)@[i] == 0u8,
{
    proof {
        assert(buf@.take(buf@.len() as int) =~= buf@);
    }
    while buf.len() < new_len
        invariant
            buf@.len() <= new_len,
            old(buf)@.len() <= buf@.len(),
            buf@.take(old(buf)@.len() as int) == old(buf)@,
            forall|i: int| old(buf)@.len() <= i < buf@.len() ==> buf@[i] == 0u8,
        decreases new_len - buf@.len(),
    {
        buf.push(0u8);
        proof {
            assert(buf@.take(old(buf)@.len() as int) =~= old(buf)@);
        }
    }
}

/// Rewinds a block chain to position `p`: walks backward, releasing every
/// block that starts strictly after `p`, and returns the remaining total
/// capacity.
pub(crate) fn shrink_chain(nodes: &mut Vec<Vec<u8>>, cap: usize, p: usize) -> (new_cap: usize)
    requires
        old(nodes)@.len() >= 1,
        cap as nat == sum_caps(caps_of(old(nodes)@)),
        p <= cap,
    ensures
        1 <= final(nodes)@.len() <= old(nodes)@.len(),
        forall|i: int| 0 <= i < final(nodes)@.len() ==> final(nodes)@[i] == old(nodes)@[i],
        caps_of(final(nodes)@) == kept_caps(caps_of(old(nodes)@), p as nat),
        new_cap as nat == sum_caps(caps_of(final(nodes)@)),
        p <= new_cap <= cap,
        store_of(final(nodes)@) == store_of(old(nodes)@).take(new_cap as int),
{
    let mut cur_cap = cap;
    proof {
        lemma_store_len(old(nodes)@);
        assert(store_of(nodes@) =~= store_of(old(nodes)@).take(cur_cap as int));
    }
    loop
        invariant
            1 <= nodes@.len() <= old(nodes)@.len(),
            forall|i: int| 0 <= i < nodes@.len() ==> nodes@[i] == old(nodes)@[i],
            cur_cap as nat == sum_caps(caps_of(nodes@)),
            p <= cur_cap <= cap,
            kept_caps(caps_of(nodes@), p as nat) == kept_caps(caps_of(old(nodes)@), p as nat),
            cur_cap as nat <= store_of(old(nodes)@).len(),
            store_of(nodes@) == store_of(old(nodes)@).take(cur_cap as int),
        ensures
            1 <= nodes@.len() <= old(nodes)@.len(),
            forall|i: int| 0 <= i < nodes@.len() ==> nodes@[i] == old(nodes)@[i],
            cur_cap as nat == sum_caps(caps_of(nodes@)),
            p <= cur_cap <= cap,
            kept_caps(caps_of(nodes@), p as nat) == kept_caps(caps_of(old(nodes)@), p as nat),
            store_of(nodes@) == store_of(old(nodes)@).take(cur_cap as int),
            nodes@.len() <= 1 || sum_caps(caps_of(nodes@).drop_last()) <= p,
        decreases nodes@.len(),
    {
        let k = nodes.len();
        if k <= 1 {
            break;
        }
        let last_len = nodes[k - 1].len();
        proof {
            assert(caps_of(nodes@).drop_last() =~= caps_of(nodes@.drop_last()));
            assert(caps_of(nodes@).last() == last_len as nat);
            assert(sum_caps(caps_of(nodes@)) == sum_caps(caps_of(nodes@).drop_last())
                + last_len as nat);
        }
        if cur_cap - last_len <= p {
            break;
        }
        proof {
            lemma_store_drop_last(nodes@);
        }
        let ghost before = nodes@;
        nodes.pop();
        proof {
            assert(nodes@ =~= before.drop_last());
            assert(sum_caps(caps_of(before.drop_last())) == cur_cap - last_len);
            assert(store_of(nodes@) == store_of(before).take((cur_cap - last_len) as int));
            assert(store_of(before).take((cur_cap - last_len) as int) =~= store_of(
                old(nodes)@,
            ).take((cur_cap - last_len) as int));
        }
        cur_cap = cur_cap - last_len;
    }
    cur_cap
}

/// Translates a global position into a (block, offset) pair by walking the
/// chain and summing the capacities of the blocks before it.
pub(crate) fn locate(nodes: &Vec<Vec<u8>>, addr: usize) -> (r: (usize, usize))
    requires
        addr < sum_caps(caps_of(nodes@)),
        sum_caps(caps_of(nodes@)) <= usize::MAX,
    ensures
        r.0 < nodes@.len(),
        r.1 < nodes@[r.0 as int]@.len(),
        sum_caps(caps_of(nodes@).take(r.0 as int)) + r.1 == addr,
{
    let mut j: usize = 0;
    let mut start: usize = 0;
    proof {
        assert(caps_of(nodes@).take(0) =~= Seq::<nat>::empty());
    }
    loop
        invariant
            j <= nodes@.len(),
            start as nat == sum_caps(caps_of(nodes@).take(j as int)),
            start <= addr,
            addr < sum_caps(caps_of(nodes@)),
            sum_caps(caps_of(nodes@)) <= usize::MAX,
        decreases nodes@.len() - j,
    {
        proof {
            if j == nodes@.len() {
                assert(caps_of(nodes@).take(j as int) =~= caps_of(nodes@));
            }
            lemma_sum_caps_take(caps_of(nodes@), j as int);
            lemma_sum_caps_take_le(caps_of(nodes@), j as int + 1);
        }
        let blen = nodes[j].len();
        if addr - start < blen {
            return (j, addr - start);
        }
        start = start + blen;
        let n = nodes.len();
        j = j + 1;
        proof {
            assert(j <= n);
        }
    }
}

/// Builds a zero-filled block of the given capacity.
pub fn zero_block(n: usize) -> (v: Vec<u8>)
    ensures
        v@.len() == n,
        forall|i: int| 0 <= i < n ==> v@[i] == 0u8,
{
    let mut v: Vec<u8> = Vec::new();
    while v.len() < n
        invariant
            v@.len() <= n,
            forall|i: int| 0 <= i < v@.len() ==> v@[i] == 0u8,
        decreases n - v@.len(),
    {
        v.push(0u8);
    }
    v
}

} // verus!
