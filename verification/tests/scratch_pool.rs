//! Behavior of the scratch pool: lazy build, conflict avoidance, reuse.

use mga::desc::{MGABackendKind, MGADesc};
use mga::scratch::ScratchPool;

fn pool_desc() -> MGADesc {
    MGADesc {
        desired_max_size: 8192,
        desired_block_size: 0,
        align: 0,
        backend: MGABackendKind::GrowableBlocks,
    }
}

#[test]
fn get_skips_conflicting_slots() {
    let mut pool = ScratchPool::new();
    pool.configure(&pool_desc());

    // The first free slot is chosen.
    let r0 = pool.get(&[]).unwrap();
    assert_eq!(r0.slot(), 0);
    pool.release(r0);

    // A conflicting slot is never selected, even though it is a member.
    let r1 = pool.get(&[0]).unwrap();
    assert_eq!(r1.slot(), 1);
    pool.release(r1);

    // With every slot conflicting, nothing is handed out.
    assert!(pool.get(&[0, 1]).is_none());
}

#[test]
fn release_makes_slot_available_again() {
    let mut pool = ScratchPool::new();
    pool.configure(&pool_desc());

    let first = pool.get(&[]).unwrap();
    assert_eq!(first.slot(), 0);
    let slot = first.slot();
    let a = pool.arena_mut(slot);
    let addr = a.push(64).unwrap();
    assert_eq!(addr, 0);
    assert_eq!(a.get_pos(), 64);
    pool.release(first);

    // Two sequential gets with no conflicts return the same first slot,
    // confirming release returned its capacity.
    let second = pool.get(&[]).unwrap();
    assert_eq!(second.slot(), 0);
    assert_eq!(pool.arena(second.slot()).get_pos(), 0);
    pool.release(second);
}

#[test]
fn nested_scratch_work_is_isolated() {
    let mut pool = ScratchPool::new();
    pool.configure(&pool_desc());

    let outer = pool.get(&[]).unwrap();
    let outer_slot = outer.slot();
    let outer_addr = pool.arena_mut(outer_slot).push_zero(16).unwrap();
    pool.arena_mut(outer_slot).write_u32(outer_addr, 7);

    // A routine already holding one scratch arena requests a second,
    // non-aliasing one for nested work.
    let inner = pool.get(&[outer_slot]).unwrap();
    let inner_slot = inner.slot();
    assert_ne!(inner_slot, outer_slot);
    let inner_addr = pool.arena_mut(inner_slot).push_zero(16).unwrap();
    pool.arena_mut(inner_slot).write_u32(inner_addr, 9);
    assert_eq!(pool.arena(inner_slot).read_u32(inner_addr), 9);
    pool.release(inner);

    // The outer region's data was untouched by the nested work.
    assert_eq!(pool.arena(outer_slot).read_u32(outer_addr), 7);
    pool.release(outer);
    assert_eq!(pool.arena(outer_slot).get_pos(), 0);
}

#[test]
fn configure_is_ignored_once_built() {
    let mut pool = ScratchPool::new();
    pool.configure(&pool_desc());
    let r = pool.get(&[]).unwrap();
    pool.release(r);

    // The pool exists now; a new descriptor is ignored.
    let other = MGADesc {
        desired_max_size: 1 << 20,
        desired_block_size: 0,
        align: 64,
        backend: MGABackendKind::ReserveCommit,
    };
    pool.configure(&other);
    let r = pool.get(&[]).unwrap();
    let slot = r.slot();
    assert_eq!(pool.arena(slot).get_size(), 8192);
    assert_eq!(pool.arena(slot).get_align(), 8);
    pool.release(r);
}

#[test]
fn get_fails_on_unbuildable_descriptor() {
    let mut pool = ScratchPool::new();
    pool.configure(&MGADesc {
        desired_max_size: 0,
        desired_block_size: 0,
        align: 0,
        backend: MGABackendKind::GrowableBlocks,
    });
    assert!(pool.get(&[]).is_none());
}
