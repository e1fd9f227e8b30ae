//! Behavior of the arena core: creation, alignment, growth, rewinding,
//! temporary regions, and the error taxonomy.

use mga::arena::Arena;
use mga::desc::{MGABackendKind, MGADesc};
use mga::err::MGAErrorCode;

fn growable_desc(max: usize, block: usize, align: usize) -> MGADesc {
    MGADesc {
        desired_max_size: max,
        desired_block_size: block,
        align,
        backend: MGABackendKind::GrowableBlocks,
    }
}

fn reserve_desc(max: usize, block: usize, align: usize) -> MGADesc {
    MGADesc {
        desired_max_size: max,
        desired_block_size: block,
        align,
        backend: MGABackendKind::ReserveCommit,
    }
}

#[test]
fn unit_helpers_exact() {
    assert_eq!(mga::units::mga_kib(1), 1_024);
    assert_eq!(mga::units::mga_mib(1), 1_048_576);
    assert_eq!(mga::units::mga_gib(1), 1_073_741_824);
    assert_eq!(mga::kib_to_bytes(3), 3_072);
    assert_eq!(mga::mib_to_bytes(0), 0);
    assert_eq!(mga::gib_to_bytes(2), 2_147_483_648);
}

#[test]
fn create_rounds_and_defaults() {
    // Position starts at zero; sizes round up to the page size.
    let arena = Arena::create(&growable_desc(5000, 0, 0)).unwrap();
    assert_eq!(arena.get_pos(), 0);
    assert_eq!(arena.get_size(), 8192);
    // An eighth of the maximum, rounded up to a page.
    assert_eq!(arena.get_block_size(), 4096);
    // Pointer-width default alignment.
    assert_eq!(arena.get_align(), 8);
    assert_eq!(arena.get_error().code, MGAErrorCode::NoError);

    let reserve = Arena::create(&reserve_desc(5000, 0, 16)).unwrap();
    assert_eq!(reserve.get_pos(), 0);
    assert_eq!(reserve.get_size(), 8192);
    assert_eq!(reserve.get_align(), 16);
    // Nothing is committed until the first push.
    assert_eq!(reserve.get_commit_pos(), 0);
}

#[test]
fn create_rejects_bad_descriptors() {
    // A zero maximum size fails.
    let r = Arena::create(&growable_desc(0, 0, 0));
    assert_eq!(r.unwrap_err().code, MGAErrorCode::InitFailed);
    // An alignment that is not a power of two fails.
    let r = Arena::create(&growable_desc(4096, 0, 3));
    assert_eq!(r.unwrap_err().code, MGAErrorCode::InitFailed);
    let r = Arena::create(&reserve_desc(4096, 0, 6));
    assert_eq!(r.unwrap_err().code, MGAErrorCode::InitFailed);
}

#[test]
fn init_failed_message() {
    let e = Arena::create(&growable_desc(0, 0, 0)).unwrap_err();
    assert_eq!(e.msg_to_string(), "arena failed to initialize");
    assert_eq!(
        mga::err::MGAError::new(MGAErrorCode::NoError).msg_to_string(),
        "no error"
    );
    assert_eq!(
        mga::err::MGAError::new(MGAErrorCode::OutOfMemory).msg_to_string(),
        "growth would exceed the maximum capacity"
    );
}

#[test]
fn push_advances_by_aligned_size() {
    let mut arena = Arena::create(&growable_desc(4096, 0, 8)).unwrap();
    let before = arena.get_pos();
    let addr = arena.push(5).unwrap();
    assert_eq!(addr, before);
    assert_eq!(arena.get_pos(), before + 8);
    assert_eq!(addr % arena.get_align(), 0);

    let addr2 = arena.push(3).unwrap();
    assert_eq!(addr2, 8);
    assert_eq!(arena.get_pos(), 16);
    assert_eq!(addr2 % arena.get_align(), 0);
}

#[test]
fn push_respects_custom_alignment() {
    let mut arena = Arena::create(&growable_desc(4096, 0, 64)).unwrap();
    let a0 = arena.push(1).unwrap();
    let a1 = arena.push(1).unwrap();
    assert_eq!(a0, 0);
    assert_eq!(a1, 64);
    assert_eq!(arena.get_pos(), 128);

    // Alignment 1 disables padding.
    let mut tight = Arena::create(&growable_desc(4096, 0, 1)).unwrap();
    tight.push(1).unwrap();
    assert_eq!(tight.get_pos(), 1);
}

#[test]
fn push_zero_reads_zero_after_reuse() {
    let mut arena = Arena::create(&growable_desc(4096, 0, 8)).unwrap();
    // Dirty some bytes, rewind, and reallocate the same region zeroed.
    let addr = arena.push(8).unwrap();
    for i in 0..8 {
        arena.write_u8(addr + i, 0xAB);
    }
    assert!(arena.pop(8));
    let again = arena.push_zero(8).unwrap();
    assert_eq!(again, addr);
    for i in 0..8 {
        assert_eq!(arena.read_u8(again + i), 0);
    }
}

#[test]
fn reset_reuses_first_address() {
    let mut arena = Arena::create(&growable_desc(8192, 0, 8)).unwrap();
    let first = arena.push(32).unwrap();
    arena.push(64).unwrap();
    arena.reset();
    assert_eq!(arena.get_pos(), 0);
    let after = arena.push(32).unwrap();
    assert_eq!(after, first);
}

#[test]
fn pop_beyond_position_fails_invalid_pop() {
    let mut arena = Arena::create(&growable_desc(4096, 0, 8)).unwrap();
    arena.push(16).unwrap();
    let pos = arena.get_pos();
    assert!(!arena.pop(100));
    assert_eq!(arena.get_pos(), pos);
    assert_eq!(arena.get_error().code, MGAErrorCode::InvalidPop);
    assert_eq!(
        arena.get_error().msg_to_string(),
        "pop argument exceeded the current position"
    );
}

#[test]
fn pop_to_beyond_position_fails_invalid_pop() {
    let mut arena = Arena::create(&growable_desc(4096, 0, 8)).unwrap();
    arena.push(16).unwrap();
    assert!(!arena.pop_to(17));
    assert_eq!(arena.get_pos(), 16);
    assert_eq!(arena.get_error().code, MGAErrorCode::InvalidPop);
    assert!(arena.pop_to(8));
    assert_eq!(arena.get_pos(), 8);
}

#[test]
fn nested_temp_regions_unwind_in_reverse() {
    let mut arena = Arena::create(&growable_desc(8192, 0, 8)).unwrap();
    let outer = arena.temp_begin();
    arena.push(5).unwrap();
    let after_a = arena.get_pos();
    assert_eq!(after_a, 8);
    let inner = arena.temp_begin();
    arena.push(24).unwrap();
    assert_eq!(arena.get_pos(), 32);
    assert!(arena.temp_end(inner));
    assert_eq!(arena.get_pos(), after_a);
    assert!(arena.temp_end(outer));
    assert_eq!(arena.get_pos(), 0);
}

#[test]
fn temp_end_below_checkpoint_fails() {
    let mut arena = Arena::create(&growable_desc(4096, 0, 8)).unwrap();
    arena.push(16).unwrap();
    let t = arena.temp_begin();
    assert!(arena.pop_to(0));
    assert!(!arena.temp_end(t));
    assert_eq!(arena.get_error().code, MGAErrorCode::InvalidPop);
    assert_eq!(arena.get_pos(), 0);
}

#[test]
fn growable_one_block_per_overflow() {
    // One page per block, plenty of maximum size.
    let mut arena = Arena::create(&growable_desc(1 << 20, 4096, 8)).unwrap();
    assert_eq!(arena.block_count(), 1);

    // A single push larger than the block size allocates one block sized
    // to the request.
    let mut big = Arena::create(&growable_desc(1 << 20, 4096, 8)).unwrap();
    big.push(10000).unwrap();
    assert_eq!(big.block_count(), 2);
    // 10000 bytes needed, 4096 already present: one new block of
    // 10000 - 4096 = 5904, rounded up to pages = 8192.
    assert_eq!(big.get_commit_pos(), 4096 + 8192);

    // Successive smaller pushes that cumulatively exceed the block size
    // trigger exactly one new block per overflow.
    arena.push(3000).unwrap();
    assert_eq!(arena.block_count(), 1);
    arena.push(3000).unwrap();
    assert_eq!(arena.block_count(), 2);
    arena.push(1000).unwrap();
    assert_eq!(arena.block_count(), 2);
    arena.push(2000).unwrap();
    assert_eq!(arena.block_count(), 3);
}

#[test]
fn growable_pop_to_releases_newer_blocks() {
    let mut arena = Arena::create(&growable_desc(1 << 20, 4096, 8)).unwrap();
    arena.push(4096).unwrap();
    arena.push(4096).unwrap();
    arena.push(4096).unwrap();
    assert_eq!(arena.block_count(), 3);
    // Position 4096 sits at the start of the second block, which is the
    // one now containing it: only the strictly newer third block goes.
    assert!(arena.pop_to(4096));
    assert_eq!(arena.block_count(), 2);
    assert_eq!(arena.get_commit_pos(), 8192);
    assert!(arena.pop_to(0));
    assert_eq!(arena.block_count(), 1);
    assert_eq!(arena.get_commit_pos(), 4096);
}

#[test]
fn growable_out_of_memory_at_max() {
    let mut arena = Arena::create(&growable_desc(4096, 0, 8)).unwrap();
    arena.push(4096).unwrap();
    let pos = arena.get_pos();
    assert!(arena.push(1).is_none());
    assert_eq!(arena.get_error().code, MGAErrorCode::OutOfMemory);
    assert_eq!(arena.get_pos(), pos);
}

#[test]
fn growable_out_of_nodes_at_ceiling() {
    // 64 nodes of one page each fit well below the maximum size, so the
    // node ceiling is what stops growth.
    let mut arena = Arena::create(&growable_desc(1 << 20, 4096, 8)).unwrap();
    for _ in 0..64 {
        arena.push(4096).unwrap();
    }
    assert_eq!(arena.block_count(), 64);
    let pos = arena.get_pos();
    assert!(arena.push(4096).is_none());
    assert_eq!(arena.get_error().code, MGAErrorCode::OutOfNodes);
    assert_eq!(arena.get_pos(), pos);
    assert_eq!(
        arena.get_error().msg_to_string(),
        "block chain hit the node ceiling"
    );
}

#[test]
fn reserve_commits_in_block_increments() {
    let mut arena = Arena::create(&reserve_desc(16384, 4096, 8)).unwrap();
    assert_eq!(arena.get_commit_pos(), 0);
    arena.push(10).unwrap();
    assert_eq!(arena.get_commit_pos(), 4096);
    arena.push(4096).unwrap();
    assert_eq!(arena.get_commit_pos(), 8192);
}

#[test]
fn reserve_push_to_max_succeeds_overflow_fails() {
    let mut arena = Arena::create(&reserve_desc(8192, 4096, 8)).unwrap();
    // Pushing up to the maximum size succeeds.
    arena.push(8192).unwrap();
    assert_eq!(arena.get_pos(), 8192);
    let committed = arena.get_commit_pos();
    // A push that would exceed it fails with OutOfMemory and leaves the
    // commit position unchanged.
    assert!(arena.push(1).is_none());
    assert_eq!(arena.get_error().code, MGAErrorCode::OutOfMemory);
    assert_eq!(arena.get_commit_pos(), committed);
    assert_eq!(arena.get_pos(), 8192);
}

#[test]
fn reserve_pop_never_decommits_reset_does() {
    let mut arena = Arena::create(&reserve_desc(16384, 4096, 8)).unwrap();
    arena.push(8192).unwrap();
    assert_eq!(arena.get_commit_pos(), 8192);
    assert!(arena.pop(8192));
    assert_eq!(arena.get_pos(), 0);
    // Popping trades footprint for speed: nothing is decommitted.
    assert_eq!(arena.get_commit_pos(), 8192);
    arena.push(100).unwrap();
    arena.reset();
    // Reset decommits the whole reservation.
    assert_eq!(arena.get_commit_pos(), 0);
    assert_eq!(arena.get_pos(), 0);
}

#[test]
fn reserve_round_trips_data() {
    let mut arena = Arena::create(&reserve_desc(16384, 4096, 8)).unwrap();
    let addr = arena.push_zero(64).unwrap();
    assert_eq!(arena.read_u64(addr + 16), 0);
    arena.write_u64(addr + 16, 0xDEAD_BEEF_1234_5678);
    assert_eq!(arena.read_u64(addr + 16), 0xDEAD_BEEF_1234_5678);
    arena.write_u32(addr, u32::MAX);
    assert_eq!(arena.read_u32(addr), u32::MAX);
    assert_eq!(arena.read_u8(addr + 15), 0);
}

#[test]
fn with_arena_runs_closure() {
    let mut ran = false;
    mga::arena::with_arena(4096, |mut a: Arena| {
        a.push(16);
        ran = true;
    });
    assert!(ran);
}

#[test]
fn end_to_end_round_trip() {
    // create arena(max = 4 MiB, block = 128 KiB)
    let desc = growable_desc(
        mga::mib_to_bytes(4) as usize,
        mga::kib_to_bytes(128) as usize,
        0,
    );
    let mut arena = Arena::create(&desc).unwrap();

    // push_zero space for 64 4-byte integers; fill indices 0..63.
    let nums = arena.push_zero(4 * 64).unwrap();
    for i in 0..64 {
        arena.write_u32(nums + 4 * i, i as u32);
    }
    assert_eq!(arena.read_u32(nums), 0);
    assert_eq!(arena.read_u32(nums + 4 * 3), 3);
    assert_eq!(arena.read_u32(nums + 4 * 63), 63);

    arena.reset();

    // push a small two-field struct; verify both fields round-trip.
    let rec = arena.push(12).unwrap();
    arena.write_u32(rec, 123_456_789);
    arena.write_u64(rec + 4, 987_654_321_012);
    assert_eq!(arena.read_u32(rec), 123_456_789);
    assert_eq!(arena.read_u64(rec + 4), 987_654_321_012);
}
