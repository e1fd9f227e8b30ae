//! The low-level allocation scenarios: typed data written through the
//! arena's byte space.

use mga::arena::Arena;

const ARENA_SIZE: usize = 1 << 20;

fn create_arena() -> Arena {
    Arena::new(ARENA_SIZE).unwrap()
}

#[test]
fn new() {
    // Create and drop arena at the end of scope
    let _arena = create_arena();
}

#[test]
#[should_panic]
fn new_0_sized_arena() {
    let _arena = Arena::new(0).unwrap();
}

#[test]
fn alloc_byte() {
    let mut arena = create_arena();

    let data = arena.alloc_slice(&[13_u8]).unwrap();

    assert_eq!(arena.read_u8(data), 13);
    arena.write_u8(data, 45);
    assert_eq!(arena.read_u8(data), 45);
}

#[test]
fn alloc_struct() {
    // struct Foo { x: u32, y: bool }
    let original_x: u32 = u32::MAX / 2;
    let original_y: bool = false;

    let mut arena = create_arena();

    let data = arena.push(5).unwrap();
    arena.write_u32(data, original_x);
    arena.write_u8(data + 4, original_y as u8);

    assert_eq!(arena.read_u32(data), original_x);
    assert_eq!(arena.read_u8(data + 4), original_y as u8);
    arena.write_u8(data + 4, true as u8);
    assert!(arena.read_u8(data + 4) == 1);
}

#[test]
fn alloc_array() {
    let mut arena = create_arena();

    let original: [u32; 3] = [3, 5, 7];
    let data = arena.push(12).unwrap();
    for (i, v) in original.iter().enumerate() {
        arena.write_u32(data + 4 * i, *v);
    }

    for (i, v) in original.iter().enumerate() {
        assert_eq!(arena.read_u32(data + 4 * i), *v);
    }
    arena.write_u32(data + 4, 0);
    assert_eq!(
        [
            arena.read_u32(data),
            arena.read_u32(data + 4),
            arena.read_u32(data + 8)
        ],
        [3, 0, 7]
    );
}

#[test]
fn alloc_zeroed() {
    let mut arena = create_arena();

    let data = arena.push_zero(4).unwrap();

    assert_eq!(arena.read_u32(data), 0);
    arena.write_u32(data, 1);
    assert_eq!(arena.read_u32(data), 1);
}

#[test]
fn alloc_slice() {
    let mut arena = create_arena();

    let my_slice = &[3, 3, 3, 5];
    let data = arena.alloc_slice(my_slice).unwrap();

    let read_back = [
        arena.read_u8(data),
        arena.read_u8(data + 1),
        arena.read_u8(data + 2),
        arena.read_u8(data + 3),
    ];
    assert_eq!(read_back, my_slice[..]);
    assert_eq!(read_back.len(), 4);
    arena.write_u8(data, 5);
    assert_eq!(
        [
            arena.read_u8(data),
            arena.read_u8(data + 1),
            arena.read_u8(data + 2),
            arena.read_u8(data + 3)
        ],
        [5, 3, 3, 5]
    );
}

#[test]
fn alloc_zeroed_slice() {
    let mut arena = create_arena();

    let data = arena.alloc_zeroed_slice(7).unwrap();

    for i in 0..7 {
        assert_eq!(arena.read_u8(data + i), 0_u8);
    }
}

#[test]
fn alloc_tiny_arena() {
    let mut arena = Arena::new(1).unwrap();

    let byte = arena.alloc_slice(&[1_u8]).unwrap();

    assert_eq!(arena.read_u8(byte), 1);
    arena.write_u8(byte, 5);
    assert_eq!(arena.read_u8(byte), 5);
}

#[test]
fn lowlevel_main() {
    let mut arena = Arena::new(mga::mib_to_bytes(1) as usize).unwrap();

    let nums = arena.alloc_zeroed_slice(8 * 64).unwrap();

    for i in 0..64 {
        arena.write_u64(nums + 8 * i, i as u64);
    }

    assert_eq!(arena.read_u64(nums), 0);
    assert_eq!(arena.read_u64(nums + 8 * 3), 3);
    assert_eq!(arena.read_u64(nums + 8 * 63), 63);

    // De-allocate nums, make sure not to use the it after this!
    arena.reset();

    // Arena automatically gets freed here.
}
