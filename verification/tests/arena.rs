use bump_arena::{Alloc, OutOfMemory};

#[test]
fn alloc_bytes() {
    let mut heap: [u8; 4] = core::array::from_fn(|_| 0);
    let mut alloc = Alloc::new(&mut heap);
    let _ = alloc.alloc_item::<u8>(1);
    let _ = alloc.alloc_item::<u8>(2);
    let _ = alloc.alloc_item::<u8>(3);
    assert_eq!(heap, [1, 2, 3, 0])
}

#[test]
fn alloc_i64s() {
    let mut heap: [u8; 32] = core::array::from_fn(|_| 0);
    let mut alloc = Alloc::new(&mut heap);
    let _ = alloc.alloc_item::<i64>(1);
    let _ = alloc.alloc_item::<i64>(2);
    let _ = alloc.alloc_item::<i64>(3);
    assert_eq!(heap, [
        1, 0, 0, 0, 0, 0, 0, 0,
        2, 0, 0, 0, 0, 0, 0, 0,
        3, 0, 0, 0, 0, 0, 0, 0,
        0, 0, 0, 0, 0, 0, 0, 0,
    ])
}

#[test]
fn alloc_aligned() {
    let mut heap: [u8; 16] = core::array::from_fn(|_| 0);
    let mut alloc = Alloc::new(&mut heap);

    let u8_ref = alloc.alloc_item::<u8>(1).unwrap();

    assert!(u8_ref.as_ptr() as usize % 2 == 0);

    let _ = alloc.alloc_item::<u16>(2);
    let _ = alloc.alloc_item::<u16>(3);

    assert_eq!(heap, [
        1, 0, 2, 0,
        3, 0, 0, 0,
        0, 0, 0, 0,
        0, 0, 0, 0,
    ])
}

#[test]
fn alloc_out_of_mem() {
    let mut heap: [u8; 4] = core::array::from_fn(|_| 0);
    let mut alloc = Alloc::new(&mut heap);

    let u8_ref = alloc.alloc_item::<u8>(1).unwrap();

    assert!(u8_ref.as_ptr() as usize % 2 == 0);

    let result = alloc.alloc_item::<u32>(2);

    assert_eq!(result, Err(OutOfMemory))
}

#[test]
fn alloc_fn() {
    let mut heap: [u8; 8] = core::array::from_fn(|_| 0);
    let mut alloc = Alloc::new(&mut heap);
    let _ = alloc.alloc_from_fn::<u8>(4, |i| (i + 1) as u8);
    assert_eq!(heap, [1, 2, 3, 4, 0, 0, 0, 0])
}
