use axvfs::early_alloc::EarlyAllocator;

#[test]
fn fresh_allocator_is_empty() {
    let a: EarlyAllocator<4096> = EarlyAllocator::new();
    assert_eq!(a.total_bytes(), 0);
    assert_eq!(a.used_bytes(), 0);
    assert_eq!(a.available_bytes(), 0);
}

#[test]
fn init_sets_range() {
    let mut a: EarlyAllocator<4096> = EarlyAllocator::new();
    a.init(0x1000, 0x10000);
    assert_eq!(a.total_bytes(), 0x10000);
    assert_eq!(a.used_bytes(), 0);
    assert_eq!(a.available_bytes(), 0x10000);
    assert_eq!(a.total_pages(), 16);
    assert_eq!(a.used_pages(), 0);
    assert_eq!(a.available_pages(), 16);
}

#[test]
fn alloc_bytes_moves_cursor_and_aligns() {
    let mut a: EarlyAllocator<4096> = EarlyAllocator::new();
    a.init(0x1000, 0x10000);
    let p = a.alloc_bytes(10, 1).unwrap();
    assert_eq!(p, 0x1000);
    assert_eq!(a.used_bytes(), 10);
    let q = a.alloc_bytes(8, 16).unwrap();
    // 0x100a rounded up to a 16-byte boundary
    assert_eq!(q, 0x1010);
    assert_eq!(a.used_bytes(), 18);
}

#[test]
fn dealloc_to_zero_reclaims_byte_area() {
    let mut a: EarlyAllocator<4096> = EarlyAllocator::new();
    a.init(0x1000, 0x10000);
    let _ = a.alloc_bytes(10, 1).unwrap();
    let _ = a.alloc_bytes(10, 1).unwrap();
    a.dealloc();
    assert_eq!(a.used_bytes(), 20);
    a.dealloc();
    assert_eq!(a.used_bytes(), 0);
}

#[test]
fn alloc_pages_comes_from_the_end() {
    let mut a: EarlyAllocator<4096> = EarlyAllocator::new();
    a.init(0x10000, 0x10000);
    let p = a.alloc_pages(1, 12).unwrap();
    // the cursor aligns down to 0x1f000 and steps one page further back
    assert_eq!(p, 0x1f000);
    assert_eq!(a.p_pos, 0x1e000);
    assert_eq!(a.used_pages(), 2);
    assert_eq!(a.available_pages(), 14);
    assert_eq!(a.total_pages(), 16);
}
