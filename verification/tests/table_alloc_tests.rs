use kernel::mm::table_alloc::{TableAllocator, TABLE_POOL_SIZE};

#[test]
fn first_allocation_after_init_skips_reserved_table() {
    let mut pool = TableAllocator::new();
    pool.init_table_alloc();
    assert_eq!(pool.alloc_table(), Ok(1));
    assert_eq!(pool.alloc_table(), Ok(2));
}

#[test]
fn fresh_pool_hands_out_table_zero() {
    let mut pool = TableAllocator::new();
    assert_eq!(pool.alloc_table(), Ok(0));
}

#[test]
fn freed_table_is_handed_out_again() {
    let mut pool = TableAllocator::new();
    pool.init_table_alloc();
    let a = pool.alloc_table().unwrap();
    let b = pool.alloc_table().unwrap();
    assert_ne!(a, b);
    pool.free_table(a);
    assert_eq!(pool.alloc_table(), Ok(a));
}

#[test]
fn full_pool_fails() {
    let mut pool = TableAllocator::new();
    for i in 0..TABLE_POOL_SIZE {
        assert_eq!(pool.alloc_table(), Ok(i));
    }
    assert_eq!(pool.alloc_table(), Err(()));
    pool.free_table(17);
    assert_eq!(pool.alloc_table(), Ok(17));
    assert_eq!(pool.alloc_table(), Err(()));
}
