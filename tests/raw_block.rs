use krown_memory::{allocate, deallocate, reallocate, RawBlock};

#[test]
fn allocate_zero_gives_no_block() {
    assert!(allocate(0).is_none());
}

#[test]
fn allocate_gives_requested_size() {
    let block = allocate(32).unwrap();
    assert_eq!(block.size(), 32);
    deallocate(Some(block), 32);
    deallocate(None, 0);
}

#[test]
fn resize_same_size_keeps_written_bytes() {
    let n = 16usize;
    let mut block = allocate(n).unwrap();
    for i in 0..n {
        block.write(i, (i * 7) as u8);
    }
    let resized = reallocate(Some(block), n, n).unwrap();
    assert_eq!(resized.size(), n);
    for i in 0..n {
        assert_eq!(resized.read(i), (i * 7) as u8);
    }
}

#[test]
fn resize_grow_keeps_prefix() {
    let block = RawBlock::from_bytes(vec![1, 2, 3]);
    let grown = reallocate(Some(block), 3, 10).unwrap();
    assert_eq!(grown.size(), 10);
    assert_eq!(&grown.as_slice()[..3], &[1, 2, 3]);
}

#[test]
fn resize_shrink_keeps_prefix() {
    let block = RawBlock::from_bytes(vec![5, 6, 7, 8, 9]);
    let shrunk = reallocate(Some(block), 5, 2).unwrap();
    assert_eq!(shrunk.into_bytes(), vec![5, 6]);
}

#[test]
fn resize_to_zero_releases() {
    let block = allocate(8).unwrap();
    assert!(reallocate(Some(block), 8, 0).is_none());
}

#[test]
fn resize_nothing_allocates() {
    let block = reallocate(None, 0, 12).unwrap();
    assert_eq!(block.size(), 12);
    assert!(reallocate(None, 0, 0).is_none());
}
