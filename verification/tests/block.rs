use fastarena::{align_up, Block};

#[test]
fn try_new_zero() {
    assert!(Block::try_new(0).is_none());
}

#[test]
fn try_alloc_ok() {
    let mut b = Block::new(256);
    let (ptr, delta) = b.try_alloc(8, 8).unwrap();
    assert_eq!(ptr % 8, 0);
    assert_eq!(delta, 8);
}

#[test]
fn alloc_padding_in_delta() {
    let mut b = Block::new(256);
    b.try_alloc(1, 1).unwrap();
    let (_, d) = b.try_alloc(8, 8).unwrap();
    assert_eq!(d, 15); // 7 padding + 8 payload
}

#[test]
fn alloc_none_when_full() {
    let mut b = Block::new(16);
    b.try_alloc(16, 1).unwrap();
    assert!(b.try_alloc(1, 1).is_none());
}

#[test]
fn reset_reuse() {
    let mut b = Block::new(64);
    let (p1, _) = b.try_alloc(32, 8).unwrap();
    b.reset();
    let (p2, _) = b.try_alloc(32, 8).unwrap();
    assert_eq!(p1, p2);
}

#[test]
fn align_up_cases() {
    assert_eq!(align_up(0, 8), 0);
    assert_eq!(align_up(1, 8), 8);
    assert_eq!(align_up(9, 8), 16);
    assert_eq!(align_up(65, 64), 128);
}
