use slotpool::layout::pool_layout;
use slotpool::pool::Pool;

#[test]
fn required_size_u64_exact() {
    // 10 one-byte flags, padded to the 8-byte alignment of u64, then 10 * 8
    // object bytes: 16 + 80.
    assert_eq!(Pool::<u64>::required_size(10), 96);
    assert_eq!(Pool::<u64>::required_align(), 8);
}

#[test]
fn required_size_u8_exact() {
    // Flags and objects both take one byte per slot and no padding is needed.
    assert_eq!(Pool::<u8>::required_size(10), 20);
    assert_eq!(Pool::<u8>::required_align(), 1);
}

#[test]
fn required_size_zero_sized_elements() {
    // Only the flags array takes space.
    assert_eq!(Pool::<()>::required_size(5), 5);
    assert_eq!(Pool::<()>::required_align(), 1);
}

#[test]
fn required_size_monotonic() {
    let mut prev_u64 = Pool::<u64>::required_size(1);
    let mut prev_u8 = Pool::<u8>::required_size(1);
    for n in 2..200 {
        let cur_u64 = Pool::<u64>::required_size(n);
        let cur_u8 = Pool::<u8>::required_size(n);
        assert!(prev_u64 <= cur_u64);
        assert!(prev_u8 <= cur_u8);
        prev_u64 = cur_u64;
        prev_u8 = cur_u8;
    }
}

#[test]
fn layout_exact_fields() {
    let l = pool_layout(10, 8, 8);
    assert_eq!(l.objects_offset, 16);
    assert_eq!(l.total_size, 96);
    assert_eq!(l.total_align, 8);
}

#[test]
fn objects_offset_is_aligned() {
    for n in 1..50 {
        for align in [1usize, 2, 4, 8, 16, 64] {
            let l = pool_layout(n, 4, align);
            assert_eq!(l.objects_offset % align, 0);
            assert!(l.objects_offset >= n);
            assert!(l.objects_offset < n + align);
            assert_eq!(l.total_size, l.objects_offset + n * 4);
        }
    }
}

#[test]
fn try_layout_agrees_with_layout() {
    let l = Pool::<u64>::try_layout(10).expect("a small layout fits");
    assert_eq!(l.total_size, Pool::<u64>::required_size(10));
    assert_eq!(l.objects_offset, 16);
    assert_eq!(l.total_align, 8);
}

#[test]
fn try_layout_overflow_returns_none() {
    // usize::MAX eight-byte objects cannot fit in a usize-sized range.
    assert!(Pool::<u64>::try_layout(usize::MAX).is_none());
}

#[test]
fn layout_matches_required_size() {
    // The offsets the pool uses internally agree with the size callers are
    // told to reserve, as the cross-process handshake relies on.
    let l = Pool::<u64>::layout(7);
    assert_eq!(l.total_size, Pool::<u64>::required_size(7));
    assert_eq!(l.total_align, Pool::<u64>::required_align());
    assert_eq!(l.objects_offset % l.total_align, 0);
}
