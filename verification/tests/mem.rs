use slotpool::mem::byte_ranges;
use slotpool::util::Fd;

#[test]
fn byte_ranges_in_order_from_zero() {
    let sizes = vec![10usize, 20, 30];
    let ranges = byte_ranges(100, &sizes).expect("60 bytes fit in 100");
    assert_eq!(ranges.len(), 3);
    assert_eq!((ranges[0].offset, ranges[0].len), (0, 10));
    assert_eq!((ranges[1].offset, ranges[1].len), (10, 20));
    assert_eq!((ranges[2].offset, ranges[2].len), (30, 30));
}

#[test]
fn byte_ranges_exact_fit() {
    let sizes = vec![30usize, 30];
    let ranges = byte_ranges(60, &sizes).expect("an exact fit is accepted");
    assert_eq!((ranges[0].offset, ranges[0].len), (0, 30));
    assert_eq!((ranges[1].offset, ranges[1].len), (30, 30));
}

#[test]
fn byte_ranges_rejects_oversized_request() {
    let sizes = vec![30usize, 31];
    assert!(byte_ranges(60, &sizes).is_none());
}

#[test]
fn byte_ranges_empty_request() {
    let sizes: Vec<usize> = Vec::new();
    let ranges = byte_ranges(16, &sizes).expect("nothing requested, nothing denied");
    assert!(ranges.is_empty());
}

#[test]
fn fd_round_trip() {
    let fd = Fd::from_raw(5);
    assert_eq!(fd.raw(), 5);
}
