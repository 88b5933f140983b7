use indexed_ring_buffer::IndexUtil;

#[test]
fn calc_range_in_order() {
    let (a, b) = IndexUtil::calc_range(1, 4, 6);
    assert_eq!(a, 1..4);
    assert_eq!(b, 0..0);
}

#[test]
fn calc_range_wrapped() {
    let (a, b) = IndexUtil::calc_range(4, 2, 6);
    assert_eq!(a, 4..6);
    assert_eq!(b, 0..2);
}

#[test]
fn calc_range_equal_is_empty() {
    let (a, b) = IndexUtil::calc_range(3, 3, 6);
    assert_eq!(a, 0..0);
    assert_eq!(b, 0..0);
}

#[test]
fn exists_index_plain() {
    assert_eq!(IndexUtil::exists_index(12, 10, 5), Some(2));
    assert_eq!(IndexUtil::exists_index(10, 10, 5), Some(0));
    assert_eq!(IndexUtil::exists_index(14, 10, 5), Some(4));
    assert_eq!(IndexUtil::exists_index(15, 10, 5), None);
    assert_eq!(IndexUtil::exists_index(9, 10, 5), None);
}

#[test]
fn exists_index_across_wraparound() {
    let offset = usize::MAX - 2;
    assert_eq!(IndexUtil::exists_index(usize::MAX, offset, 6), Some(2));
    assert_eq!(IndexUtil::exists_index(0, offset, 6), Some(3));
    assert_eq!(IndexUtil::exists_index(2, offset, 6), Some(5));
    assert_eq!(IndexUtil::exists_index(3, offset, 6), None);
    assert_eq!(IndexUtil::exists_index(offset - 1, offset, 6), None);
}

#[test]
fn exists_index_empty_region() {
    assert_eq!(IndexUtil::exists_index(5, 5, 0), None);
    assert_eq!(IndexUtil::exists_index(4, 5, 0), None);
    assert_eq!(IndexUtil::exists_index(6, 5, 0), None);
}
