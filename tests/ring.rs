use indexed_ring_buffer::{indexed_ring_buffer, RingBuffer};

#[test]
fn storage_push_fails_when_full_and_keeps_state() {
    let mut b = RingBuffer::<u32>::new(7, 3);
    assert!(b.push(1));
    assert!(b.push(2));
    assert!(b.push(3));
    assert!(b.is_full());
    assert!(!b.push(4));
    assert_eq!(b.get_all(), Some((7, 9, vec![1, 2, 3])));
}

#[test]
fn storage_zero_capacity_never_accepts() {
    let mut b = RingBuffer::<u32>::new(0, 0);
    assert!(b.is_empty());
    assert!(b.is_full());
    assert!(!b.push(1));
    assert_eq!(b.shift(), None);
}

#[test]
fn storage_wrapped_slots_read_in_order() {
    let mut b = RingBuffer::<u32>::new(0, 5);
    assert!(b.push(10));
    assert!(b.push(11));
    assert!(b.push(12));
    assert_eq!(b.shift(), Some((0, 10)));
    assert!(b.push(13));
    assert!(b.push(14));
    assert!(b.push(15));
    assert_eq!(b.get_all(), Some((1, 5, vec![11, 12, 13, 14, 15])));
    assert_eq!(b.get_from(3, 0), Some((3, 5, vec![13, 14, 15])));
    assert_eq!(b.shift_to(4), Some((4, vec![11, 12, 13, 14])));
    assert_eq!(b.get_all(), Some((5, 5, vec![15])));
}

#[test]
fn partial_wrap_get_all() {
    let (mut p, mut c, r) = indexed_ring_buffer::<u32>(0, 5);
    assert!(p.push(100));
    assert!(p.push(101));
    assert!(p.push(102));
    assert_eq!(c.shift(), Some((0, 100)));
    assert!(p.push(103));
    assert!(p.push(104));
    assert_eq!(r.get_all(), Some((1, 4, vec![101, 102, 103, 104])));
}

#[test]
fn fresh_buffer_reads_nothing() {
    let (_p, mut c, r) = indexed_ring_buffer::<u8>(42, 4);
    assert_eq!(c.shift(), None);
    assert_eq!(c.shift_to(42), None);
    assert_eq!(c.shift_to(0), None);
    assert_eq!(r.get(42), None);
    assert_eq!(r.get_from(42, 1), None);
    assert_eq!(r.get_from(42, 0), None);
    assert_eq!(r.get_all(), None);
}

#[test]
fn get_from_zero_or_long_len_reads_to_tail() {
    let (mut p, _c, r) = indexed_ring_buffer::<u8>(0, 5);
    for v in 0..5u8 {
        assert!(p.push(v));
    }
    assert_eq!(r.get_from(2, 0), Some((2, 4, vec![2, 3, 4])));
    assert_eq!(r.get_from(2, 9), Some((2, 4, vec![2, 3, 4])));
    assert_eq!(r.get_from(2, usize::MAX), Some((2, 4, vec![2, 3, 4])));
    assert_eq!(r.get_from(5, 1), None);
}

#[test]
fn reads_leave_consumer_results_unchanged() {
    let (mut p, mut c, r) = indexed_ring_buffer::<u8>(0, 4);
    assert!(p.push(1));
    assert!(p.push(2));
    assert_eq!(r.get(0), Some((0, 1)));
    assert_eq!(r.get(0), Some((0, 1)));
    assert_eq!(r.get_all(), r.get_all());
    assert_eq!(r.get_from(0, 2), Some((0, 1, vec![1, 2])));
    assert_eq!(c.shift(), Some((0, 1)));
    assert_eq!(c.shift(), Some((1, 2)));
}

#[test]
fn drained_values_match_pushed_values() {
    let (mut p, mut c, r) = indexed_ring_buffer::<u16>(9, 3);
    let mut got = Vec::new();
    for v in 0..10u16 {
        while !p.push(v) {
            let (_, mut chunk) = c.shift_to(last_live_index(&r)).unwrap();
            got.append(&mut chunk);
        }
    }
    while let Some((_, v)) = c.shift() {
        got.push(v);
    }
    assert_eq!(got, (0..10u16).collect::<Vec<u16>>());
}

fn last_live_index(r: &indexed_ring_buffer::Reader<u16>) -> usize {
    r.get_all().unwrap().1
}

#[test]
fn shifted_indices_advance_by_one() {
    let (mut p, mut c, _r) = indexed_ring_buffer::<u8>(usize::MAX - 1, 4);
    for v in 0..4u8 {
        assert!(p.push(v));
    }
    assert_eq!(c.shift_to(usize::MAX), Some((usize::MAX, vec![0, 1])));
    assert_eq!(c.shift(), Some((0, 2)));
    assert_eq!(c.shift(), Some((1, 3)));
    assert_eq!(c.shift(), None);
}

#[test]
fn capacity_is_clamped_value_of_request() {
    let mut b = RingBuffer::<u8>::new(0, 2);
    assert!(b.push(1));
    assert!(b.push(2));
    assert!(!b.push(3));
    assert_eq!(b.get(0), Some((0, 1)));
    assert_eq!(b.get(1), Some((1, 2)));
    assert_eq!(b.get(2), None);
}
