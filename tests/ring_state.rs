use lahar::ring_state::RingState;

#[test]
fn larger_than_capacity_while_empty() {
    let mut r = RingState::new(128);
    assert_eq!(r.allocate(256, 1), None);
}

#[test]
fn larger_than_capacity_wrapped() {
    let mut r = RingState {
        tail: 16,
        head: 32,
        capacity: 128,
    };
    assert_eq!(r.allocate(256, 1), None);
}

#[test]
fn ring_state_smoke() {
    let mut r = RingState::new(10);
    assert_eq!(r.allocate(2, 1), Some(8));
    assert_eq!(r.allocate(1, 1), Some(7));
    assert_eq!(r.allocate(7, 1), None);
    assert_eq!(r.allocate(6, 1), Some(1));
    r.tail = 8;
    assert_eq!(r.allocate(1, 2), Some(0));
    assert_eq!(r.allocate(1, 1), Some(9));
    assert_eq!(r.allocate(1, 1), None);
    r.tail = 7;
    assert_eq!(r.allocate(2, 1), None);
    assert_eq!(r.allocate(1, 16), None);
    assert_eq!(r.allocate(1, 1), Some(8));
    assert_eq!(r.allocate(1, 1), None);
}

#[test]
fn head_run_is_preferred_over_the_wrap() {
    let mut r = RingState { head: 6, tail: 6, capacity: 10 };
    assert_eq!(r.allocate(4, 1), Some(2));
    assert_eq!(r.head, 2);
    assert_eq!(r.tail, 6);
}

#[test]
fn alignment_rounds_down() {
    let mut r = RingState::new(16);
    assert_eq!(r.allocate(3, 4), Some(12));
    assert_eq!(r.allocate(3, 4), Some(8));
    assert_eq!(r.allocate(5, 8), None);
}

#[test]
fn wrapped_allocation_keeps_one_spare_unit() {
    // a wrapped allocation may not end on the tail itself
    let mut r = RingState { head: 0, tail: 2, capacity: 10 };
    assert_eq!(r.allocate(8, 1), None);
    assert_eq!(r.allocate(7, 1), Some(3));
}
