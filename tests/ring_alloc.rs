use lahar::ring_alloc::RingAlloc;

#[test]
fn ring_alloc_alloc() {
    let mut r = RingAlloc::new(4);
    let a = r.allocate(3, 1).unwrap();
    assert!(r.allocate(2, 1).is_none());
    let b = r.allocate(1, 1).unwrap();
    assert_eq!(b.0, 3);
    assert!(r.allocate(1, 1).is_none());
    r.free(a.1);
    let c = r.allocate(1, 1).unwrap();
    assert_eq!(c.0, 0);
    let d = r.allocate(2, 1).unwrap();
    assert_eq!(d.0, 1);
    assert!(r.allocate(1, 1).is_none());
    r.free(c.1);
    r.free(b.1);
    let e = r.allocate(1, 1).unwrap();
    assert_eq!(e.0, 3);
    let f = r.allocate(1, 1).unwrap();
    assert_eq!(f.0, 0);
}

#[test]
fn alignment() {
    let mut r = RingAlloc::new(4);
    let _ = r.allocate(1, 1).unwrap();
    let b = r.allocate(2, 2).unwrap();
    assert!(r.allocate(1, 1).is_none());
    assert_eq!(b.0, 2);
}

#[test]
fn available() {
    let mut r = RingAlloc::new(4);
    assert_eq!(r.available(), 4);
    let a = r.allocate(3, 1).unwrap();
    assert_eq!(r.available(), 1);
    let _ = r.allocate(1, 1).unwrap();
    assert_eq!(r.available(), 0);
    r.free(a.1);
    assert_eq!(r.available(), 3);
    let _ = r.allocate(1, 1).unwrap();
    assert_eq!(r.available(), 2);

    let mut r = RingAlloc::new(4);
    let a = r.allocate(1, 1).unwrap();
    let b = r.allocate(1, 1).unwrap();
    r.free(a.1);
    assert_eq!(r.available(), 2);
    r.free(b.1);
    assert_eq!(r.available(), 4);
}

#[test]
fn capacity_four_ring_reuses_the_front_after_release() {
    let mut r = RingAlloc::new(4);
    let first = r.allocate(3, 1).unwrap();
    assert_eq!(first.0, 0);
    assert!(r.allocate(2, 1).is_none());
    let second = r.allocate(1, 1).unwrap();
    assert_eq!(second.0, 3);
    r.free(first.1);
    let third = r.allocate(1, 1).unwrap();
    assert_eq!(third.0, 0);
}

#[test]
fn out_of_order_free_waits_for_the_oldest() {
    let mut r = RingAlloc::new(4);
    let a = r.allocate(2, 1).unwrap();
    let b = r.allocate(2, 1).unwrap();
    assert_eq!(r.available(), 0);
    r.free(b.1);
    // the oldest allocation still pins the whole ring
    assert_eq!(r.available(), 0);
    r.free(a.1);
    assert_eq!(r.available(), 4);
}

#[test]
fn oversized_request_on_empty_ring_is_refused() {
    let mut r = RingAlloc::new(4);
    assert!(r.allocate(5, 1).is_none());
    assert_eq!(r.allocate(4, 1).unwrap().0, 0);
    assert_eq!(r.available(), 0);
}

#[test]
fn padding_counts_against_the_free_run() {
    let mut r = RingAlloc::new(8);
    let _ = r.allocate(1, 1).unwrap();
    let b = r.allocate(2, 4).unwrap();
    assert_eq!(b.0, 4);
    assert_eq!(r.available(), 2);
}
