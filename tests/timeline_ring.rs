use lahar::timeline_ring::TimelineRing;

#[test]
fn timeline_ring_smoke() {
    let mut ring = TimelineRing::new(5);
    assert_eq!(ring.free(), 5);
    assert_eq!(ring.allocate(3, 1, 0), Some(3));
    assert_eq!(ring.free(), 2);
    assert_eq!(ring.allocate(3, 1, 1), None);
    assert_eq!(ring.allocate(2, 2, 1), None);
    assert_eq!(ring.free(), 2);
    assert_eq!(ring.allocate(2, 1, 1), Some(1));
    assert_eq!(ring.free(), 0);
    assert_eq!(ring.allocate(1, 1, 0), None);
    ring.tick(0);
    assert_eq!(ring.free(), 2);
    assert_eq!(ring.allocate(2, 2, 2), Some(4));
    assert_eq!(ring.free(), 0);
    ring.tick(2);
    assert_eq!(ring.free(), 5);
}

#[test]
fn tick_reclaims_exactly_the_due_allocations() {
    let mut ring = TimelineRing::new(9);
    assert_eq!(ring.allocate(3, 1, 1), Some(7));
    assert_eq!(ring.allocate(3, 1, 2), Some(4));
    assert_eq!(ring.allocate(3, 1, 3), Some(1));
    assert_eq!(ring.free(), 0);
    assert!(!ring.tick(0));
    assert_eq!(ring.free(), 0);
    assert!(ring.tick(2));
    // the first two are reclaimed, the third is not: the longest free run is the five units
    // above it
    assert_eq!(ring.free(), 5);
    assert!(!ring.tick(2));
    assert!(ring.tick(3));
    assert_eq!(ring.free(), 9);
}

#[test]
fn wrap_reuse_after_tick() {
    let mut ring = TimelineRing::new(4);
    assert_eq!(ring.capacity(), 4);
    assert_eq!(ring.allocate(3, 1, 1), Some(2));
    assert_eq!(ring.allocate(2, 1, 2), None);
    assert_eq!(ring.allocate(1, 1, 2), Some(1));
    assert!(ring.tick(1));
    assert_eq!(ring.allocate(2, 1, 3), Some(3));
}

#[test]
fn offsets_respect_alignment() {
    let mut ring = TimelineRing::new(64);
    let a = ring.allocate(5, 8, 1).unwrap();
    let b = ring.allocate(7, 16, 1).unwrap();
    let c = ring.allocate(1, 4, 2).unwrap();
    assert_eq!(a % 8, 0);
    assert_eq!(b % 16, 0);
    assert_eq!(c % 4, 0);
    assert!(b + 7 <= a);
    assert!(c + 1 <= b);
}

#[test]
fn full_capacity_fits_after_drain() {
    let mut ring = TimelineRing::new(6);
    assert_eq!(ring.allocate(2, 1, 1), Some(5));
    assert!(ring.tick(1));
    assert_eq!(ring.free(), 6);
    assert_eq!(ring.allocate(6, 1, 2), Some(0));
    assert_eq!(ring.free(), 0);
}
