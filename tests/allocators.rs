use lahar::append::{AppendLayout, Growth};
use lahar::arena::{Arena, ArenaAlloc};
use lahar::region::{align_down, Region};
use lahar::staging::StagingRing;
use lahar::align;
use lahar::layout::{pack, Requirement};

#[test]
fn align_sanity() {
    assert_eq!(align_down(3, 4), 0);
    assert_eq!(align_down(4, 4), 4);
    assert_eq!(align_down(5, 4), 4);
}

#[test]
fn align_rounds_up_to_the_next_multiple() {
    assert_eq!(align(0, 8), 0);
    assert_eq!(align(1, 8), 8);
    assert_eq!(align(8, 8), 8);
    assert_eq!(align(13, 5), 15);
    assert_eq!(align(7, 1), 7);
}

#[test]
fn arena_hands_out_consecutive_ranges() {
    let mut a: Arena = ArenaAlloc::new(10);
    assert_eq!(a.allocate(4), Some(0));
    assert_eq!(a.allocate(6), Some(4));
    assert_eq!(a.allocate(1), None);
    assert_eq!(a.allocate(0), Some(10));
    a.reset();
    assert_eq!(a.allocate(10), Some(0));
    assert_eq!(a.allocate(u64::MAX), None);
}

#[test]
fn region_allocates_downward_and_counts_waste() {
    let mut r = Region::new(64);
    assert!(!r.has_capacity_for(8));
    let size = r.next_chunk_size(8);
    assert_eq!(size, 128);
    r.grow(size);
    assert!(r.has_capacity_for(8));
    assert_eq!(r.allocate(8, 16), 112);
    assert_eq!(r.allocate(3, 4), 108);
    assert_eq!(r.used(), 11);
    assert_eq!(r.next_chunk_size(300), 600);
    r.grow(600);
    assert_eq!(r.wasted(), 108);
    assert_eq!(r.chunks(), 2);
}

#[test]
fn append_layout_grows_to_twice_or_exact_fit() {
    let mut b = AppendLayout::with_capacity(8);
    assert_eq!(b.allocate(5), (0, None));
    assert_eq!(
        b.allocate(5),
        (5, Some(Growth { new_capacity: 16, copy_bytes: 5 }))
    );
    assert_eq!(
        b.allocate(40),
        (10, Some(Growth { new_capacity: 50, copy_bytes: 10 }))
    );
    assert_eq!(b.capacity(), 50);
    assert_eq!(b.fill(), 50);

    let mut empty = AppendLayout::with_capacity(0);
    assert_eq!(
        empty.allocate(3),
        (0, Some(Growth { new_capacity: 3, copy_bytes: 0 }))
    );
}

#[test]
fn staging_ring_grows_when_full() {
    let mut s = StagingRing::new(2, 7, 4);
    let first = s.allocate(4, 1);
    assert_eq!(first.offset, 4);
    assert_eq!(first.grown_to, None);
    let second = s.allocate(8, 1);
    assert_eq!(second.grown_to, Some(16));
    assert_eq!(second.offset, 8);
}

#[test]
fn staging_ring_releases_a_frame_when_it_is_recycled() {
    let mut s = StagingRing::new(2, 15, 1);
    assert_eq!(s.allocate(10, 1).offset, 6);
    s.begin_frame();
    assert_eq!(s.allocate(4, 1).offset, 2);
    s.begin_frame();
    // the first frame's ten units are released, so eight fit above the second frame's work
    let p = s.allocate(8, 1);
    assert_eq!(p.offset, 8);
    assert_eq!(p.grown_to, None);
}

#[test]
fn align_at_the_top_of_the_range() {
    assert_eq!(align(u64::MAX, 3), u64::MAX);
    assert_eq!(align(u64::MAX - 7, 8), u64::MAX - 7);
}

#[test]
fn pack_places_each_resource_at_its_alignment() {
    let reqs = vec![
        Requirement { size: 10, alignment: 4, type_bits: 0b1110 },
        Requirement { size: 8, alignment: 16, type_bits: 0b0111 },
        Requirement { size: 3, alignment: 1, type_bits: 0b0110 },
    ];
    let layout = pack(&reqs).unwrap();
    assert_eq!(layout.offsets, vec![0, 16, 24]);
    assert_eq!(layout.size, 27);
    assert_eq!(layout.type_bits, 0b0110);

    let empty = pack(&Vec::new()).unwrap();
    assert_eq!(empty.size, 0);
    assert_eq!(empty.type_bits, !0u32);

    let too_big = vec![
        Requirement { size: u64::MAX - 2, alignment: 1, type_bits: 1 },
        Requirement { size: 1, alignment: 8, type_bits: 1 },
    ];
    assert!(pack(&too_big).is_none());
}
