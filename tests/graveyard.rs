use lahar::graveyard::{Graveyard, HandleKind};

#[test]
fn object_is_destroyed_on_the_third_frame_of_a_depth_three_registry() {
    let mut g = Graveyard::new(3);
    assert_eq!(g.depth(), 3);
    g.inter_handle_dynamic(HandleKind::Buffer, 42);
    assert!(g.begin_frame().is_empty());
    assert!(g.begin_frame().is_empty());
    assert_eq!(g.begin_frame(), vec![(HandleKind::Buffer, 42)]);
    assert!(g.begin_frame().is_empty());
    assert!(g.begin_frame().is_empty());
    assert!(g.begin_frame().is_empty());
}

#[test]
fn each_frame_returns_its_own_objects() {
    let mut g = Graveyard::new(2);
    g.inter(vec![(HandleKind::Image, 1), (HandleKind::DeviceMemory, 2)]);
    assert!(g.begin_frame().is_empty());
    g.inter_handle_dynamic(HandleKind::ImageView, 3);
    assert_eq!(
        g.begin_frame(),
        vec![(HandleKind::Image, 1), (HandleKind::DeviceMemory, 2)]
    );
    assert_eq!(g.begin_frame(), vec![(HandleKind::ImageView, 3)]);
}

#[test]
fn clear_flushes_everything_oldest_bucket_first() {
    let mut g = Graveyard::new(3);
    g.inter_handle_dynamic(HandleKind::Framebuffer, 1);
    assert!(g.begin_frame().is_empty());
    g.inter_handle_dynamic(HandleKind::Buffer, 2);
    assert_eq!(
        g.clear(),
        vec![(HandleKind::Framebuffer, 1), (HandleKind::Buffer, 2)]
    );
    assert!(g.begin_frame().is_empty());
    assert!(g.clear().is_empty());
}

#[test]
fn depth_one_destroys_on_the_next_frame() {
    let mut g = Graveyard::new(1);
    g.inter_handle_dynamic(HandleKind::Buffer, 9);
    assert_eq!(g.begin_frame(), vec![(HandleKind::Buffer, 9)]);
}
