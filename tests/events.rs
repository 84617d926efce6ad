use viewtree::geometry::Context;
use viewtree::view::{HStack, Rectangle, VStack, ZStack};

#[test]
fn leaf_hit_test_includes_its_edges() {
    let mut leaf = Rectangle::new().size(100, 100).on_click(7);
    leaf.layout(Context::new(10, 10, 1));
    assert_eq!(leaf.mouse_down(Context::new(10, 10, 1)), vec![7]);
    assert_eq!(leaf.mouse_down(Context::new(110, 110, 1)), vec![7]);
    assert_eq!(leaf.mouse_down(Context::new(111, 10, 1)), Vec::<u64>::new());
    assert_eq!(leaf.mouse_down(Context::new(10, 9, 1)), Vec::<u64>::new());
}

#[test]
fn leaf_without_handler_fires_nothing() {
    let mut leaf = Rectangle::new().size(100, 100);
    leaf.layout(Context::new(0, 0, 1));
    assert!(leaf.mouse_down(Context::new(50, 50, 1)).is_empty());
}

#[test]
fn overlay_fires_every_child_then_itself() {
    let mut z = ZStack::new((
        Rectangle::new().size(100, 100).on_click(1),
        Rectangle::new().size(50, 50).padding_left(25).padding_top(25).on_click(2),
    ))
    .on_click(3);
    z.layout(Context::new(0, 0, 1));
    assert_eq!(z.mouse_down(Context::new(40, 40, 1)), vec![1, 2, 3]);
    // inside the container but outside the second child
    assert_eq!(z.mouse_down(Context::new(90, 10, 1)), vec![1, 3]);
    // outside the container: nothing reaches the children
    assert!(z.mouse_down(Context::new(101, 40, 1)).is_empty());
}

#[test]
fn overlay_passes_press_to_children_without_their_own_hit() {
    // the overlay only tests its own rectangle; a child without a handler fires nothing
    let mut z = ZStack::new((Rectangle::new().size(10, 10), Rectangle::new().size(10, 10).on_click(4)));
    z.layout(Context::new(0, 0, 1));
    assert_eq!(z.mouse_down(Context::new(5, 5, 1)), vec![4]);
}

#[test]
fn linear_container_never_fires_its_own_handler() {
    let mut h = HStack::new((
        Rectangle::new().size(100, 100).on_click(1),
        Rectangle::new().size(50, 50).padding_left(25).padding_top(25).on_click(2),
    ))
    .on_click(3);
    h.layout(Context::new(0, 0, 1));
    assert_eq!(h.mouse_down(Context::new(40, 40, 1)), vec![1]);
    assert_eq!(h.mouse_down(Context::new(140, 40, 1)), vec![2]);
    assert!(h.mouse_down(Context::new(110, 10, 1)).is_empty());
}

#[test]
fn linear_container_dispatches_outside_its_own_bounds() {
    // a declared size smaller than the content does not clip dispatch
    let mut v = VStack::new((Rectangle::new().size(10, 10), Rectangle::new().size(10, 10).on_click(9))).size(10, 10);
    v.layout(Context::new(0, 0, 1));
    assert_eq!(v.mouse_down(Context::new(5, 15, 1)), vec![9]);
}

#[test]
fn hit_test_uses_scaled_rectangle() {
    let mut leaf = Rectangle::new().size(10, 10).on_click(5);
    leaf.layout(Context::new(0, 0, 3));
    assert_eq!(leaf.mouse_down(Context::new(30, 30, 3)), vec![5]);
    assert!(leaf.mouse_down(Context::new(31, 30, 3)).is_empty());
    assert!(leaf.contains(Context::new(0, 30, 3)));
}
