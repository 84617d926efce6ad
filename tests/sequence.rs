use viewtree::geometry::{Context, Size};
use viewtree::sequence::{AnyView, ViewSequence};
use viewtree::view::{Element, HStack, Loop, Node, Rectangle, VStack, ZStack};

fn width_of(e: &Element) -> u32 {
    match e {
        Element::Single(v) => v.base.size.width,
        Element::Repeated(l) => l.elements.len() as u32,
    }
}

fn r(w: u32) -> Node {
    Rectangle::new().size(w, 1)
}

#[test]
fn empty_group_gives_no_children() {
    assert!(().into_view_sequence().is_empty());
    assert!(ZStack::new(()).elements.is_empty());
}

#[test]
fn single_view_and_single_repeater_are_groups_of_one() {
    let one = r(4).into_view_sequence();
    assert_eq!(one.len(), 1);
    assert_eq!(width_of(&one[0]), 4);
    let rep = Loop::new(0, 6, |i| r(i)).into_view_sequence();
    assert!(matches!(rep[0], Element::Repeated(_)));
    assert_eq!(width_of(&rep[0]), 6);
    assert!(matches!(r(1).into_element(), Element::Single(_)));
}

#[test]
fn tuples_keep_declaration_order() {
    let v = HStack::new((r(1), Loop::new(0, 2, |i| r(i)), r(3)));
    let widths: Vec<u32> = v.elements.iter().map(width_of).collect();
    assert_eq!(widths, vec![1, 2, 3]);
}

#[test]
fn sixteen_children_are_accepted() {
    let mut v = VStack::new((
        r(1), r(2), r(3), r(4), r(5), r(6), r(7), r(8),
        r(9), r(10), r(11), r(12), r(13), r(14), r(15), r(16),
    ));
    let widths: Vec<u32> = v.elements.iter().map(width_of).collect();
    assert_eq!(widths, (1..=16).collect::<Vec<u32>>());
    v.layout(Context::new(0, 0, 1));
    assert_eq!(v.base.size, Size::new(16, 16));
}
