use viewtree::draw::{DrawCommand, Paint, Shape};
use viewtree::geometry::{Context, Position, Size};
use viewtree::view::{Circle, Color, Element, HStack, Loop, Node, Rectangle, VStack, ZStack};

fn child(v: &Node, i: usize) -> &Node {
    match &v.elements[i] {
        Element::Single(c) => c,
        Element::Repeated(_) => panic!("expected a single view"),
    }
}

fn repeated(v: &Node, i: usize, k: usize) -> &Node {
    match &v.elements[i] {
        Element::Repeated(l) => &l.elements[k],
        Element::Single(_) => panic!("expected a repeater"),
    }
}

fn three_rects() -> (Node, Node, Node) {
    (
        Rectangle::new().size(10, 20).padding_top(2),
        Rectangle::new().size(30, 5).padding_left(3).padding_right(1),
        Rectangle::new().size(15, 15),
    )
}

#[test]
fn vstack_auto_size_sums_heights_and_takes_widest() {
    let mut v = VStack::new(three_rects()).spacing(4);
    v.layout(Context::new(0, 0, 1));
    // (20 + 2) + 5 + 15 + 2 * 4 and max(10, 30 + 3 + 1, 15)
    assert_eq!(v.base.size, Size::new(34, 50));
    assert_eq!(v.base.origin, Position::new(0, 0));
    assert_eq!(child(&v, 0).base.origin, Position::new(0, 2));
    assert_eq!(child(&v, 1).base.origin, Position::new(3, 26));
    assert_eq!(child(&v, 2).base.origin, Position::new(0, 35));
}

#[test]
fn hstack_auto_size_sums_widths_and_takes_tallest() {
    let mut v = HStack::new(three_rects()).spacing(4);
    v.layout(Context::new(0, 0, 1));
    // 10 + (30 + 4) + 15 + 2 * 4 and max(20 + 2, 5, 15)
    assert_eq!(v.base.size, Size::new(67, 22));
    assert_eq!(child(&v, 0).base.origin, Position::new(0, 2));
    assert_eq!(child(&v, 1).base.origin, Position::new(17, 0));
    assert_eq!(child(&v, 2).base.origin, Position::new(52, 0));
}

#[test]
fn zstack_overlays_children_at_its_origin() {
    let mut v = ZStack::new(three_rects()).padding_left(5).padding_top(7);
    v.layout(Context::new(100, 200, 1));
    assert_eq!(v.base.origin, Position::new(105, 207));
    assert_eq!(v.base.size, Size::new(34, 22));
    assert_eq!(child(&v, 0).base.origin, Position::new(105, 209));
    assert_eq!(child(&v, 1).base.origin, Position::new(108, 207));
    assert_eq!(child(&v, 2).base.origin, Position::new(105, 207));
}

#[test]
fn empty_stack_resolves_to_zero() {
    let mut v = VStack::new(()).spacing(9);
    v.layout(Context::new(3, 4, 2));
    assert_eq!(v.base.size, Size::new(0, 0));
    assert_eq!(v.base.origin, Position::new(3, 4));
}

#[test]
fn declared_size_is_never_overwritten() {
    let mut v = VStack::new(three_rects()).spacing(4).size(5, 6);
    v.layout(Context::new(0, 0, 1));
    assert_eq!(v.base.size, Size::new(5, 6));
    let mut w = HStack::new(three_rects()).size(0, 3);
    w.layout(Context::new(0, 0, 1));
    assert_eq!(w.base.size, Size::new(59, 3));
}

#[test]
fn nested_stacks_measure_bottom_up() {
    let inner = HStack::new((Rectangle::new().size(10, 10), Rectangle::new().size(20, 5))).spacing(2);
    let mut v = VStack::new((inner.padding_vertical(3), Circle::new().diameter(8))).spacing(1);
    v.layout(Context::new(0, 0, 1));
    // inner: 32 x 10, padded vertically by 3 + 3
    assert_eq!(child(&v, 0).base.size, Size::new(32, 10));
    assert_eq!(child(&v, 0).base.origin, Position::new(0, 3));
    assert_eq!(child(child(&v, 0), 1).base.origin, Position::new(12, 3));
    assert_eq!(child(&v, 1).base.origin, Position::new(0, 17));
    assert_eq!(v.base.size, Size::new(32, 25));
}

#[test]
fn invisible_child_is_excluded_from_size_and_traversal() {
    let (a, b, c) = three_rects();
    let mut v = VStack::new((a.fill(Color::rgb8(1, 2, 3)), b.visible(false).fill(Color::rgb8(4, 5, 6)), c.fill(Color::rgb8(7, 8, 9)))).spacing(4);
    v.layout(Context::new(0, 0, 1));
    // 22 + 15 + 4; the hidden view keeps its unset origin
    assert_eq!(v.base.size, Size::new(15, 41));
    assert_eq!(child(&v, 1).base.origin, Position::new(0, 0));
    assert_eq!(child(&v, 2).base.origin, Position::new(0, 26));
    let cmds = v.draw(Context::new(0, 0, 1));
    assert_eq!(cmds.len(), 2);
    assert_eq!(cmds[0].paint, Paint::Fill(Color::rgb8(1, 2, 3)));
    assert_eq!(cmds[1].paint, Paint::Fill(Color::rgb8(7, 8, 9)));
}

fn sized(i: u32) -> Node {
    Rectangle::new().size(10 * (i + 1), 5).padding_left(i).stroke(Color::rgb8(0, 0, 0), 1)
}

#[test]
fn repeater_lays_out_like_explicit_children() {
    let mut explicit = HStack::new((sized(0), sized(1), sized(2))).spacing(3);
    let mut repeated_stack = HStack::new(Loop::new(0, 3, |i| sized(i))).spacing(3);
    let cx = Context::new(7, 9, 1);
    explicit.layout(cx);
    repeated_stack.layout(cx);
    assert_eq!(explicit.base.size, repeated_stack.base.size);
    assert_eq!(explicit.base.size, Size::new(69, 5));
    for k in 0..3 {
        assert_eq!(child(&explicit, k).base.origin, repeated(&repeated_stack, 0, k).base.origin);
        assert_eq!(child(&explicit, k).base.size, repeated(&repeated_stack, 0, k).base.size);
    }
    assert_eq!(explicit.draw(cx), repeated_stack.draw(cx));
}

#[test]
fn hidden_repeater_and_hidden_repeated_views_are_skipped() {
    let mut v = VStack::new((
        Loop::new(0, 4, |i| Rectangle::new().size(1, 10).visible(i % 2 == 0)),
        Loop::new(0, 2, |_| Rectangle::new().size(50, 50)).visible(false),
    ));
    v.layout(Context::new(0, 0, 1));
    assert_eq!(v.base.size, Size::new(1, 20));
    assert_eq!(repeated(&v, 0, 2).base.origin, Position::new(0, 10));
}

#[test]
fn doubling_the_scale_doubles_origins_and_reported_sizes() {
    let build = || VStack::new(three_rects()).spacing(4).padding_left(6).padding_top(1);
    let mut one = build();
    let mut two = build();
    one.layout(Context::new(10, 20, 1));
    two.layout(Context::new(20, 40, 2));
    assert_eq!(one.base.size, two.base.size);
    assert_eq!(two.base.origin, Position::new(32, 42));
    for k in 0..3 {
        let a = child(&one, k).base.origin;
        let b = child(&two, k).base.origin;
        assert_eq!(b, Position::new(2 * a.x, 2 * a.y));
    }
    let c1 = Rectangle::new().size(10, 20).fill(Color::rgb8(0, 0, 0));
    let mut s1 = VStack::new(c1);
    s1.layout(Context::new(0, 0, 1));
    let c2 = Rectangle::new().size(10, 20).fill(Color::rgb8(0, 0, 0));
    let mut s2 = VStack::new(c2);
    s2.layout(Context::new(0, 0, 2));
    let d1 = s1.draw(Context::new(0, 0, 1));
    let d2 = s2.draw(Context::new(0, 0, 2));
    assert_eq!((d1[0].x1, d1[0].y1), (10, 20));
    assert_eq!((d2[0].x1, d2[0].y1), (20, 40));
}

#[test]
fn draw_emits_fill_then_stroke_in_traversal_order() {
    let red = Color::rgb8(255, 0, 0);
    let blue = Color::rgba8(0, 0, 255, 128);
    let mut v = HStack::new((
        Rectangle::new().size(10, 10).fill(red).stroke(blue, 2),
        Circle::new().radius(5).stroke(red, 1),
        VStack::new(Rectangle::new().size(4, 4)),
    ))
    .spacing(1);
    v.layout(Context::new(0, 0, 1));
    let cmds = v.draw(Context::new(0, 0, 1));
    assert_eq!(
        cmds,
        vec![
            DrawCommand { shape: Shape::Rect, x0: 0, y0: 0, x1: 10, y1: 10, paint: Paint::Fill(red) },
            DrawCommand { shape: Shape::Rect, x0: 0, y0: 0, x1: 10, y1: 10, paint: Paint::Stroke(blue, 2) },
            DrawCommand { shape: Shape::Circle, x0: 11, y0: 0, x1: 21, y1: 10, paint: Paint::Stroke(red, 1) },
        ]
    );
}

#[test]
fn builders_set_base_fields() {
    let v = Rectangle::new()
        .padding_horizontal(3)
        .padding_vertical(4)
        .padding_bottom(9)
        .on_click(11)
        .visible(false);
    assert_eq!((v.base.padding_left, v.base.padding_right), (3, 3));
    assert_eq!((v.base.padding_top, v.base.padding_bottom), (4, 9));
    assert_eq!(v.base.on_click, Some(11));
    assert!(!v.base.visible);
    assert_eq!(Circle::new().radius(7).base.size, Size::new(14, 14));
    let l = Loop::new(5, 8, |i| Rectangle::new().size(i, i));
    assert_eq!(l.elements.len(), 3);
    assert_eq!(l.elements[0].base.size, Size::new(5, 5));
    assert_eq!(Loop::new(3, 3, |_| Rectangle::new()).elements.len(), 0);
}

#[test]
fn fits_at_accepts_ordinary_trees() {
    let v = VStack::new(three_rects()).spacing(4);
    assert!(v.fits_at(Context::new(0, 0, 1)));
    assert!(v.fits_at(Context::new(-1000, 5, 3)));
}

#[test]
fn fits_at_rejects_coordinates_past_the_range() {
    let leaf = Rectangle::new().size(10, 10);
    assert!(leaf.fits_at(Context::new(i64::MAX - 10, 0, 1)));
    assert!(!leaf.fits_at(Context::new(i64::MAX - 9, 0, 1)));
    let padded = Rectangle::new().padding_top(u32::MAX);
    assert!(!padded.fits_at(Context::new(0, i64::MAX - 1, 2)));
}

#[test]
fn fits_at_rejects_sizes_past_u32() {
    let wide = HStack::new((Rectangle::new().size(u32::MAX, 1), Rectangle::new().size(1, 1)));
    assert!(!wide.fits_at(Context::new(0, 0, 1)));
    let wide_enough = HStack::new((Rectangle::new().size(u32::MAX - 1, 1), Rectangle::new().size(1, 1)));
    assert!(wide_enough.fits_at(Context::new(0, 0, 1)));
    // an overlay takes the largest child, so the same children fit there
    let overlay = ZStack::new((Rectangle::new().size(u32::MAX, 1), Rectangle::new().size(1, 1)));
    assert!(overlay.fits_at(Context::new(0, 0, 1)));
}
