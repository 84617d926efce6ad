use vstd::prelude::*;

use crate::geometry::{Position, Size};

verus! {

/// An RGBA color with 8 bits per channel.
#[derive(Clone, Copy, Debug, PartialEq, Eq, Structural)]
pub struct Color {
    pub r: u8,
    pub g: u8,
    pub b: u8,
    pub a: u8,
}

impl Color {
    pub fn rgb8(r: u8, g: u8, b: u8) -> (c: Color)
        ensures
            c == (Color { r, g, b, a: 255 }),
    {
        Color { r, g, b, a: 255 }
    }

    pub fn rgba8(r: u8, g: u8, b: u8, a: u8) -> (c: Color)
        ensures
            c == (Color { r, g, b, a }),
    {
        Color { r, g, b, a }
    }
}

/// The node kinds: three containers and two drawable leaves.
#[derive(Clone, Copy, Debug, PartialEq, Eq, Structural)]
pub enum Kind {
    VStack,
    HStack,
    ZStack,
    Rectangle,
    Circle,
}

/// The fields every node shares. Lengths are logical; they are multiplied by the
/// scale factor wherever they are read.
pub struct Base {
    /// Declared size; a zero axis is resolved by layout.
    pub size: Size,
    /// Absolute origin, written by layout.
    pub origin: Position,
    pub visible: bool,
    pub padding_top: u32,
    pub padding_bottom: u32,
    pub padding_left: u32,
    pub padding_right: u32,
    /// The action a pointer press on this node reports, if any.
    pub on_click: Option<u64>,
}

impl Base {
    pub fn new() -> (b: Base)
        ensures
            b.size == (Size { width: 0, height: 0 }),
            b.origin == (Position { x: 0, y: 0 }),
            b.visible,
            b.padding_top == 0 && b.padding_bottom == 0,
            b.padding_left == 0 && b.padding_right == 0,
            b.on_click.is_none(),
    {
        Base {
            size: Size { width: 0, height: 0 },
            origin: Position { x: 0, y: 0 },
            visible: true,
            padding_top: 0,
            padding_bottom: 0,
            padding_left: 0,
            padding_right: 0,
            on_click: None,
        }
    }
}

/// A node of the view tree. Containers hold their children in `elements`;
/// leaves hold a fill and a stroke.
pub struct Node {
    pub base: Base,
    pub kind: Kind,
    /// Gap between consecutive children of a linear container.
    pub spacing: u32,
    pub fill: Option<Color>,
    pub stroke: Option<(Color, u32)>,
    pub elements: Vec<Element>,
}

/// A child slot of a container: one view, or a repeater whose views are
/// spliced into the container's child sequence.
pub enum Element {
    Single(Node),
    Repeated(Loop),
}

/// A repeater: views generated once per index, laid out and drawn as if
/// they were direct children of the enclosing container.
pub struct Loop {
    pub visible: bool,
    pub elements: Vec<Node>,
}

pub open spec fn is_stack(k: Kind) -> bool {
    k == Kind::VStack || k == Kind::HStack || k == Kind::ZStack
}

pub open spec fn fresh(v: Node, kind: Kind) -> bool {
    &&& v.base.size == (Size { width: 0, height: 0 })
    &&& v.base.origin == (Position { x: 0, y: 0 })
    &&& v.base.visible
    &&& v.base.padding_top == 0 && v.base.padding_bottom == 0
    &&& v.base.padding_left == 0 && v.base.padding_right == 0
    &&& v.base.on_click.is_none()
    &&& v.kind == kind
    &&& v.spacing == 0
    &&& v.fill.is_none()
    &&& v.stroke.is_none()
}

impl Node {
    pub fn with_kind(kind: Kind, elements: Vec<Element>) -> (v: Node)
        ensures
            fresh(v, kind),
            v.elements@ == elements@,
    {
        Node { base: Base::new(), kind, spacing: 0, fill: None, stroke: None, elements }
    }

    pub fn size(self, width: u32, height: u32) -> (v: Node)
        ensures
            v == (Node { base: Base { size: Size { width, height }, ..self.base }, ..self }),
    {
        let mut v = self;
        v.base.size = Size { width, height };
        v
    }

    pub fn visible(self, visible: bool) -> (v: Node)
        ensures
            v == (Node { base: Base { visible, ..self.base }, ..self }),
    {
        let mut v = self;
        v.base.visible = visible;
        v
    }

    pub fn padding_top(self, amount: u32) -> (v: Node)
        ensures
            v == (Node { base: Base { padding_top: amount, ..self.base }, ..self }),
    {
        let mut v = self;
        v.base.padding_top = amount;
        v
    }

    pub fn padding_bottom(self, amount: u32) -> (v: Node)
        ensures
            v == (Node { base: Base { padding_bottom: amount, ..self.base }, ..self }),
    {
        let mut v = self;
        v.base.padding_bottom = amount;
        v
    }

    pub fn padding_left(self, amount: u32) -> (v: Node)
        ensures
            v == (Node { base: Base { padding_left: amount, ..self.base }, ..self }),
    {
        let mut v = self;
        v.base.padding_left = amount;
        v
    }

    pub fn padding_right(self, amount: u32) -> (v: Node)
        ensures
            v == (Node { base: Base { padding_right: amount, ..self.base }, ..self }),
    {
        let mut v = self;
        v.base.padding_right = amount;
        v
    }

    /// Sets the left and right padding.
    pub fn padding_horizontal(self, amount: u32) -> (v: Node)
        ensures
            v == (Node {
                base: Base { padding_left: amount, padding_right: amount, ..self.base },
                ..self
            }),
    {
        let mut v = self;
        v.base.padding_left = amount;
        v.base.padding_right = amount;
        v
    }

    /// Sets the top and bottom padding.
    pub fn padding_vertical(self, amount: u32) -> (v: Node)
        ensures
            v == (Node {
                base: Base { padding_top: amount, padding_bottom: amount, ..self.base },
                ..self
            }),
    {
        let mut v = self;
        v.base.padding_top = amount;
        v.base.padding_bottom = amount;
        v
    }

    /// Attaches the action reported when a press lands on this node.
    pub fn on_click(self, action: u64) -> (v: Node)
        ensures
            v == (Node { base: Base { on_click: Some(action), ..self.base }, ..self }),
    {
        let mut v = self;
        v.base.on_click = Some(action);
        v
    }

    pub fn spacing(self, distance: u32) -> (v: Node)
        ensures
            v == (Node { spacing: distance, ..self }),
    {
        let mut v = self;
        v.spacing = distance;
        v
    }

    pub fn fill(self, color: Color) -> (v: Node)
        ensures
            v == (Node { fill: Some(color), ..self }),
    {
        let mut v = self;
        v.fill = Some(color);
        v
    }

    pub fn stroke(self, color: Color, stroke_width: u32) -> (v: Node)
        ensures
            v == (Node { stroke: Some((color, stroke_width)), ..self }),
    {
        let mut v = self;
        v.stroke = Some((color, stroke_width));
        v
    }

    pub fn diameter(self, diameter: u32) -> (v: Node)
        ensures
            v == (Node { base: Base { size: Size { width: diameter, height: diameter }, ..self.base }, ..self }),
    {
        self.size(diameter, diameter)
    }

    pub fn radius(self, radius: u32) -> (v: Node)
        requires
            radius <= u32::MAX / 2,
        ensures
            v == (Node {
                base: Base { size: Size { width: (2 * radius) as u32, height: (2 * radius) as u32 }, ..self.base },
                ..self
            }),
    {
        self.size(2 * radius, 2 * radius)
    }
}

impl Loop {
    /// Builds a repeater holding `func(i)` for each `i` in `start..end`, in order.
    pub fn new<F: Fn(u32) -> Node>(start: u32, end: u32, func: F) -> (l: Loop)
        requires
            forall|i: u32| start <= i < end ==> func.requires((i,)),
        ensures
            l.visible,
            l.elements@.len() == if start <= end { end - start } else { 0 },
            forall|k: int|
                0 <= k < l.elements@.len() ==> func.ensures(((start + k) as u32,), #[trigger] l.elements@[k]),
    {
        let mut elements: Vec<Node> = Vec::new();
        let mut i = start;
        while i < end
            invariant
                start <= i <= end || (i == start && end < start),
                elements@.len() == i - start,
                forall|i: u32| start <= i < end ==> func.requires((i,)),
                forall|k: int|
                    0 <= k < elements@.len() ==> func.ensures(((start + k) as u32,), #[trigger] elements@[k]),
            decreases end - i,
        {
            let v = func(i);
            elements.push(v);
            i = i + 1;
        }
        Loop { visible: true, elements }
    }

    pub fn visible(self, visible: bool) -> (l: Loop)
        ensures
            l == (Loop { visible, ..self }),
    {
        let mut l = self;
        l.visible = visible;
        l
    }
}

/// Constructor of vertical stacks.
pub struct VStack;

/// Constructor of horizontal stacks.
pub struct HStack;

/// Constructor of overlay stacks.
pub struct ZStack;

/// Constructor of rectangles.
pub struct Rectangle;

/// Constructor of circles.
pub struct Circle;

impl Rectangle {
    pub fn new() -> (v: Node)
        ensures
            fresh(v, Kind::Rectangle),
            v.elements@.len() == 0,
    {
        Node::with_kind(Kind::Rectangle, Vec::new())
    }
}

impl Circle {
    pub fn new() -> (v: Node)
        ensures
            fresh(v, Kind::Circle),
            v.elements@.len() == 0,
    {
        Node::with_kind(Kind::Circle, Vec::new())
    }
}

} // verus!
