use vstd::prelude::*;

verus! {

/// A point in absolute (device) space.
#[derive(Clone, Copy, Debug, PartialEq, Eq, Structural)]
pub struct Position {
    pub x: i64,
    pub y: i64,
}

/// A logical size. A zero in an axis means "resolve this axis from the children".
#[derive(Clone, Copy, Debug, PartialEq, Eq, Structural)]
pub struct Size {
    pub width: u32,
    pub height: u32,
}

/// What a traversal carries from a node to its children: the placement cursor
/// (or the pointer, for event dispatch) in absolute space, and the scale factor
/// by which every logical length is multiplied when it is read.
#[derive(Clone, Copy, Debug, PartialEq, Eq, Structural)]
pub struct Context {
    pub location: Position,
    pub scale: u32,
}

impl Position {
    pub fn new(x: i64, y: i64) -> (r: Position)
        ensures
            r.x == x,
            r.y == y,
    {
        Position { x, y }
    }
}

impl Size {
    pub fn new(width: u32, height: u32) -> (r: Size)
        ensures
            r.width == width,
            r.height == height,
    {
        Size { width, height }
    }
}

impl Context {
    pub fn new(x: i64, y: i64, scale: u32) -> (r: Context)
        ensures
            r.location.x == x,
            r.location.y == y,
            r.scale == scale,
    {
        Context { location: Position { x, y }, scale }
    }
}

/// Whether `p` lies in the closed box from `origin` spanning `w` by `h`.
pub open spec fn in_box(p: Position, origin: Position, w: int, h: int) -> bool {
    &&& origin.x <= p.x <= origin.x + w
    &&& origin.y <= p.y <= origin.y + h
}

/// Inclusive hit test of a point against a box given by its origin and extent.
pub fn box_contains(p: Position, origin: Position, w: u64, h: u64) -> (r: bool)
    ensures
        r == in_box(p, origin, w as int, h as int),
{
    let px = p.x as i128;
    let py = p.y as i128;
    let ox = origin.x as i128;
    let oy = origin.y as i128;
    ox <= px && px <= ox + w as i128 && oy <= py && py <= oy + h as i128
}

} // verus!
