use vstd::prelude::*;

use crate::geometry::Context;
use crate::tree::{
    children, expand, flatten, lemma_children_smaller, lemma_flatten_slot, lemma_visible_prefix,
    lemma_visible_step, visible_of,
};
use crate::view::{is_stack, Color, Element, Kind, Node};

verus! {

/// The outline a draw command fills or strokes.
#[derive(Clone, Copy, Debug, PartialEq, Eq, Structural)]
pub enum Shape {
    Rect,
    /// The circle centred in the box, with half the box's width as radius.
    Circle,
}

#[derive(Clone, Copy, Debug, PartialEq, Eq, Structural)]
pub enum Paint {
    Fill(Color),
    /// A color and a line width.
    Stroke(Color, u32),
}

/// One primitive for the canvas, in absolute space: a shape inside the box from
/// `(x0, y0)` to `(x1, y1)`, and how to paint it.
#[derive(Clone, Copy, Debug, PartialEq, Eq, Structural)]
pub struct DrawCommand {
    pub shape: Shape,
    pub x0: i64,
    pub y0: i64,
    pub x1: i64,
    pub y1: i64,
    pub paint: Paint,
}

pub open spec fn is_leaf(k: Kind) -> bool {
    k == Kind::Rectangle || k == Kind::Circle
}

/// The command painting a laid-out leaf with `paint`.
pub open spec fn leaf_command(v: Node, scale: int, paint: Paint) -> DrawCommand {
    DrawCommand {
        shape: if v.kind == Kind::Circle {
            Shape::Circle
        } else {
            Shape::Rect
        },
        x0: v.base.origin.x,
        y0: v.base.origin.y,
        x1: (v.base.origin.x + v.base.size.width * scale) as i64,
        y1: (v.base.origin.y + v.base.size.height * scale) as i64,
        paint,
    }
}

/// What a node draws itself: a leaf its fill, then its stroke; a container nothing.
pub open spec fn own_commands(v: Node, scale: int) -> Seq<DrawCommand> {
    if is_leaf(v.kind) {
        (match v.fill {
            Some(c) => seq![leaf_command(v, scale, Paint::Fill(c))],
            None => seq![],
        }) + (match v.stroke {
            Some(s) => seq![leaf_command(v, scale, Paint::Stroke(s.0, s.1))],
            None => seq![],
        })
    } else {
        seq![]
    }
}

/// The commands drawing a laid-out node: its own, then each child's in order.
pub open spec fn draws(v: Node, scale: int) -> Seq<DrawCommand>
    decreases v, children(v).len() + 1,
{
    own_commands(v, scale) + children_draws(v, children(v).len() as int, scale)
}

/// The commands of the first `n` children of `v`.
pub open spec fn children_draws(v: Node, n: int, scale: int) -> Seq<DrawCommand>
    decreases v, n,
{
    if n <= 0 || n > children(v).len() {
        seq![]
    } else {
        proof {
            lemma_children_smaller(v);
        }
        children_draws(v, n - 1, scale) + draws(children(v)[n - 1], scale)
    }
}

/// Every box a leaf is drawn in has its far corner representable.
pub open spec fn drawable(v: Node, scale: int) -> bool
    decreases v
    via drawable_decreases
{
    &&& is_leaf(v.kind) ==> v.base.origin.x + v.base.size.width * scale <= i64::MAX
        && v.base.origin.y + v.base.size.height * scale <= i64::MAX
    &&& forall|j: int| 0 <= j < children(v).len() ==> drawable(#[trigger] children(v)[j], scale)
}

#[via_fn]
proof fn drawable_decreases(v: Node, scale: int) {
    lemma_children_smaller(v);
}

impl Node {
    /// The draw commands of this laid-out node and its visible descendants, in
    /// traversal order (repeaters expanded).
    pub fn draw(&self, cx: Context) -> (r: Vec<DrawCommand>)
        requires
            drawable(*self, cx.scale as int),
        ensures
            r@ == draws(*self, cx.scale as int),
    {
        let mut out: Vec<DrawCommand> = Vec::new();
        self.draw_into(cx.scale, &mut out);
        assert(out@ =~= draws(*self, cx.scale as int));
        out
    }

    fn draw_into(&self, scale: u32, out: &mut Vec<DrawCommand>)
        requires
            drawable(*self, scale as int),
        ensures
            final(out)@ == old(out)@ + draws(*self, scale as int),
        decreases *self,
    {
        let ghost start = out@;
        if self.kind == Kind::Rectangle || self.kind == Kind::Circle {
            let shape = if self.kind == Kind::Circle {
                Shape::Circle
            } else {
                Shape::Rect
            };
            proof {
                assert(0 <= self.base.size.width * scale <= u32::MAX * u32::MAX) by (nonlinear_arith);
                assert(0 <= self.base.size.height * scale <= u32::MAX * u32::MAX) by (nonlinear_arith);
            }
            let x0 = self.base.origin.x;
            let y0 = self.base.origin.y;
            let x1 = (x0 as i128 + self.base.size.width as i128 * scale as i128) as i64;
            let y1 = (y0 as i128 + self.base.size.height as i128 * scale as i128) as i64;
            match self.fill {
                Some(c) => out.push(DrawCommand { shape, x0, y0, x1, y1, paint: Paint::Fill(c) }),
                None => {},
            }
            match self.stroke {
                Some(s) => out.push(DrawCommand { shape, x0, y0, x1, y1, paint: Paint::Stroke(s.0, s.1) }),
                None => {},
            }
            assert(out@ =~= start + draws(*self, scale as int));
            return ;
        }
        let n = self.elements.len();
        let mut i: usize = 0;
        let ghost mut k: int = 0;
        assert(self.elements@.take(0) =~= Seq::<Element>::empty());
        while i < n
            invariant
                is_stack(self.kind),
                drawable(*self, scale as int),
                n == self.elements@.len(),
                0 <= i <= n,
                k == flatten(self.elements@.take(i as int)).len(),
                k <= children(*self).len(),
                out@ == start + children_draws(*self, k, scale as int),
            decreases n - i,
        {
            proof {
                lemma_flatten_slot(*self, i as int);
                lemma_children_smaller(*self);
                assert(decreases_to!(self.elements => self.elements@));
                assert(decreases_to!(self.elements@ => self.elements@[i as int]));
            }
            match &self.elements[i] {
                Element::Single(c) => {
                    if c.base.visible {
                        assert(expand(self.elements@[i as int])[0] == *c);
                        c.draw_into(scale, out);
                        assert(out@ =~= start + children_draws(*self, k + 1, scale as int));
                    }
                },
                Element::Repeated(l) => {
                    if l.visible {
                        let m = l.elements.len();
                        let mut q: usize = 0;
                        let ghost mut t: int = 0;
                        assert(l.elements@.take(0) =~= Seq::<Node>::empty());
                        while q < m
                            invariant
                                is_stack(self.kind),
                                drawable(*self, scale as int),
                                0 <= i < n,
                                n == self.elements@.len(),
                                self.elements@[i as int] == Element::Repeated(*l),
                                l.visible,
                                k == flatten(self.elements@.take(i as int)).len(),
                                k + visible_of(l.elements@).len() <= children(*self).len(),
                                forall|x: int|
                                    0 <= x < visible_of(l.elements@).len() ==> children(*self)[k + x]
                                        == #[trigger] visible_of(l.elements@)[x],
                                m == l.elements@.len(),
                                0 <= q <= m,
                                t == visible_of(l.elements@.take(q as int)).len(),
                                out@ == start + children_draws(*self, k + t, scale as int),
                            decreases m - q,
                        {
                            let c = &l.elements[q];
                            proof {
                                lemma_visible_step(l.elements@, q as int);
                                lemma_visible_prefix(l.elements@, q as int + 1);
                                lemma_children_smaller(*self);
                            }
                            if c.base.visible {
                                assert(visible_of(l.elements@.take(q + 1))[t] == *c);
                                assert(children(*self)[k + t] == *c);
                                assert(decreases_to!(*self => *c));
                                c.draw_into(scale, out);
                                assert(out@ =~= start + children_draws(*self, k + t + 1, scale as int));
                                proof {
                                    t = t + 1;
                                }
                            }
                            q = q + 1;
                        }
                        assert(l.elements@.take(m as int) =~= l.elements@);
                    }
                },
            }
            proof {
                k = flatten(self.elements@.take(i + 1)).len() as int;
            }
            i = i + 1;
        }
        assert(self.elements@.take(n as int) =~= self.elements@);
    }
}

} // verus!
