use vstd::prelude::*;

use crate::geometry::{box_contains, in_box, Context};
use crate::tree::{
    children, expand, flatten, lemma_children_smaller, lemma_flatten_slot, lemma_visible_prefix,
    lemma_visible_step, visible_of,
};
use crate::view::{is_stack, Element, Kind, Node};

verus! {

/// Whether the pointer lies in the node's laid-out rectangle, edges included.
pub open spec fn hit(v: Node, cx: Context) -> bool {
    in_box(
        cx.location,
        v.base.origin,
        v.base.size.width * cx.scale,
        v.base.size.height * cx.scale,
    )
}

/// The node's own action, if it has one.
pub open spec fn own_action(v: Node) -> Seq<u64> {
    match v.base.on_click {
        Some(a) => seq![a],
        None => seq![],
    }
}

/// The actions a press at `cx.location` fires, in order. A leaf fires its own
/// action when hit. An overlay container that is hit passes the press to every
/// child, then fires its own action. A linear container passes the press to
/// every child and never fires an action of its own.
pub open spec fn hits(v: Node, cx: Context) -> Seq<u64>
    decreases v, children(v).len() + 1,
{
    if v.kind == Kind::ZStack {
        if hit(v, cx) {
            children_hits(v, children(v).len() as int, cx) + own_action(v)
        } else {
            seq![]
        }
    } else if is_stack(v.kind) {
        children_hits(v, children(v).len() as int, cx)
    } else if hit(v, cx) {
        own_action(v)
    } else {
        seq![]
    }
}

/// The actions the first `n` children of `v` fire.
pub open spec fn children_hits(v: Node, n: int, cx: Context) -> Seq<u64>
    decreases v, n,
{
    if n <= 0 || n > children(v).len() {
        seq![]
    } else {
        proof {
            lemma_children_smaller(v);
        }
        children_hits(v, n - 1, cx) + hits(children(v)[n - 1], cx)
    }
}

impl Node {
    /// Whether the pointer of `cx` lies in this node's laid-out rectangle.
    pub fn contains(&self, cx: Context) -> (r: bool)
        ensures
            r == hit(*self, cx),
    {
        proof {
            assert(0 <= self.base.size.width * cx.scale <= u32::MAX * u32::MAX) by (nonlinear_arith);
            assert(0 <= self.base.size.height * cx.scale <= u32::MAX * u32::MAX) by (nonlinear_arith);
        }
        let w = self.base.size.width as u64 * cx.scale as u64;
        let h = self.base.size.height as u64 * cx.scale as u64;
        box_contains(cx.location, self.base.origin, w, h)
    }

    /// Dispatches a pointer press at `cx.location` through this laid-out node
    /// and returns the actions it fires, in firing order.
    pub fn mouse_down(&self, cx: Context) -> (r: Vec<u64>)
        ensures
            r@ == hits(*self, cx),
    {
        let mut out: Vec<u64> = Vec::new();
        self.dispatch(cx, &mut out);
        assert(out@ =~= hits(*self, cx));
        out
    }

    fn dispatch(&self, cx: Context, out: &mut Vec<u64>)
        ensures
            final(out)@ == old(out)@ + hits(*self, cx),
        decreases *self,
    {
        let ghost start = out@;
        let inside = self.contains(cx);
        if self.kind == Kind::Rectangle || self.kind == Kind::Circle || self.kind == Kind::ZStack {
            if !inside {
                assert(out@ =~= start + hits(*self, cx));
                return ;
            }
        }
        if is_leaf_kind(self.kind) {
            match self.base.on_click {
                Some(a) => out.push(a),
                None => {},
            }
            assert(out@ =~= start + hits(*self, cx));
            return ;
        }
        let n = self.elements.len();
        let mut i: usize = 0;
        let ghost mut k: int = 0;
        assert(self.elements@.take(0) =~= Seq::<Element>::empty());
        while i < n
            invariant
                is_stack(self.kind),
                n == self.elements@.len(),
                0 <= i <= n,
                k == flatten(self.elements@.take(i as int)).len(),
                k <= children(*self).len(),
                out@ == start + children_hits(*self, k, cx),
            decreases n - i,
        {
            proof {
                lemma_flatten_slot(*self, i as int);
                lemma_children_smaller(*self);
                assert(decreases_to!(self.elements => self.elements@));
                assert(decreases_to!(self.elements@ => self.elements@[i as int]));
            }
            match &self.elements[i] {
                Element::Single(c) => {
                    if c.base.visible {
                        assert(expand(self.elements@[i as int])[0] == *c);
                        c.dispatch(cx, out);
                        assert(out@ =~= start + children_hits(*self, k + 1, cx));
                    }
                },
                Element::Repeated(l) => {
                    if l.visible {
                        let m = l.elements.len();
                        let mut q: usize = 0;
                        let ghost mut t: int = 0;
                        assert(l.elements@.take(0) =~= Seq::<Node>::empty());
                        while q < m
                            invariant
                                is_stack(self.kind),
                                0 <= i < n,
                                n == self.elements@.len(),
                                self.elements@[i as int] == Element::Repeated(*l),
                                l.visible,
                                k == flatten(self.elements@.take(i as int)).len(),
                                k + visible_of(l.elements@).len() <= children(*self).len(),
                                forall|x: int|
                                    0 <= x < visible_of(l.elements@).len() ==> children(*self)[k + x]
                                        == #[trigger] visible_of(l.elements@)[x],
                                m == l.elements@.len(),
                                0 <= q <= m,
                                t == visible_of(l.elements@.take(q as int)).len(),
                                out@ == start + children_hits(*self, k + t, cx),
                            decreases m - q,
                        {
                            let c = &l.elements[q];
                            proof {
                                lemma_visible_step(l.elements@, q as int);
                                lemma_visible_prefix(l.elements@, q as int + 1);
                                lemma_children_smaller(*self);
                            }
                            if c.base.visible {
                                assert(visible_of(l.elements@.take(q + 1))[t] == *c);
                                assert(children(*self)[k + t] == *c);
                                assert(decreases_to!(*self => *c));
                                c.dispatch(cx, out);
                                assert(out@ =~= start + children_hits(*self, k + t + 1, cx));
                                proof {
                                    t = t + 1;
                                }
                            }
                            q = q + 1;
                        }
                        assert(l.elements@.take(m as int) =~= l.elements@);
                    }
                },
            }
            proof {
                k = flatten(self.elements@.take(i + 1)).len() as int;
            }
            i = i + 1;
        }
        assert(self.elements@.take(n as int) =~= self.elements@);
        if self.kind == Kind::ZStack {
            match self.base.on_click {
                Some(a) => out.push(a),
                None => {},
            }
        }
        assert(out@ =~= start + hits(*self, cx));
    }
}

fn is_leaf_kind(k: Kind) -> (r: bool)
    ensures
        r == !is_stack(k),
{
    k == Kind::Rectangle || k == Kind::Circle
}

} // verus!
