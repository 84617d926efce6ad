use vstd::prelude::*;

use crate::geometry::Context;
use crate::layout::{
    child_context, fits, lemma_extent_nonneg, lemma_fits_bounds, lemma_mul_mono, lemma_running_bound, lemma_running_full,
    lemma_running_mono, lemma_running_step, offset, origin_x, origin_y, running,
};
use crate::tree::{
    children, expand, extent, flatten, footprint, footprints, lemma_child_smaller, lemma_children_smaller,
    lemma_flatten_slot, lemma_visible_prefix, lemma_visible_step, natural, seq_max, seq_sum,
    stacks_along, visible_of,
};
use crate::view::{is_stack, Element, Kind, Loop, Node};

verus! {

/// The largest value a running total may reach while the natural extent along
/// that axis can still fit in `u32`.
pub open spec fn running_cap(v: Node, vertical: bool) -> int {
    if stacks_along(v.kind, vertical) {
        u32::MAX + v.spacing
    } else {
        u32::MAX as int
    }
}

impl Node {
    /// Whether laying this node out at `cx` keeps every size and coordinate
    /// representable, which `layout` requires.
    pub fn fits_at(&self, cx: Context) -> (r: bool)
        ensures
            r == fits(*self, cx),
    {
        self.measure_within(cx).is_some()
    }

    /// The resolved size of this node, if it fits at `cx`.
    fn measure_within(&self, cx: Context) -> (r: Option<(u32, u32)>)
        ensures
            r.is_some() == fits(*self, cx),
            r.is_some() ==> r.unwrap().0 == extent(*self, false) && r.unwrap().1 == extent(*self, true),
        decreases *self, 1int,
    {
        let ghost v = *self;
        proof {
            lemma_mul_mono(v.base.padding_left as int, u32::MAX as int, cx.scale as int);
            lemma_mul_mono(v.base.padding_top as int, u32::MAX as int, cx.scale as int);
            lemma_mul_mono(cx.scale as int, u32::MAX as int, u32::MAX as int);
        }
        let s = cx.scale as i128;
        let ox = cx.location.x as i128 + self.base.padding_left as i128 * s;
        let oy = cx.location.y as i128 + self.base.padding_top as i128 * s;
        if ox > i64::MAX as i128 || oy > i64::MAX as i128 {
            proof {
                if fits(v, cx) {
                    lemma_fits_bounds(v, cx);
                }
            }
            return None;
        }
        let kind = self.kind;
        let spacing = self.spacing;
        if kind == Kind::Rectangle || kind == Kind::Circle {
            let w = self.base.size.width;
            let h = self.base.size.height;
            proof {
                lemma_mul_mono(w as int, u32::MAX as int, cx.scale as int);
                lemma_mul_mono(h as int, u32::MAX as int, cx.scale as int);
                assert(offset(v, 0, false) == 0);
                assert(offset(v, 0, true) == 0);
            }
            if ox + w as i128 * s > i64::MAX as i128 || oy + h as i128 * s > i64::MAX as i128 {
                return None;
            }
            return Some((w, h));
        }
        let mut run_w: u64 = 0;
        let mut run_h: u64 = 0;
        let mut placed = false;
        let n = self.elements.len();
        let mut i: usize = 0;
        let ghost mut k: int = 0;
        proof {
            assert(v.elements@.take(0) =~= Seq::<Element>::empty());
            assert(footprints(v, 0, false) =~= Seq::<int>::empty());
            assert(footprints(v, 0, true) =~= Seq::<int>::empty());
        }
        while i < n
            invariant
                v == *self,
                is_stack(v.kind),
                kind == v.kind,
                spacing == v.spacing,
                s == cx.scale,
                ox == origin_x(v, cx),
                oy == origin_y(v, cx),
                ox <= i64::MAX,
                oy <= i64::MAX,
                n == v.elements@.len(),
                0 <= i <= n,
                k == flatten(v.elements@.take(i as int)).len(),
                k <= children(v).len(),
                forall|j: int| 0 <= j < k ==> fits(#[trigger] children(v)[j], child_context(v, cx, j)),
                run_w == running(v, k, false),
                run_h == running(v, k, true),
                run_w <= running_cap(v, false),
                run_h <= running_cap(v, true),
                placed == (k > 0),
            decreases n - i,
        {
            proof {
                lemma_flatten_slot(v, i as int);
                lemma_children_smaller(v);
                assert(decreases_to!(v.elements => v.elements@));
                assert(decreases_to!(v.elements@ => v.elements@[i as int]));
            }
            match &self.elements[i] {
                Element::Single(c) => {
                    if c.base.visible {
                        assert(expand(v.elements@[i as int])[0] == *c);
                        if !check_child(c, kind, spacing, ox, oy, cx.scale, &mut run_w, &mut run_h, Ghost(v), Ghost(cx), Ghost(k)) {
                            return None;
                        }
                        placed = true;
                        proof {
                            lemma_extend_fits(v, cx, k, 1);
                        }
                    }
                },
                Element::Repeated(l) => {
                    if l.visible {
                        assert(decreases_to!(v.elements@[i as int] => *l));
                        if !check_loop(l, kind, spacing, ox, oy, cx.scale, &mut run_w, &mut run_h, &mut placed, Ghost(v), Ghost(cx), Ghost(k)) {
                            return None;
                        }
                        proof {
                            lemma_extend_fits(v, cx, k, visible_of(l.elements@).len() as int);
                        }
                    }
                },
            }
            proof {
                k = flatten(v.elements@.take(i + 1)).len() as int;
            }
            i = i + 1;
        }
        proof {
            assert(v.elements@.take(n as int) =~= v.elements@);
            lemma_running_full(v, false);
            lemma_running_full(v, true);
            lemma_extent_nonneg(v, false);
            lemma_extent_nonneg(v, true);
        }
        let nat_w: u64 = if kind == Kind::HStack && placed {
            run_w - spacing as u64
        } else {
            run_w
        };
        let nat_h: u64 = if kind == Kind::VStack && placed {
            run_h - spacing as u64
        } else {
            run_h
        };
        let w: u32 = if self.base.size.width == 0 {
            nat_w as u32
        } else {
            self.base.size.width
        };
        let h: u32 = if self.base.size.height == 0 {
            nat_h as u32
        } else {
            self.base.size.height
        };
        let off_w: u64 = if kind == Kind::HStack {
            run_w
        } else {
            0
        };
        let off_h: u64 = if kind == Kind::VStack {
            run_h
        } else {
            0
        };
        proof {
            lemma_mul_mono(off_w as int + w as int, 3 * (u32::MAX as int), cx.scale as int);
            lemma_mul_mono(off_h as int + h as int, 3 * (u32::MAX as int), cx.scale as int);
            lemma_mul_mono(cx.scale as int, u32::MAX as int, 3 * (u32::MAX as int));
        }
        if ox + (off_w as i128 + w as i128) * s > i64::MAX as i128 || oy + (off_h as i128 + h as i128) * s
            > i64::MAX as i128 {
            return None;
        }
        Some((w, h))
    }
}

proof fn lemma_extend_fits(v: Node, cx: Context, k: int, add: int)
    requires
        0 <= k,
        0 <= add,
        forall|j: int| 0 <= j < k ==> fits(#[trigger] children(v)[j], child_context(v, cx, j)),
        forall|t: int| 0 <= t < add ==> fits(#[trigger] children(v)[k + t], child_context(v, cx, k + t)),
    ensures
        forall|j: int| 0 <= j < k + add ==> fits(#[trigger] children(v)[j], child_context(v, cx, j)),
{
    assert forall|j: int| 0 <= j < k + add implies fits(#[trigger] children(v)[j], child_context(v, cx, j)) by {
        if j >= k {
            assert(children(v)[k + (j - k)] == children(v)[j]);
        }
    }
}

/// Checks child `k` of the stack `p` at its context and advances the running
/// totals; `false` when `p` does not fit at `pcx`.
fn check_child(
    c: &Node,
    kind: Kind,
    spacing: u32,
    ox: i128,
    oy: i128,
    scale: u32,
    run_w: &mut u64,
    run_h: &mut u64,
    Ghost(p): Ghost<Node>,
    Ghost(pcx): Ghost<Context>,
    Ghost(k): Ghost<int>,
) -> (ok: bool)
    requires
        is_stack(p.kind),
        kind == p.kind,
        spacing == p.spacing,
        ox == origin_x(p, pcx),
        oy == origin_y(p, pcx),
        ox <= i64::MAX,
        oy <= i64::MAX,
        scale == pcx.scale,
        0 <= k < children(p).len(),
        *c == children(p)[k],
        *old(run_w) == running(p, k, false),
        *old(run_h) == running(p, k, true),
        *old(run_w) <= running_cap(p, false),
        *old(run_h) <= running_cap(p, true),
    ensures
        ok ==> fits(*c, child_context(p, pcx, k)),
        ok ==> *final(run_w) == running(p, k + 1, false) && *final(run_h) == running(p, k + 1, true),
        ok ==> *final(run_w) <= running_cap(p, false) && *final(run_h) <= running_cap(p, true),
        !ok ==> !fits(p, pcx),
    decreases *c, 2int,
{
    proof {
        lemma_running_step(p, k, false);
        lemma_running_step(p, k, true);
        lemma_running_mono(p, k, k, false);
        lemma_mul_mono(*run_w as int, 2 * (u32::MAX as int), scale as int);
        lemma_mul_mono(*run_h as int, 2 * (u32::MAX as int), scale as int);
        lemma_mul_mono(scale as int, u32::MAX as int, 2 * (u32::MAX as int));
        lemma_child_smaller(p, k);
    }
    let s = scale as i128;
    let x = ox + if kind == Kind::HStack {
        *run_w as i128 * s
    } else {
        0
    };
    let y = oy + if kind == Kind::VStack {
        *run_h as i128 * s
    } else {
        0
    };
    if x > i64::MAX as i128 || y > i64::MAX as i128 {
        proof {
            if fits(p, pcx) {
                lemma_fits_bounds(p, pcx);
                assert(origin_x(p, pcx) + offset(p, k, false) * pcx.scale <= i64::MAX);
                assert(origin_y(p, pcx) + offset(p, k, true) * pcx.scale <= i64::MAX);
            }
        }
        return false;
    }
    let ccx = Context::new(x as i64, y as i64, scale);
    assert(ccx == child_context(p, pcx, k));
    match c.measure_within(ccx) {
        None => {
            return false;
        },
        Some((cw, ch)) => {
            let fw = cw as u64 + c.base.padding_left as u64 + c.base.padding_right as u64;
            let fh = ch as u64 + c.base.padding_top as u64 + c.base.padding_bottom as u64;
            assert(fw == footprint(*c, false));
            assert(fh == footprint(*c, true));
            if kind == Kind::HStack {
                *run_w = *run_w + fw + spacing as u64;
            } else if *run_w < fw {
                *run_w = fw;
            }
            if kind == Kind::VStack {
                *run_h = *run_h + fh + spacing as u64;
            } else if *run_h < fh {
                *run_h = fh;
            }
            if *run_w > running_cap_of(kind, false, spacing) || *run_h > running_cap_of(kind, true, spacing) {
                proof {
                    if fits(p, pcx) {
                        lemma_running_bound(p, pcx, k + 1, false);
                        lemma_running_bound(p, pcx, k + 1, true);
                        lemma_running_full(p, false);
                        lemma_running_full(p, true);
                    }
                }
                return false;
            }
            true
        },
    }
}

/// Checks the visible views of a repeater as children `k`, `k + 1`, ... of the
/// stack `p`; `false` when `p` does not fit at `pcx`.
fn check_loop(
    l: &Loop,
    kind: Kind,
    spacing: u32,
    ox: i128,
    oy: i128,
    scale: u32,
    run_w: &mut u64,
    run_h: &mut u64,
    placed: &mut bool,
    Ghost(p): Ghost<Node>,
    Ghost(pcx): Ghost<Context>,
    Ghost(k): Ghost<int>,
) -> (ok: bool)
    requires
        is_stack(p.kind),
        kind == p.kind,
        spacing == p.spacing,
        ox == origin_x(p, pcx),
        oy == origin_y(p, pcx),
        ox <= i64::MAX,
        oy <= i64::MAX,
        scale == pcx.scale,
        0 <= k,
        k + visible_of(l.elements@).len() <= children(p).len(),
        forall|j: int|
            0 <= j < visible_of(l.elements@).len() ==> children(p)[k + j] == #[trigger] visible_of(l.elements@)[j],
        *old(run_w) == running(p, k, false),
        *old(run_h) == running(p, k, true),
        *old(run_w) <= running_cap(p, false),
        *old(run_h) <= running_cap(p, true),
        *old(placed) == (k > 0),
    ensures
        ok ==> forall|j: int|
            0 <= j < visible_of(l.elements@).len() ==> fits(
                #[trigger] children(p)[k + j],
                child_context(p, pcx, k + j),
            ),
        ok ==> *final(run_w) == running(p, k + visible_of(l.elements@).len(), false),
        ok ==> *final(run_h) == running(p, k + visible_of(l.elements@).len(), true),
        ok ==> *final(run_w) <= running_cap(p, false) && *final(run_h) <= running_cap(p, true),
        ok ==> *final(placed) == (k + visible_of(l.elements@).len() > 0),
        !ok ==> !fits(p, pcx),
    decreases *l, 3int,
{
    let m = l.elements.len();
    let mut q: usize = 0;
    let ghost mut t: int = 0;
    proof {
        assert(l.elements@.take(0) =~= Seq::<Node>::empty());
    }
    while q < m
        invariant
            is_stack(p.kind),
            kind == p.kind,
            spacing == p.spacing,
            ox == origin_x(p, pcx),
            oy == origin_y(p, pcx),
            ox <= i64::MAX,
            oy <= i64::MAX,
            scale == pcx.scale,
            0 <= k,
            k + visible_of(l.elements@).len() <= children(p).len(),
            forall|j: int|
                0 <= j < visible_of(l.elements@).len() ==> children(p)[k + j]
                    == #[trigger] visible_of(l.elements@)[j],
            m == l.elements@.len(),
            0 <= q <= m,
            t == visible_of(l.elements@.take(q as int)).len(),
            forall|j: int| 0 <= j < t ==> fits(#[trigger] children(p)[k + j], child_context(p, pcx, k + j)),
            *run_w == running(p, k + t, false),
            *run_h == running(p, k + t, true),
            *run_w <= running_cap(p, false),
            *run_h <= running_cap(p, true),
            *placed == (k + t > 0),
        decreases m - q,
    {
        let c = &l.elements[q];
        proof {
            lemma_visible_step(l.elements@, q as int);
            lemma_visible_prefix(l.elements@, q as int + 1);
            lemma_visible_prefix(l.elements@, q as int);
            assert(decreases_to!(*l => l.elements));
            assert(decreases_to!(l.elements => l.elements@));
            assert(decreases_to!(l.elements@ => l.elements@[q as int]));
        }
        if c.base.visible {
            assert(visible_of(l.elements@.take(q + 1))[t] == *c);
            assert(children(p)[k + t] == *c);
            if !check_child(c, kind, spacing, ox, oy, scale, run_w, run_h, Ghost(p), Ghost(pcx), Ghost(k + t)) {
                return false;
            }
            *placed = true;
            proof {
                t = t + 1;
            }
        }
        q = q + 1;
    }
    proof {
        assert(l.elements@.take(m as int) =~= l.elements@);
    }
    true
}

/// `running_cap` from the fields it reads.
fn running_cap_of(kind: Kind, vertical: bool, spacing: u32) -> (r: u64)
    ensures
        forall|v: Node| v.kind == kind && v.spacing == spacing ==> r == running_cap(v, vertical),
{
    if (kind == Kind::VStack && vertical) || (kind == Kind::HStack && !vertical) {
        u32::MAX as u64 + spacing as u64
    } else {
        u32::MAX as u64
    }
}

} // verus!
