use vstd::prelude::*;

use crate::geometry::{Context, Position, Size};
use crate::tree::{
    child_terms, children, expand, extent, flatten, footprint, footprints, gaps, lemma_child_smaller,
    lemma_child_terms, lemma_children_smaller, lemma_flatten_prefix, lemma_flatten_step, lemma_visible_prefix,
    lemma_visible_step, natural, seq_max, seq_sum, stacks_along, visible_of,
};
use crate::view::{is_stack, Base, Element, Kind, Loop, Node};

verus! {

/// How far, in logical units, the cursor has moved along an axis once the first
/// `j` children are placed: the sum of their footprints plus one spacing each on
/// the stacking axis, and the largest footprint on the other axes.
pub open spec fn running(v: Node, j: int, vertical: bool) -> int {
    if stacks_along(v.kind, vertical) {
        seq_sum(footprints(v, j, vertical)) + j * v.spacing
    } else {
        seq_max(footprints(v, j, vertical))
    }
}

/// Logical offset of child `j` from the container's origin along an axis.
pub open spec fn offset(v: Node, j: int, vertical: bool) -> int {
    if stacks_along(v.kind, vertical) {
        running(v, j, vertical)
    } else {
        0
    }
}

/// Absolute origin of a node laid out at `cx`: the cursor moved by the padding.
pub open spec fn origin_x(v: Node, cx: Context) -> int {
    cx.location.x + v.base.padding_left * cx.scale
}

pub open spec fn origin_y(v: Node, cx: Context) -> int {
    cx.location.y + v.base.padding_top * cx.scale
}

pub open spec fn origin_of(v: Node, cx: Context) -> Position {
    Position { x: origin_x(v, cx) as i64, y: origin_y(v, cx) as i64 }
}

/// The context child `j` of `v` is laid out in.
pub open spec fn child_context(v: Node, cx: Context, j: int) -> Context {
    Context {
        location: Position {
            x: (origin_x(v, cx) + offset(v, j, false) * cx.scale) as i64,
            y: (origin_y(v, cx) + offset(v, j, true) * cx.scale) as i64,
        },
        scale: cx.scale,
    }
}

/// The base of `v` once laid out at `cx`: resolved size, origin set.
pub open spec fn resolved_base(v: Node, cx: Context) -> Base {
    Base {
        size: Size { width: extent(v, false) as u32, height: extent(v, true) as u32 },
        origin: origin_of(v, cx),
        ..v.base
    }
}

/// `new` is `old` laid out at `cx`: every visited node has its resolved size
/// and origin, and each child was laid out at its own context.
pub open spec fn laid_out(old: Node, new: Node, cx: Context) -> bool
    decreases old
    via laid_out_decreases
{
    &&& new.base == resolved_base(old, cx)
    &&& new.kind == old.kind
    &&& new.spacing == old.spacing
    &&& new.fill == old.fill
    &&& new.stroke == old.stroke
    &&& children(new).len() == children(old).len()
    &&& forall|j: int|
        0 <= j < children(old).len() ==> laid_out(
            children(old)[j],
            #[trigger] children(new)[j],
            child_context(old, cx, j),
        )
}

#[via_fn]
proof fn laid_out_decreases(old: Node, new: Node, cx: Context) {
    lemma_children_smaller(old);
}

/// Every number layout computes for `v` at `cx` is representable: resolved
/// sizes fit in `u32` and absolute coordinates in `i64`.
pub open spec fn fits(v: Node, cx: Context) -> bool
    decreases v
    via fits_decreases
{
    let n = children(v).len() as int;
    &&& origin_x(v, cx) + (offset(v, n, false) + extent(v, false)) * cx.scale <= i64::MAX
    &&& origin_y(v, cx) + (offset(v, n, true) + extent(v, true)) * cx.scale <= i64::MAX
    &&& is_stack(v.kind) ==> natural(v, false) <= u32::MAX && natural(v, true) <= u32::MAX
    &&& forall|j: int| 0 <= j < n ==> fits(#[trigger] children(v)[j], child_context(v, cx, j))
}

#[via_fn]
proof fn fits_decreases(v: Node, cx: Context) {
    lemma_children_smaller(v);
}

pub proof fn lemma_extent_nonneg(v: Node, vertical: bool)
    ensures
        extent(v, vertical) >= 0,
        natural(v, vertical) >= 0,
    decreases v,
{
    let terms = child_terms(v, vertical);
    assert forall|j: int| 0 <= j < terms.len() implies terms[j] >= 0 by {
        lemma_child_smaller(v, j);
        lemma_extent_nonneg(children(v)[j], vertical);
    }
    lemma_sum_nonneg(terms);
    lemma_max_nonneg(terms);
    let n = children(v).len() as int;
    if n >= 1 {
        assert((n - 1) * v.spacing >= 0) by (nonlinear_arith)
            requires
                n >= 1,
        ;
    }
}

pub proof fn lemma_sum_nonneg(s: Seq<int>)
    requires
        forall|j: int| 0 <= j < s.len() ==> s[j] >= 0,
    ensures
        seq_sum(s) >= 0,
    decreases s.len(),
{
    if s.len() > 0 {
        lemma_sum_nonneg(s.drop_last());
    }
}

pub proof fn lemma_max_nonneg(s: Seq<int>)
    ensures
        seq_max(s) >= 0,
    decreases s.len(),
{
    if s.len() > 0 {
        lemma_max_nonneg(s.drop_last());
    }
}

/// Placing child `j` moves the running totals by its footprint.
pub proof fn lemma_running_step(v: Node, j: int, vertical: bool)
    requires
        0 <= j < children(v).len(),
    ensures
        running(v, j + 1, vertical) == if stacks_along(v.kind, vertical) {
            running(v, j, vertical) + footprint(children(v)[j], vertical) + v.spacing
        } else if running(v, j, vertical) >= footprint(children(v)[j], vertical) {
            running(v, j, vertical)
        } else {
            footprint(children(v)[j], vertical)
        },
{
    assert(footprints(v, j + 1, vertical).drop_last() =~= footprints(v, j, vertical));
    assert((j + 1) * v.spacing == j * v.spacing + v.spacing) by (nonlinear_arith);
}

/// The running totals only grow.
pub proof fn lemma_running_mono(v: Node, j: int, n: int, vertical: bool)
    requires
        0 <= j <= n <= children(v).len(),
    ensures
        0 <= running(v, j, vertical) <= running(v, n, vertical),
    decreases n - j,
{
    if j < n {
        lemma_running_mono(v, j, n - 1, vertical);
        lemma_running_step(v, n - 1, vertical);
        lemma_child_smaller(v, n - 1);
        lemma_extent_nonneg(children(v)[n - 1], vertical);
    } else {
        lemma_footprints_nonneg(v, j, vertical);
        lemma_sum_nonneg(footprints(v, j, vertical));
        lemma_max_nonneg(footprints(v, j, vertical));
        assert(j * v.spacing >= 0) by (nonlinear_arith)
            requires
                j >= 0,
        ;
    }
}

pub proof fn lemma_footprints_nonneg(v: Node, j: int, vertical: bool)
    requires
        0 <= j <= children(v).len(),
    ensures
        forall|t: int| 0 <= t < j ==> footprints(v, j, vertical)[t] >= 0,
{
    assert forall|t: int| 0 <= t < j implies footprints(v, j, vertical)[t] >= 0 by {
        lemma_extent_nonneg(children(v)[t], vertical);
    }
}

/// With all children placed, the running total is the natural extent, plus one
/// trailing spacing on a non-empty stacking axis.
pub proof fn lemma_running_full(v: Node, vertical: bool)
    requires
        is_stack(v.kind),
    ensures
        running(v, children(v).len() as int, vertical) == natural(v, vertical) + if stacks_along(v.kind, vertical)
            && children(v).len() >= 1 {
            v.spacing as int
        } else {
            0
        },
{
    let n = children(v).len() as int;
    lemma_child_terms(v, vertical);
    assert(natural(v, vertical) == if stacks_along(v.kind, vertical) {
        seq_sum(child_terms(v, vertical)) + gaps(n, v.spacing as int)
    } else {
        seq_max(child_terms(v, vertical))
    });
    if n >= 1 {
        assert(n * v.spacing == (n - 1) * v.spacing + v.spacing) by (nonlinear_arith);
    } else {
        assert(n * v.spacing == 0) by (nonlinear_arith)
            requires
                n == 0,
        ;
        assert(seq_sum(footprints(v, n, vertical)) == 0);
        assert(seq_max(footprints(v, n, vertical)) == 0);
    }
}

} // verus!

verus! {

pub proof fn lemma_mul_mono(a: int, b: int, s: int)
    requires
        0 <= a <= b,
        0 <= s,
    ensures
        0 <= a * s <= b * s,
{
    assert(0 <= a * s <= b * s) by (nonlinear_arith)
        requires
            0 <= a <= b,
            0 <= s,
    ;
}

/// What `fits` gives a node at its own level: the origin, the placement cursor
/// and the far edge are representable, and resolved sizes fit in `u32`.
pub proof fn lemma_fits_bounds(v: Node, cx: Context)
    requires
        fits(v, cx),
    ensures
        i64::MIN <= origin_x(v, cx) <= i64::MAX,
        i64::MIN <= origin_y(v, cx) <= i64::MAX,
        0 <= extent(v, false) <= u32::MAX,
        0 <= extent(v, true) <= u32::MAX,
        forall|j: int|
            0 <= j <= children(v).len() ==> origin_x(v, cx) + #[trigger] offset(v, j, false) * cx.scale <= i64::MAX,
        forall|j: int|
            0 <= j <= children(v).len() ==> origin_y(v, cx) + #[trigger] offset(v, j, true) * cx.scale <= i64::MAX,
{
    let n = children(v).len() as int;
    lemma_extent_nonneg(v, false);
    lemma_extent_nonneg(v, true);
    lemma_mul_mono(v.base.padding_left as int, v.base.padding_left as int, cx.scale as int);
    lemma_mul_mono(v.base.padding_top as int, v.base.padding_top as int, cx.scale as int);
    lemma_running_mono(v, n, n, false);
    lemma_running_mono(v, n, n, true);
    lemma_mul_mono(
        offset(v, n, false) + extent(v, false),
        offset(v, n, false) + extent(v, false),
        cx.scale as int,
    );
    lemma_mul_mono(offset(v, n, true) + extent(v, true), offset(v, n, true) + extent(v, true), cx.scale as int);
    assert forall|j: int| 0 <= j <= n implies origin_x(v, cx) + #[trigger] offset(v, j, false) * cx.scale
        <= i64::MAX by {
        lemma_running_mono(v, j, n, false);
        lemma_mul_mono(offset(v, j, false), offset(v, n, false) + extent(v, false), cx.scale as int);
    }
    assert forall|j: int| 0 <= j <= n implies origin_y(v, cx) + #[trigger] offset(v, j, true) * cx.scale
        <= i64::MAX by {
        lemma_running_mono(v, j, n, true);
        lemma_mul_mono(offset(v, j, true), offset(v, n, true) + extent(v, true), cx.scale as int);
    }
}

/// The running totals of a node that fits stay within twice `u32::MAX`.
pub proof fn lemma_running_bound(v: Node, cx: Context, j: int, vertical: bool)
    requires
        fits(v, cx),
        is_stack(v.kind),
        0 <= j <= children(v).len(),
    ensures
        0 <= running(v, j, vertical) <= running(v, children(v).len() as int, vertical),
        running(v, children(v).len() as int, vertical) <= natural(v, vertical) + v.spacing,
        natural(v, vertical) <= u32::MAX,
{
    lemma_running_mono(v, j, children(v).len() as int, vertical);
    lemma_running_full(v, vertical);
}

impl Node {
    /// Lays out this node at `cx`: sets its origin to the cursor moved by its
    /// padding, lays out each visible child (repeaters expanded) at a cursor
    /// that advances along the stacking axis, and resolves every axis whose
    /// declared size is zero from the children.
    pub fn layout(&mut self, cx: Context)
        requires
            fits(*old(self), cx),
        ensures
            laid_out(*old(self), *final(self), cx),
        decreases *old(self), 1int,
    {
        let ghost v0 = *self;
        proof {
            lemma_fits_bounds(v0, cx);
            lemma_mul_mono(v0.base.padding_left as int, u32::MAX as int, cx.scale as int);
            lemma_mul_mono(v0.base.padding_top as int, u32::MAX as int, cx.scale as int);
            lemma_mul_mono(cx.scale as int, u32::MAX as int, u32::MAX as int);
        }
        let s = cx.scale as i128;
        let ox = (cx.location.x as i128 + self.base.padding_left as i128 * s) as i64;
        let oy = (cx.location.y as i128 + self.base.padding_top as i128 * s) as i64;
        let origin = Position { x: ox, y: oy };
        self.base.origin = origin;
        let kind = self.kind;
        let spacing = self.spacing;
        if kind == Kind::Rectangle || kind == Kind::Circle {
            return ;
        }
        let mut run_w: u64 = 0;
        let mut run_h: u64 = 0;
        let mut placed = false;
        let n = self.elements.len();
        let mut i: usize = 0;
        let ghost mut k: int = 0;
        proof {
            assert(v0.elements@.take(0) =~= Seq::<Element>::empty());
            assert(self.elements@.take(0) =~= Seq::<Element>::empty());
            lemma_running_mono(v0, 0, 0, false);
            assert(footprints(v0, 0, false) =~= Seq::<int>::empty());
            assert(footprints(v0, 0, true) =~= Seq::<int>::empty());
        }
        while i < n
            invariant
                v0 == *old(self),
                is_stack(v0.kind),
                fits(v0, cx),
                kind == v0.kind,
                spacing == v0.spacing,
                origin == origin_of(v0, cx),
                self.base == (Base { origin: origin_of(v0, cx), ..v0.base }),
                self.kind == v0.kind,
                self.spacing == v0.spacing,
                self.fill == v0.fill,
                self.stroke == v0.stroke,
                n == self.elements@.len(),
                n == v0.elements@.len(),
                0 <= i <= n,
                forall|t: int| i <= t < n ==> self.elements@[t] == v0.elements@[t],
                k == flatten(v0.elements@.take(i as int)).len(),
                k == flatten(self.elements@.take(i as int)).len(),
                k <= children(v0).len(),
                forall|j: int|
                    0 <= j < k ==> laid_out(
                        children(v0)[j],
                        #[trigger] flatten(self.elements@.take(i as int))[j],
                        child_context(v0, cx, j),
                    ),
                run_w == running(v0, k, false),
                run_h == running(v0, k, true),
                placed == (k > 0),
            decreases n - i,
        {
            let ghost before = self.elements@;
            proof {
                lemma_flatten_step(v0.elements@, i as int);
                lemma_flatten_step(before, i as int);
                lemma_flatten_prefix(v0.elements@, i as int + 1);
                lemma_flatten_prefix(v0.elements@, i as int);
                assert(decreases_to!(v0 => v0.elements));
                assert(decreases_to!(v0.elements => v0.elements@));
                assert(decreases_to!(v0.elements@ => v0.elements@[i as int]));
                assert(decreases_to!(v0 => v0.elements@[i as int]));
                assert(before[i as int] == v0.elements@[i as int]);
            }
            match &mut self.elements[i] {
                Element::Single(c) => {
                    if c.base.visible {
                        proof {
                            assert(decreases_to!(v0.elements@[i as int] => *c));
                            assert(decreases_to!(v0 => *c));
                            let ii = i as int;
                            assert(flatten(v0.elements@.take(ii + 1)) == flatten(v0.elements@.take(ii)) + seq![*c]);
                            assert(flatten(v0.elements@.take(ii + 1))[k] == *c);
                            assert(children(v0)[k] == *c);
                        }
                        lay_child(
                            c,
                            kind,
                            spacing,
                            origin,
                            cx.scale,
                            &mut run_w,
                            &mut run_h,
                            Ghost(v0),
                            Ghost(cx),
                            Ghost(k),
                        );
                        placed = true;
                    }
                },
                Element::Repeated(l) => {
                    if l.visible {
                        proof {
                            assert(decreases_to!(v0.elements@[i as int] => *l));
                            assert(decreases_to!(v0 => *l));
                            let ii = i as int;
                            let vis = visible_of(l.elements@);
                            assert(flatten(v0.elements@.take(ii + 1)) == flatten(v0.elements@.take(ii)) + vis);
                            assert forall|j: int| 0 <= j < vis.len() implies children(v0)[k + j] == #[trigger] vis[j] by {
                                assert(flatten(v0.elements@.take(ii + 1))[k + j] == vis[j]);
                            }
                        }
                        lay_loop(
                            l,
                            kind,
                            spacing,
                            origin,
                            cx.scale,
                            &mut run_w,
                            &mut run_h,
                            &mut placed,
                            Ghost(v0),
                            Ghost(cx),
                            Ghost(k),
                        );
                    }
                },
            }
            proof {
                lemma_layout_step(v0, cx, before, self.elements@, i as int, k);
                k = k + expand(v0.elements@[i as int]).len();
            }
            i = i + 1;
        }
        proof {
            assert(v0.elements@.take(n as int) =~= v0.elements@);
            assert(self.elements@.take(n as int) =~= self.elements@);
            lemma_running_full(v0, false);
            lemma_running_full(v0, true);
            lemma_running_bound(v0, cx, k, false);
            lemma_running_bound(v0, cx, k, true);
        }
        if self.base.size.width == 0 {
            self.base.size.width = if kind == Kind::HStack && placed {
                (run_w - spacing as u64) as u32
            } else {
                run_w as u32
            };
        }
        if self.base.size.height == 0 {
            self.base.size.height = if kind == Kind::VStack && placed {
                (run_h - spacing as u64) as u32
            } else {
                run_h as u32
            };
        }
    }
}

/// One element of a stack has been laid out: the laid-out prefix grows by
/// what the element contributes.
proof fn lemma_layout_step(v0: Node, cx: Context, before: Seq<Element>, after: Seq<Element>, i: int, k: int)
    requires
        is_stack(v0.kind),
        0 <= i < v0.elements@.len(),
        before.len() == v0.elements@.len(),
        after == before.update(i, after[i]),
        before[i] == v0.elements@[i],
        k == flatten(v0.elements@.take(i)).len(),
        k == flatten(before.take(i)).len(),
        forall|j: int|
            0 <= j < k ==> laid_out(children(v0)[j], #[trigger] flatten(before.take(i))[j], child_context(v0, cx, j)),
        expand(after[i]).len() == expand(v0.elements@[i]).len(),
        forall|t: int|
            0 <= t < expand(after[i]).len() ==> laid_out(
                expand(v0.elements@[i])[t],
                #[trigger] expand(after[i])[t],
                child_context(v0, cx, k + t),
            ),
    ensures
        k + expand(v0.elements@[i]).len() == flatten(v0.elements@.take(i + 1)).len(),
        k + expand(v0.elements@[i]).len() == flatten(after.take(i + 1)).len(),
        forall|j: int|
            0 <= j < k + expand(v0.elements@[i]).len() ==> laid_out(
                children(v0)[j],
                #[trigger] flatten(after.take(i + 1))[j],
                child_context(v0, cx, j),
            ),
{
    assert(after.take(i) =~= before.take(i));
    lemma_flatten_step(after, i);
    lemma_flatten_step(v0.elements@, i);
    lemma_flatten_prefix(v0.elements@, i + 1);
    let e0 = v0.elements@[i];
    let e1 = after[i];
    let add = expand(e0).len() as int;
    assert forall|j: int| 0 <= j < k + add implies laid_out(
        children(v0)[j],
        #[trigger] flatten(after.take(i + 1))[j],
        child_context(v0, cx, j),
    ) by {
        if j < k {
            assert(flatten(after.take(i + 1))[j] == flatten(before.take(i))[j]);
        } else {
            assert(flatten(after.take(i + 1))[j] == expand(e1)[j - k]);
            assert(children(v0)[j] == flatten(v0.elements@.take(i + 1))[j]);
            assert(flatten(v0.elements@.take(i + 1))[j] == expand(e0)[j - k]);
        }
    }
}

/// Lays out child `k` of the stack `p` (laid out at `pcx`) and advances the
/// running totals by its footprint.
fn lay_child(
    c: &mut Node,
    kind: Kind,
    spacing: u32,
    origin: Position,
    scale: u32,
    run_w: &mut u64,
    run_h: &mut u64,
    Ghost(p): Ghost<Node>,
    Ghost(pcx): Ghost<Context>,
    Ghost(k): Ghost<int>,
)
    requires
        is_stack(p.kind),
        fits(p, pcx),
        kind == p.kind,
        spacing == p.spacing,
        origin == origin_of(p, pcx),
        scale == pcx.scale,
        0 <= k < children(p).len(),
        *old(c) == children(p)[k],
        *old(run_w) == running(p, k, false),
        *old(run_h) == running(p, k, true),
    ensures
        laid_out(*old(c), *final(c), child_context(p, pcx, k)),
        *final(run_w) == running(p, k + 1, false),
        *final(run_h) == running(p, k + 1, true),
    decreases *old(c), 2int,
{
    let ghost c0 = *c;
    proof {
        lemma_fits_bounds(p, pcx);
        lemma_running_bound(p, pcx, k, false);
        lemma_running_bound(p, pcx, k, true);
        lemma_running_bound(p, pcx, k + 1, false);
        lemma_running_bound(p, pcx, k + 1, true);
        lemma_running_step(p, k, false);
        lemma_running_step(p, k, true);
        lemma_mul_mono(*run_w as int, 2 * (u32::MAX as int), scale as int);
        lemma_mul_mono(*run_h as int, 2 * (u32::MAX as int), scale as int);
        lemma_mul_mono(scale as int, u32::MAX as int, 2 * (u32::MAX as int));
        lemma_child_smaller(p, k);
    }
    let s = scale as i128;
    let dx: i128 = if kind == Kind::HStack {
        *run_w as i128 * s
    } else {
        0
    };
    let dy: i128 = if kind == Kind::VStack {
        *run_h as i128 * s
    } else {
        0
    };
    let ccx = Context {
        location: Position { x: (origin.x as i128 + dx) as i64, y: (origin.y as i128 + dy) as i64 },
        scale,
    };
    assert(ccx == child_context(p, pcx, k));
    assert(fits(c0, ccx));
    c.layout(ccx);
    proof {
        lemma_fits_bounds(c0, ccx);
    }
    let fw = c.base.size.width as u64 + c.base.padding_left as u64 + c.base.padding_right as u64;
    let fh = c.base.size.height as u64 + c.base.padding_top as u64 + c.base.padding_bottom as u64;
    assert(fw == footprint(c0, false));
    assert(fh == footprint(c0, true));
    if kind == Kind::HStack {
        *run_w = *run_w + fw + spacing as u64;
    } else if *run_w < fw {
        *run_w = fw;
    }
    if kind == Kind::VStack {
        *run_h = *run_h + fh + spacing as u64;
    } else if *run_h < fh {
        *run_h = fh;
    }
}

/// Lays out the visible views of a repeater as children `k`, `k + 1`, ... of
/// the stack `p`.
fn lay_loop(
    l: &mut Loop,
    kind: Kind,
    spacing: u32,
    origin: Position,
    scale: u32,
    run_w: &mut u64,
    run_h: &mut u64,
    placed: &mut bool,
    Ghost(p): Ghost<Node>,
    Ghost(pcx): Ghost<Context>,
    Ghost(k): Ghost<int>,
)
    requires
        is_stack(p.kind),
        fits(p, pcx),
        kind == p.kind,
        spacing == p.spacing,
        origin == origin_of(p, pcx),
        scale == pcx.scale,
        old(l).visible,
        0 <= k,
        k + visible_of(old(l).elements@).len() <= children(p).len(),
        forall|j: int|
            0 <= j < visible_of(old(l).elements@).len() ==> children(p)[k + j]
                == #[trigger] visible_of(old(l).elements@)[j],
        *old(run_w) == running(p, k, false),
        *old(run_h) == running(p, k, true),
        *old(placed) == (k > 0),
    ensures
        final(l).visible,
        visible_of(final(l).elements@).len() == visible_of(old(l).elements@).len(),
        forall|j: int|
            0 <= j < visible_of(old(l).elements@).len() ==> laid_out(
                visible_of(old(l).elements@)[j],
                #[trigger] visible_of(final(l).elements@)[j],
                child_context(p, pcx, k + j),
            ),
        *final(run_w) == running(p, k + visible_of(old(l).elements@).len(), false),
        *final(run_h) == running(p, k + visible_of(old(l).elements@).len(), true),
        *final(placed) == (k + visible_of(old(l).elements@).len() > 0),
    decreases *old(l), 3int,
{
    let ghost l0 = *l;
    let m = l.elements.len();
    let mut q: usize = 0;
    let ghost mut t: int = 0;
    proof {
        assert(l0.elements@.take(0) =~= Seq::<Node>::empty());
    }
    while q < m
        invariant
            l0 == *old(l),
            is_stack(p.kind),
            fits(p, pcx),
            kind == p.kind,
            spacing == p.spacing,
            origin == origin_of(p, pcx),
            scale == pcx.scale,
            0 <= k,
            k + visible_of(l0.elements@).len() <= children(p).len(),
            forall|j: int|
                0 <= j < visible_of(l0.elements@).len() ==> children(p)[k + j]
                    == #[trigger] visible_of(l0.elements@)[j],
            l.visible == l0.visible,
            m == l.elements@.len(),
            m == l0.elements@.len(),
            0 <= q <= m,
            forall|r: int| q <= r < m ==> l.elements@[r] == l0.elements@[r],
            t == visible_of(l0.elements@.take(q as int)).len(),
            t == visible_of(l.elements@.take(q as int)).len(),
            forall|j: int|
                0 <= j < t ==> laid_out(
                    visible_of(l0.elements@)[j],
                    #[trigger] visible_of(l.elements@.take(q as int))[j],
                    child_context(p, pcx, k + j),
                ),
            *run_w == running(p, k + t, false),
            *run_h == running(p, k + t, true),
            *placed == (k + t > 0),
        decreases m - q,
    {
        let ghost before = l.elements@;
        proof {
            lemma_visible_step(l0.elements@, q as int);
            lemma_visible_step(before, q as int);
            lemma_visible_prefix(l0.elements@, q as int + 1);
            assert(decreases_to!(l0 => l0.elements));
            assert(decreases_to!(l0.elements => l0.elements@));
            assert(decreases_to!(l0.elements@ => l0.elements@[q as int]));
            assert(decreases_to!(l0 => l0.elements@[q as int]));
            assert(before[q as int] == l0.elements@[q as int]);
        }
        if l.elements[q].base.visible {
            proof {
                let qi = q as int;
                assert(visible_of(l0.elements@.take(qi + 1)) == visible_of(l0.elements@.take(qi)) + seq![
                    l0.elements@[qi],
                ]);
                assert(visible_of(l0.elements@.take(qi + 1))[t] == l0.elements@[qi]);
                assert(visible_of(l0.elements@)[t] == l0.elements@[qi]);
            }
            lay_child(
                &mut l.elements[q],
                kind,
                spacing,
                origin,
                scale,
                run_w,
                run_h,
                Ghost(p),
                Ghost(pcx),
                Ghost(k + t),
            );
            *placed = true;
        }
        proof {
            let after = l.elements@;
            assert(after.take(q as int) =~= before.take(q as int));
            lemma_visible_step(after, q as int);
            let add: int = if l0.elements@[q as int].base.visible {
                1
            } else {
                0
            };
            assert forall|j: int| 0 <= j < t + add implies laid_out(
                visible_of(l0.elements@)[j],
                #[trigger] visible_of(after.take(q + 1))[j],
                child_context(p, pcx, k + j),
            ) by {
                if j < t {
                    assert(visible_of(after.take(q + 1))[j] == visible_of(before.take(q as int))[j]);
                }
            }
            t = t + add;
        }
        q = q + 1;
    }
    proof {
        assert(l0.elements@.take(m as int) =~= l0.elements@);
        assert(l.elements@.take(m as int) =~= l.elements@);
    }
}

} // verus!
