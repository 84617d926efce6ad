use vstd::prelude::*;

use crate::draw::{children_draws, draws, drawable, is_leaf};
use crate::event::{children_hits, hits};
use crate::geometry::Context;
use crate::layout::{
    child_context, fits, laid_out, lemma_fits_bounds, lemma_running_mono, offset, origin_x, origin_y,
};
use crate::tree::{
    child_terms, children, declared, expand, extent, flatten, footprints, gaps, lemma_child_smaller,
    lemma_children_smaller, lemma_flatten_append, lemma_flatten_singles, pad_along, seq_max, seq_sum,
    stacks_along, visible_of,
};
use crate::view::{is_stack, Element, Loop, Node};

verus! {

/// Two laid-out trees that agree on every visited node: base fields (origin and
/// size included), kind, style, and the children in order.
pub open spec fn same_layout(a: Node, b: Node) -> bool
    decreases a
    via same_layout_decreases
{
    &&& a.base == b.base
    &&& a.kind == b.kind
    &&& a.spacing == b.spacing
    &&& a.fill == b.fill
    &&& a.stroke == b.stroke
    &&& children(a).len() == children(b).len()
    &&& forall|j: int|
        0 <= j < children(a).len() ==> same_layout(children(a)[j], #[trigger] children(b)[j])
}

#[via_fn]
proof fn same_layout_decreases(a: Node, b: Node) {
    lemma_children_smaller(a);
}

/// Two nodes that differ at most in how their children are grouped into
/// elements: same fields, same child sequence.
pub open spec fn same_shell(a: Node, b: Node) -> bool {
    &&& a.base == b.base
    &&& a.kind == b.kind
    &&& a.spacing == b.spacing
    &&& a.fill == b.fill
    &&& a.stroke == b.stroke
    &&& children(a) == children(b)
}

/// Layout is a function of the tree and the context.
pub proof fn lemma_layout_deterministic(o: Node, a: Node, b: Node, cx: Context)
    requires
        laid_out(o, a, cx),
        laid_out(o, b, cx),
    ensures
        same_layout(a, b),
    decreases o,
{
    assert forall|j: int| 0 <= j < children(a).len() implies same_layout(
        children(a)[j],
        #[trigger] children(b)[j],
    ) by {
        lemma_child_smaller(o, j);
        lemma_layout_deterministic(children(o)[j], children(a)[j], children(b)[j], child_context(o, cx, j));
    }
}

/// Trees with the same layout draw the same commands.
pub proof fn lemma_same_layout_draws(a: Node, b: Node, scale: int)
    requires
        same_layout(a, b),
    ensures
        draws(a, scale) == draws(b, scale),
    decreases a, children(a).len() + 1,
{
    lemma_same_children_draws(a, b, children(a).len() as int, scale);
}

proof fn lemma_same_children_draws(a: Node, b: Node, n: int, scale: int)
    requires
        same_layout(a, b),
        0 <= n <= children(a).len(),
    ensures
        children_draws(a, n, scale) == children_draws(b, n, scale),
    decreases a, n,
{
    if n > 0 {
        lemma_child_smaller(a, n - 1);
        lemma_same_children_draws(a, b, n - 1, scale);
        lemma_same_layout_draws(children(a)[n - 1], children(b)[n - 1], scale);
    }
}

/// Trees with the same layout fire the same actions for every press.
pub proof fn lemma_same_layout_hits(a: Node, b: Node, p: Context)
    requires
        same_layout(a, b),
    ensures
        hits(a, p) == hits(b, p),
    decreases a, children(a).len() + 1,
{
    lemma_same_children_hits(a, b, children(a).len() as int, p);
}

proof fn lemma_same_children_hits(a: Node, b: Node, n: int, p: Context)
    requires
        same_layout(a, b),
        0 <= n <= children(a).len(),
    ensures
        children_hits(a, n, p) == children_hits(b, n, p),
    decreases a, n,
{
    if n > 0 {
        lemma_child_smaller(a, n - 1);
        lemma_same_children_hits(a, b, n - 1, p);
        lemma_same_layout_hits(children(a)[n - 1], children(b)[n - 1], p);
    }
}

/// Layout reads a container only through its fields and its child sequence.
pub proof fn lemma_same_shell_laid_out(a: Node, b: Node, new: Node, cx: Context)
    requires
        same_shell(a, b),
        laid_out(b, new, cx),
    ensures
        laid_out(a, new, cx),
        extent(a, false) == extent(b, false),
        extent(a, true) == extent(b, true),
{
    assert(child_terms(a, false) == child_terms(b, false));
    assert(child_terms(a, true) == child_terms(b, true));
    assert forall|j: int| 0 <= j < children(a).len() implies child_context(a, cx, j) == child_context(b, cx, j) by {
        assert(footprints(a, j, false) == footprints(b, j, false));
        assert(footprints(a, j, true) == footprints(b, j, true));
    }
}

/// Nodes with the same fields and child sequence lay out, draw and dispatch alike.
pub proof fn lemma_same_shell_same_result(a: Node, b: Node, na: Node, nb: Node, cx: Context)
    requires
        same_shell(a, b),
        laid_out(a, na, cx),
        laid_out(b, nb, cx),
    ensures
        same_layout(na, nb),
        draws(na, cx.scale as int) == draws(nb, cx.scale as int),
        forall|p: Context| #[trigger] hits(na, p) == hits(nb, p),
{
    lemma_same_shell_laid_out(a, b, nb, cx);
    lemma_layout_deterministic(a, na, nb, cx);
    lemma_same_layout_draws(na, nb, cx.scale as int);
    assert forall|p: Context| #[trigger] hits(na, p) == hits(nb, p) by {
        lemma_same_layout_hits(na, nb, p);
    }
}

/// Replacing consecutive children with a visible repeater that holds the same
/// views, in the same order, changes neither the child sequence nor the layout,
/// the draw commands or the actions a press fires.
pub proof fn lemma_repeater_transparency(
    a: Node,
    b: Node,
    pre: Seq<Element>,
    views: Seq<Node>,
    post: Seq<Element>,
    l: Loop,
    na: Node,
    nb: Node,
    cx: Context,
)
    requires
        is_stack(a.kind),
        a.base == b.base,
        a.kind == b.kind,
        a.spacing == b.spacing,
        a.fill == b.fill,
        a.stroke == b.stroke,
        a.elements@ == pre + views.map_values(|c: Node| Element::Single(c)) + post,
        b.elements@ == pre + seq![Element::Repeated(l)] + post,
        l.visible,
        l.elements@ == views,
        laid_out(a, na, cx),
        laid_out(b, nb, cx),
    ensures
        children(a) == children(b),
        extent(a, false) == extent(b, false),
        extent(a, true) == extent(b, true),
        same_layout(na, nb),
        draws(na, cx.scale as int) == draws(nb, cx.scale as int),
        forall|p: Context| #[trigger] hits(na, p) == hits(nb, p),
{
    let singles = views.map_values(|c: Node| Element::Single(c));
    let rep = seq![Element::Repeated(l)];
    lemma_flatten_append(pre + singles, post);
    lemma_flatten_append(pre, singles);
    lemma_flatten_append(pre + rep, post);
    lemma_flatten_append(pre, rep);
    lemma_flatten_singles(views);
    assert(rep.drop_last() =~= Seq::<Element>::empty());
    assert(flatten(rep) == flatten(rep.drop_last()) + expand(rep.last()));
    assert(flatten(rep) =~= visible_of(views));
    lemma_same_shell_laid_out(a, b, nb, cx);
    lemma_same_shell_same_result(a, b, na, nb, cx);
}

/// A hidden child contributes nothing: the container has the same child
/// sequence, sizes, layout, draw commands and press actions as without it, and
/// its siblings keep their order.
pub proof fn lemma_hidden_child_excluded(
    a: Node,
    b: Node,
    pre: Seq<Element>,
    hidden: Node,
    post: Seq<Element>,
    na: Node,
    nb: Node,
    cx: Context,
)
    requires
        is_stack(a.kind),
        a.base == b.base,
        a.kind == b.kind,
        a.spacing == b.spacing,
        a.fill == b.fill,
        a.stroke == b.stroke,
        !hidden.base.visible,
        a.elements@ == pre + seq![Element::Single(hidden)] + post,
        b.elements@ == pre + post,
        laid_out(a, na, cx),
        laid_out(b, nb, cx),
    ensures
        children(a) == children(b),
        extent(a, false) == extent(b, false),
        extent(a, true) == extent(b, true),
        same_layout(na, nb),
        draws(na, cx.scale as int) == draws(nb, cx.scale as int),
        forall|p: Context| #[trigger] hits(na, p) == hits(nb, p),
{
    let one = seq![Element::Single(hidden)];
    lemma_flatten_append(pre + one, post);
    lemma_flatten_append(pre, one);
    lemma_flatten_append(pre, post);
    assert(one.drop_last() =~= Seq::<Element>::empty());
    assert(flatten(one) == flatten(one.drop_last()) + expand(one.last()));
    assert(flatten(one) =~= Seq::<Node>::empty());
    assert(flatten(pre) + flatten(one) =~= flatten(pre));
    lemma_same_shell_laid_out(a, b, nb, cx);
    lemma_same_shell_same_result(a, b, na, nb, cx);
}

/// The terms a container with fixed-size children aggregates: each child's
/// declared extent plus its padding along the axis.
pub open spec fn declared_terms(v: Node, vertical: bool) -> Seq<int> {
    Seq::new(
        children(v).len(),
        |j: int| declared(children(v)[j], vertical) + pad_along(children(v)[j], vertical),
    )
}

/// A container whose sizes are unset and whose children are fixed-size leaves
/// gets, along its stacking axis, the sum of the children's padded extents plus
/// the spacing between them, and across it the largest padded extent.
pub proof fn lemma_auto_size(v: Node, new: Node, cx: Context)
    requires
        is_stack(v.kind),
        v.base.size.width == 0,
        v.base.size.height == 0,
        forall|j: int| 0 <= j < children(v).len() ==> is_leaf(#[trigger] children(v)[j].kind),
        fits(v, cx),
        laid_out(v, new, cx),
    ensures
        new.base.size.width == if stacks_along(v.kind, false) {
            seq_sum(declared_terms(v, false)) + gaps(children(v).len() as int, v.spacing as int)
        } else {
            seq_max(declared_terms(v, false))
        },
        new.base.size.height == if stacks_along(v.kind, true) {
            seq_sum(declared_terms(v, true)) + gaps(children(v).len() as int, v.spacing as int)
        } else {
            seq_max(declared_terms(v, true))
        },
{
    lemma_fits_bounds(v, cx);
    assert(child_terms(v, false) =~= declared_terms(v, false));
    assert(child_terms(v, true) =~= declared_terms(v, true));
}

/// Layout gives every leaf a box whose far corner is representable, so a tree
/// laid out within range can be drawn.
pub proof fn lemma_laid_out_drawable(v: Node, new: Node, cx: Context)
    requires
        fits(v, cx),
        laid_out(v, new, cx),
    ensures
        drawable(new, cx.scale as int),
    decreases v,
{
    lemma_fits_bounds(v, cx);
    lemma_children_smaller(v);
    assert forall|j: int| 0 <= j < children(new).len() implies drawable(#[trigger] children(new)[j], cx.scale as int) by {
        lemma_laid_out_drawable(children(v)[j], children(new)[j], child_context(v, cx, j));
    }
    if is_leaf(new.kind) {
        assert(offset(v, 0, false) == 0);
        assert(offset(v, 0, true) == 0);
    }
}

/// Two laid-out trees where the second has every origin multiplied by `k` and
/// the same logical sizes, so every reported (scaled) length is `k` times as
/// large and every ratio between lengths is the same.
pub open spec fn scaled_by(a: Node, b: Node, k: int) -> bool
    decreases a
    via scaled_by_decreases
{
    &&& b.base.origin.x == k * a.base.origin.x
    &&& b.base.origin.y == k * a.base.origin.y
    &&& b.base.size == a.base.size
    &&& children(a).len() == children(b).len()
    &&& forall|j: int| 0 <= j < children(a).len() ==> scaled_by(children(a)[j], #[trigger] children(b)[j], k)
}

#[via_fn]
proof fn scaled_by_decreases(a: Node, b: Node, k: int) {
    lemma_children_smaller(a);
}

/// Laying a tree out with the cursor and the scale factor multiplied by `k`
/// multiplies every origin by `k` and leaves every logical size unchanged.
pub proof fn lemma_scale_invariance(v: Node, a: Node, b: Node, cx: Context, cy: Context, k: int)
    requires
        k >= 0,
        cy.location.x == k * cx.location.x,
        cy.location.y == k * cx.location.y,
        cy.scale == k * cx.scale,
        fits(v, cx),
        fits(v, cy),
        laid_out(v, a, cx),
        laid_out(v, b, cy),
    ensures
        scaled_by(a, b, k),
    decreases v,
{
    lemma_fits_bounds(v, cx);
    lemma_fits_bounds(v, cy);
    let s = cx.scale as int;
    let pl = v.base.padding_left as int;
    let pt = v.base.padding_top as int;
    assert(origin_x(v, cy) == k * origin_x(v, cx)) by (nonlinear_arith)
        requires
            origin_x(v, cy) == cy.location.x + pl * cy.scale,
            origin_x(v, cx) == cx.location.x + pl * s,
            cy.location.x == k * cx.location.x,
            cy.scale == k * s,
    ;
    assert(origin_y(v, cy) == k * origin_y(v, cx)) by (nonlinear_arith)
        requires
            origin_y(v, cy) == cy.location.y + pt * cy.scale,
            origin_y(v, cx) == cx.location.y + pt * s,
            cy.location.y == k * cx.location.y,
            cy.scale == k * s,
    ;
    assert forall|j: int| 0 <= j < children(a).len() implies scaled_by(
        children(a)[j],
        #[trigger] children(b)[j],
        k,
    ) by {
        lemma_child_smaller(v, j);
        let c1 = child_context(v, cx, j);
        let c2 = child_context(v, cy, j);
        let ox = offset(v, j, false);
        let oy = offset(v, j, true);
        assert(origin_x(v, cy) + ox * cy.scale == k * (origin_x(v, cx) + ox * s)) by (nonlinear_arith)
            requires
                origin_x(v, cy) == k * origin_x(v, cx),
                cy.scale == k * s,
        ;
        assert(origin_y(v, cy) + oy * cy.scale == k * (origin_y(v, cx) + oy * s)) by (nonlinear_arith)
            requires
                origin_y(v, cy) == k * origin_y(v, cx),
                cy.scale == k * s,
        ;
        lemma_running_mono(v, j, j, false);
        lemma_running_mono(v, j, j, true);
        assert(ox >= 0);
        assert(oy >= 0);
        assert(0 <= ox * s) by (nonlinear_arith)
            requires
                ox >= 0,
                s >= 0,
        ;
        assert(0 <= oy * s) by (nonlinear_arith)
            requires
                oy >= 0,
                s >= 0,
        ;
        assert(0 <= ox * cy.scale) by (nonlinear_arith)
            requires
                ox >= 0,
                cy.scale >= 0,
        ;
        assert(0 <= oy * cy.scale) by (nonlinear_arith)
            requires
                oy >= 0,
                cy.scale >= 0,
        ;
        assert(c2.location.x == k * c1.location.x);
        assert(c2.location.y == k * c1.location.y);
        lemma_scale_invariance(children(v)[j], children(a)[j], children(b)[j], c1, c2, k);
    }
}

} // verus!
