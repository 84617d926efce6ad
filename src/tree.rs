use vstd::prelude::*;

use crate::view::{is_stack, Element, Kind, Node};

verus! {

/// The visible views of `vs`, in order.
pub open spec fn visible_of(vs: Seq<Node>) -> Seq<Node>
    decreases vs.len(),
{
    if vs.len() == 0 {
        seq![]
    } else {
        visible_of(vs.drop_last()) + if vs.last().base.visible {
            seq![vs.last()]
        } else {
            seq![]
        }
    }
}

/// What one element contributes to its container's child sequence.
pub open spec fn expand(e: Element) -> Seq<Node> {
    match e {
        Element::Single(v) => if v.base.visible {
            seq![v]
        } else {
            seq![]
        },
        Element::Repeated(l) => if l.visible {
            visible_of(l.elements@)
        } else {
            seq![]
        },
    }
}

/// The child sequence a container traverses: visible views, with each visible
/// repeater replaced by its visible views.
pub open spec fn flatten(es: Seq<Element>) -> Seq<Node>
    decreases es.len(),
{
    if es.len() == 0 {
        seq![]
    } else {
        flatten(es.drop_last()) + expand(es.last())
    }
}

/// The children that layout, drawing and dispatch visit; leaves have none.
pub open spec fn children(v: Node) -> Seq<Node> {
    if is_stack(v.kind) {
        flatten(v.elements@)
    } else {
        seq![]
    }
}

pub proof fn lemma_visible_smaller(vs: Seq<Node>, i: int)
    requires
        0 <= i < visible_of(vs).len(),
    ensures
        decreases_to!(vs => visible_of(vs)[i]),
    decreases vs.len(),
{
    let prefix = vs.drop_last();
    if i < visible_of(prefix).len() {
        lemma_visible_smaller(prefix, i);
        assert(decreases_to!(vs => prefix));
    } else {
        assert(decreases_to!(vs => vs[vs.len() - 1]));
    }
}

pub proof fn lemma_flatten_smaller(es: Seq<Element>, i: int)
    requires
        0 <= i < flatten(es).len(),
    ensures
        decreases_to!(es => flatten(es)[i]),
    decreases es.len(),
{
    let prefix = es.drop_last();
    let k = flatten(prefix).len();
    if i < k {
        lemma_flatten_smaller(prefix, i);
        assert(decreases_to!(es => prefix));
    } else {
        let e = es.last();
        assert(decreases_to!(es => es[es.len() - 1]));
        match e {
            Element::Single(c) => {
                assert(decreases_to!(e => c));
            },
            Element::Repeated(l) => {
                lemma_visible_smaller(l.elements@, i - k);
                assert(decreases_to!(e => l));
                assert(decreases_to!(l => l.elements));
                assert(decreases_to!(l.elements => l.elements@));
            },
        }
    }
}

/// Every child is structurally smaller than its container.
pub proof fn lemma_child_smaller(v: Node, i: int)
    requires
        0 <= i < children(v).len(),
    ensures
        decreases_to!(v => children(v)[i]),
{
    lemma_flatten_smaller(v.elements@, i);
    assert(decreases_to!(v => v.elements));
    assert(decreases_to!(v.elements => v.elements@));
}

pub proof fn lemma_children_smaller(v: Node)
    ensures
        forall|i: int| 0 <= i < children(v).len() ==> decreases_to!(v => #[trigger] children(v)[i]),
{
    assert forall|i: int| 0 <= i < children(v).len() implies decreases_to!(v => #[trigger] children(v)[i]) by {
        lemma_child_smaller(v, i);
    }
}

pub open spec fn seq_sum(s: Seq<int>) -> int
    decreases s.len(),
{
    if s.len() == 0 {
        0
    } else {
        seq_sum(s.drop_last()) + s.last()
    }
}

pub open spec fn seq_max(s: Seq<int>) -> int
    decreases s.len(),
{
    if s.len() == 0 {
        0
    } else if seq_max(s.drop_last()) >= s.last() {
        seq_max(s.drop_last())
    } else {
        s.last()
    }
}

/// Padding along an axis: top + bottom when `vertical`, left + right otherwise.
pub open spec fn pad_along(v: Node, vertical: bool) -> int {
    if vertical {
        v.base.padding_top + v.base.padding_bottom
    } else {
        v.base.padding_left + v.base.padding_right
    }
}

pub open spec fn declared(v: Node, vertical: bool) -> int {
    if vertical {
        v.base.size.height as int
    } else {
        v.base.size.width as int
    }
}

/// Whether a node of kind `k` stacks its children along the given axis.
pub open spec fn stacks_along(k: Kind, vertical: bool) -> bool {
    (k == Kind::VStack && vertical) || (k == Kind::HStack && !vertical)
}

/// Total spacing between `n` consecutive children.
pub open spec fn gaps(n: int, spacing: int) -> int {
    if n >= 1 {
        (n - 1) * spacing
    } else {
        0
    }
}

/// The resolved logical extent of `v` along an axis: the declared size when it is
/// non-zero, else the sum (stacking axis) or maximum (other axes) of the
/// children's padded extents, plus the spacing between them on the stacking axis.
pub open spec fn extent(v: Node, vertical: bool) -> int
    decreases v, 2int
    via extent_decreases
{
    if declared(v, vertical) != 0 || !is_stack(v.kind) {
        declared(v, vertical)
    } else {
        natural(v, vertical)
    }
}

/// The extent `v` takes from its children alone.
pub open spec fn natural(v: Node, vertical: bool) -> int
    decreases v, 1int
    via natural_decreases
{
    let n = children(v).len() as int;
    if stacks_along(v.kind, vertical) {
        seq_sum(child_terms(v, vertical)) + gaps(n, v.spacing as int)
    } else {
        seq_max(child_terms(v, vertical))
    }
}

/// The padded extents of the children of `v` along an axis.
pub open spec fn child_terms(v: Node, vertical: bool) -> Seq<int>
    decreases v, 0int
    via child_terms_decreases
{
    let cs = children(v);
    Seq::new(
        cs.len(),
        |j: int|
            if 0 <= j < cs.len() {
                extent(cs[j], vertical) + pad_along(cs[j], vertical)
            } else {
                0
            },
    )
}

#[via_fn]
proof fn extent_decreases(v: Node, vertical: bool) {
}

#[via_fn]
proof fn natural_decreases(v: Node, vertical: bool) {
}

#[via_fn]
proof fn child_terms_decreases(v: Node, vertical: bool) {
    lemma_children_smaller(v);
}

pub proof fn lemma_flatten_step(es: Seq<Element>, i: int)
    requires
        0 <= i < es.len(),
    ensures
        flatten(es.take(i + 1)) == flatten(es.take(i)) + expand(es[i]),
{
    assert(es.take(i + 1).drop_last() =~= es.take(i));
}

pub proof fn lemma_visible_step(vs: Seq<Node>, i: int)
    requires
        0 <= i < vs.len(),
    ensures
        visible_of(vs.take(i + 1)) == visible_of(vs.take(i)) + if vs[i].base.visible {
            seq![vs[i]]
        } else {
            seq![]
        },
{
    assert(vs.take(i + 1).drop_last() =~= vs.take(i));
}

/// Flattening a prefix of the elements gives a prefix of the flattened sequence.
pub proof fn lemma_flatten_prefix(es: Seq<Element>, i: int)
    requires
        0 <= i <= es.len(),
    ensures
        flatten(es.take(i)).len() <= flatten(es).len(),
        forall|j: int| 0 <= j < flatten(es.take(i)).len() ==> #[trigger] flatten(es.take(i))[j] == flatten(es)[j],
    decreases es.len(),
{
    if i == es.len() {
        assert(es.take(i) =~= es);
    } else {
        let prefix = es.drop_last();
        assert(es.take(i) =~= prefix.take(i));
        lemma_flatten_prefix(prefix, i);
    }
}

pub proof fn lemma_visible_prefix(vs: Seq<Node>, i: int)
    requires
        0 <= i <= vs.len(),
    ensures
        visible_of(vs.take(i)).len() <= visible_of(vs).len(),
        forall|j: int| 0 <= j < visible_of(vs.take(i)).len() ==> #[trigger] visible_of(vs.take(i))[j] == visible_of(vs)[j],
    decreases vs.len(),
{
    if i == vs.len() {
        assert(vs.take(i) =~= vs);
    } else {
        let prefix = vs.drop_last();
        assert(vs.take(i) =~= prefix.take(i));
        lemma_visible_prefix(prefix, i);
    }
}

/// Element `i` of a container contributes its expansion at position
/// `flatten(es.take(i)).len()` of the child sequence.
pub proof fn lemma_flatten_slot(v: Node, i: int)
    requires
        is_stack(v.kind),
        0 <= i < v.elements@.len(),
    ensures
        flatten(v.elements@.take(i + 1)).len() == flatten(v.elements@.take(i)).len() + expand(v.elements@[i]).len(),
        flatten(v.elements@.take(i + 1)).len() <= children(v).len(),
        forall|t: int|
            0 <= t < expand(v.elements@[i]).len() ==> children(v)[flatten(v.elements@.take(i)).len() + t]
                == #[trigger] expand(v.elements@[i])[t],
{
    let es = v.elements@;
    let k = flatten(es.take(i)).len() as int;
    lemma_flatten_step(es, i);
    lemma_flatten_prefix(es, i + 1);
    assert forall|t: int| 0 <= t < expand(es[i]).len() implies children(v)[k + t] == #[trigger] expand(es[i])[t] by {
        assert(flatten(es.take(i + 1))[k + t] == expand(es[i])[t]);
    }
}

pub proof fn lemma_flatten_append(a: Seq<Element>, b: Seq<Element>)
    ensures
        flatten(a + b) == flatten(a) + flatten(b),
    decreases b.len(),
{
    if b.len() == 0 {
        assert(a + b =~= a);
        assert(flatten(a) + flatten(b) =~= flatten(a));
    } else {
        assert((a + b).drop_last() =~= a + b.drop_last());
        lemma_flatten_append(a, b.drop_last());
        assert(flatten(a + b) =~= flatten(a) + flatten(b));
    }
}

/// Views listed one by one flatten to the same children as a visible repeater
/// holding them.
pub proof fn lemma_flatten_singles(views: Seq<Node>)
    ensures
        flatten(views.map_values(|c: Node| Element::Single(c))) == visible_of(views),
    decreases views.len(),
{
    if views.len() > 0 {
        assert(views.map_values(|c: Node| Element::Single(c)).drop_last() =~= views.drop_last().map_values(
            |c: Node| Element::Single(c),
        ));
        lemma_flatten_singles(views.drop_last());
    } else {
        assert(views.map_values(|c: Node| Element::Single(c)) =~= Seq::<Element>::empty());
    }
}

/// The padded extent a child occupies in its container.
pub open spec fn footprint(c: Node, vertical: bool) -> int {
    extent(c, vertical) + pad_along(c, vertical)
}

/// Footprints of the first `n` children of `v`.
pub open spec fn footprints(v: Node, n: int, vertical: bool) -> Seq<int> {
    Seq::new(n as nat, |j: int| footprint(children(v)[j], vertical))
}

pub proof fn lemma_child_terms(v: Node, vertical: bool)
    ensures
        child_terms(v, vertical) == footprints(v, children(v).len() as int, vertical),
{
    assert(child_terms(v, vertical) =~= footprints(v, children(v).len() as int, vertical));
}

} // verus!
