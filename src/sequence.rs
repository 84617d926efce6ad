use vstd::prelude::*;

use crate::view::{fresh, Element, HStack, Kind, Loop, Node, VStack, ZStack};

verus! {

/// A value that can stand in a container's child list: a view, or a repeater.
pub trait AnyView: Sized {
    spec fn element(self) -> Element;

    fn into_element(self) -> (e: Element)
        ensures
            e == self.element(),
    ;
}

impl AnyView for Node {
    open spec fn element(self) -> Element {
        Element::Single(self)
    }

    fn into_element(self) -> (e: Element) {
        Element::Single(self)
    }
}

impl AnyView for Loop {
    open spec fn element(self) -> Element {
        Element::Repeated(self)
    }

    fn into_element(self) -> (e: Element) {
        Element::Repeated(self)
    }
}

/// A fixed group of children (none, one, or a tuple of up to sixteen), turned
/// into a container's child list in declaration order.
pub trait ViewSequence: Sized {
    spec fn sequence(self) -> Seq<Element>;

    fn into_view_sequence(self) -> (r: Vec<Element>)
        ensures
            r@ == self.sequence(),
    ;
}

impl ViewSequence for () {
    open spec fn sequence(self) -> Seq<Element> {
        seq![]
    }

    fn into_view_sequence(self) -> (r: Vec<Element>) {
        Vec::new()
    }
}

impl ViewSequence for Node {
    open spec fn sequence(self) -> Seq<Element> {
        seq![Element::Single(self)]
    }

    fn into_view_sequence(self) -> (r: Vec<Element>) {
        let mut r: Vec<Element> = Vec::new();
        r.push(Element::Single(self));
        r
    }
}

impl ViewSequence for Loop {
    open spec fn sequence(self) -> Seq<Element> {
        seq![Element::Repeated(self)]
    }

    fn into_view_sequence(self) -> (r: Vec<Element>) {
        let mut r: Vec<Element> = Vec::new();
        r.push(Element::Repeated(self));
        r
    }
}

impl<T0: AnyView> ViewSequence for (T0,) {
    open spec fn sequence(self) -> Seq<Element> {
        seq![self.0.element()]
    }

    fn into_view_sequence(self) -> (r: Vec<Element>) {
        let mut r: Vec<Element> = Vec::new();
        r.push(self.0.into_element());
        assert(r@ =~= self.sequence());
        r
    }
}

impl<T0: AnyView, T1: AnyView> ViewSequence for (T0, T1) {
    open spec fn sequence(self) -> Seq<Element> {
        seq![self.0.element(), self.1.element()]
    }

    fn into_view_sequence(self) -> (r: Vec<Element>) {
        let mut r: Vec<Element> = Vec::new();
        r.push(self.0.into_element());
        r.push(self.1.into_element());
        assert(r@ =~= self.sequence());
        r
    }
}

impl<T0: AnyView, T1: AnyView, T2: AnyView> ViewSequence for (T0, T1, T2) {
    open spec fn sequence(self) -> Seq<Element> {
        seq![self.0.element(), self.1.element(), self.2.element()]
    }

    fn into_view_sequence(self) -> (r: Vec<Element>) {
        let mut r: Vec<Element> = Vec::new();
        r.push(self.0.into_element());
        r.push(self.1.into_element());
        r.push(self.2.into_element());
        assert(r@ =~= self.sequence());
        r
    }
}

impl<T0: AnyView, T1: AnyView, T2: AnyView, T3: AnyView> ViewSequence for (T0, T1, T2, T3) {
    open spec fn sequence(self) -> Seq<Element> {
        seq![self.0.element(), self.1.element(), self.2.element(), self.3.element()]
    }

    fn into_view_sequence(self) -> (r: Vec<Element>) {
        let mut r: Vec<Element> = Vec::new();
        r.push(self.0.into_element());
        r.push(self.1.into_element());
        r.push(self.2.into_element());
        r.push(self.3.into_element());
        assert(r@ =~= self.sequence());
        r
    }
}

impl<T0: AnyView, T1: AnyView, T2: AnyView, T3: AnyView, T4: AnyView> ViewSequence for (T0, T1, T2, T3, T4) {
    open spec fn sequence(self) -> Seq<Element> {
        seq![self.0.element(), self.1.element(), self.2.element(), self.3.element(), self.4.element()]
    }

    fn into_view_sequence(self) -> (r: Vec<Element>) {
        let mut r: Vec<Element> = Vec::new();
        r.push(self.0.into_element());
        r.push(self.1.into_element());
        r.push(self.2.into_element());
        r.push(self.3.into_element());
        r.push(self.4.into_element());
        assert(r@ =~= self.sequence());
        r
    }
}

impl<T0: AnyView, T1: AnyView, T2: AnyView, T3: AnyView, T4: AnyView, T5: AnyView> ViewSequence for (T0, T1, T2, T3, T4, T5) {
    open spec fn sequence(self) -> Seq<Element> {
        seq![self.0.element(), self.1.element(), self.2.element(), self.3.element(), self.4.element(), self.5.element()]
    }

    fn into_view_sequence(self) -> (r: Vec<Element>) {
        let mut r: Vec<Element> = Vec::new();
        r.push(self.0.into_element());
        r.push(self.1.into_element());
        r.push(self.2.into_element());
        r.push(self.3.into_element());
        r.push(self.4.into_element());
        r.push(self.5.into_element());
        assert(r@ =~= self.sequence());
        r
    }
}

impl<T0: AnyView, T1: AnyView, T2: AnyView, T3: AnyView, T4: AnyView, T5: AnyView, T6: AnyView> ViewSequence for (T0, T1, T2, T3, T4, T5, T6) {
    open spec fn sequence(self) -> Seq<Element> {
        seq![self.0.element(), self.1.element(), self.2.element(), self.3.element(), self.4.element(), self.5.element(), self.6.element()]
    }

    fn into_view_sequence(self) -> (r: Vec<Element>) {
        let mut r: Vec<Element> = Vec::new();
        r.push(self.0.into_element());
        r.push(self.1.into_element());
        r.push(self.2.into_element());
        r.push(self.3.into_element());
        r.push(self.4.into_element());
        r.push(self.5.into_element());
        r.push(self.6.into_element());
        assert(r@ =~= self.sequence());
        r
    }
}

impl<T0: AnyView, T1: AnyView, T2: AnyView, T3: AnyView, T4: AnyView, T5: AnyView, T6: AnyView, T7: AnyView> ViewSequence for (T0, T1, T2, T3, T4, T5, T6, T7) {
    open spec fn sequence(self) -> Seq<Element> {
        seq![self.0.element(), self.1.element(), self.2.element(), self.3.element(), self.4.element(), self.5.element(), self.6.element(), self.7.element()]
    }

    fn into_view_sequence(self) -> (r: Vec<Element>) {
        let mut r: Vec<Element> = Vec::new();
        r.push(self.0.into_element());
        r.push(self.1.into_element());
        r.push(self.2.into_element());
        r.push(self.3.into_element());
        r.push(self.4.into_element());
        r.push(self.5.into_element());
        r.push(self.6.into_element());
        r.push(self.7.into_element());
        assert(r@ =~= self.sequence());
        r
    }
}

impl<T0: AnyView, T1: AnyView, T2: AnyView, T3: AnyView, T4: AnyView, T5: AnyView, T6: AnyView, T7: AnyView, T8: AnyView> ViewSequence for (T0, T1, T2, T3, T4, T5, T6, T7, T8) {
    open spec fn sequence(self) -> Seq<Element> {
        seq![self.0.element(), self.1.element(), self.2.element(), self.3.element(), self.4.element(), self.5.element(), self.6.element(), self.7.element(), self.8.element()]
    }

    fn into_view_sequence(self) -> (r: Vec<Element>) {
        let mut r: Vec<Element> = Vec::new();
        r.push(self.0.into_element());
        r.push(self.1.into_element());
        r.push(self.2.into_element());
        r.push(self.3.into_element());
        r.push(self.4.into_element());
        r.push(self.5.into_element());
        r.push(self.6.into_element());
        r.push(self.7.into_element());
        r.push(self.8.into_element());
        assert(r@ =~= self.sequence());
        r
    }
}

impl<T0: AnyView, T1: AnyView, T2: AnyView, T3: AnyView, T4: AnyView, T5: AnyView, T6: AnyView, T7: AnyView, T8: AnyView, T9: AnyView> ViewSequence for (T0, T1, T2, T3, T4, T5, T6, T7, T8, T9) {
    open spec fn sequence(self) -> Seq<Element> {
        seq![self.0.element(), self.1.element(), self.2.element(), self.3.element(), self.4.element(), self.5.element(), self.6.element(), self.7.element(), self.8.element(), self.9.element()]
    }

    fn into_view_sequence(self) -> (r: Vec<Element>) {
        let mut r: Vec<Element> = Vec::new();
        r.push(self.0.into_element());
        r.push(self.1.into_element());
        r.push(self.2.into_element());
        r.push(self.3.into_element());
        r.push(self.4.into_element());
        r.push(self.5.into_element());
        r.push(self.6.into_element());
        r.push(self.7.into_element());
        r.push(self.8.into_element());
        r.push(self.9.into_element());
        assert(r@ =~= self.sequence());
        r
    }
}

impl<T0: AnyView, T1: AnyView, T2: AnyView, T3: AnyView, T4: AnyView, T5: AnyView, T6: AnyView, T7: AnyView, T8: AnyView, T9: AnyView, T10: AnyView> ViewSequence for (T0, T1, T2, T3, T4, T5, T6, T7, T8, T9, T10) {
    open spec fn sequence(self) -> Seq<Element> {
        seq![self.0.element(), self.1.element(), self.2.element(), self.3.element(), self.4.element(), self.5.element(), self.6.element(), self.7.element(), self.8.element(), self.9.element(), self.10.element()]
    }

    fn into_view_sequence(self) -> (r: Vec<Element>) {
        let mut r: Vec<Element> = Vec::new();
        r.push(self.0.into_element());
        r.push(self.1.into_element());
        r.push(self.2.into_element());
        r.push(self.3.into_element());
        r.push(self.4.into_element());
        r.push(self.5.into_element());
        r.push(self.6.into_element());
        r.push(self.7.into_element());
        r.push(self.8.into_element());
        r.push(self.9.into_element());
        r.push(self.10.into_element());
        assert(r@ =~= self.sequence());
        r
    }
}

impl<T0: AnyView, T1: AnyView, T2: AnyView, T3: AnyView, T4: AnyView, T5: AnyView, T6: AnyView, T7: AnyView, T8: AnyView, T9: AnyView, T10: AnyView, T11: AnyView> ViewSequence for (T0, T1, T2, T3, T4, T5, T6, T7, T8, T9, T10, T11) {
    open spec fn sequence(self) -> Seq<Element> {
        seq![self.0.element(), self.1.element(), self.2.element(), self.3.element(), self.4.element(), self.5.element(), self.6.element(), self.7.element(), self.8.element(), self.9.element(), self.10.element(), self.11.element()]
    }

    fn into_view_sequence(self) -> (r: Vec<Element>) {
        let mut r: Vec<Element> = Vec::new();
        r.push(self.0.into_element());
        r.push(self.1.into_element());
        r.push(self.2.into_element());
        r.push(self.3.into_element());
        r.push(self.4.into_element());
        r.push(self.5.into_element());
        r.push(self.6.into_element());
        r.push(self.7.into_element());
        r.push(self.8.into_element());
        r.push(self.9.into_element());
        r.push(self.10.into_element());
        r.push(self.11.into_element());
        assert(r@ =~= self.sequence());
        r
    }
}

impl<T0: AnyView, T1: AnyView, T2: AnyView, T3: AnyView, T4: AnyView, T5: AnyView, T6: AnyView, T7: AnyView, T8: AnyView, T9: AnyView, T10: AnyView, T11: AnyView, T12: AnyView> ViewSequence for (T0, T1, T2, T3, T4, T5, T6, T7, T8, T9, T10, T11, T12) {
    open spec fn sequence(self) -> Seq<Element> {
        seq![self.0.element(), self.1.element(), self.2.element(), self.3.element(), self.4.element(), self.5.element(), self.6.element(), self.7.element(), self.8.element(), self.9.element(), self.10.element(), self.11.element(), self.12.element()]
    }

    fn into_view_sequence(self) -> (r: Vec<Element>) {
        let mut r: Vec<Element> = Vec::new();
        r.push(self.0.into_element());
        r.push(self.1.into_element());
        r.push(self.2.into_element());
        r.push(self.3.into_element());
        r.push(self.4.into_element());
        r.push(self.5.into_element());
        r.push(self.6.into_element());
        r.push(self.7.into_element());
        r.push(self.8.into_element());
        r.push(self.9.into_element());
        r.push(self.10.into_element());
        r.push(self.11.into_element());
        r.push(self.12.into_element());
        assert(r@ =~= self.sequence());
        r
    }
}

impl<T0: AnyView, T1: AnyView, T2: AnyView, T3: AnyView, T4: AnyView, T5: AnyView, T6: AnyView, T7: AnyView, T8: AnyView, T9: AnyView, T10: AnyView, T11: AnyView, T12: AnyView, T13: AnyView> ViewSequence for (T0, T1, T2, T3, T4, T5, T6, T7, T8, T9, T10, T11, T12, T13) {
    open spec fn sequence(self) -> Seq<Element> {
        seq![self.0.element(), self.1.element(), self.2.element(), self.3.element(), self.4.element(), self.5.element(), self.6.element(), self.7.element(), self.8.element(), self.9.element(), self.10.element(), self.11.element(), self.12.element(), self.13.element()]
    }

    fn into_view_sequence(self) -> (r: Vec<Element>) {
        let mut r: Vec<Element> = Vec::new();
        r.push(self.0.into_element());
        r.push(self.1.into_element());
        r.push(self.2.into_element());
        r.push(self.3.into_element());
        r.push(self.4.into_element());
        r.push(self.5.into_element());
        r.push(self.6.into_element());
        r.push(self.7.into_element());
        r.push(self.8.into_element());
        r.push(self.9.into_element());
        r.push(self.10.into_element());
        r.push(self.11.into_element());
        r.push(self.12.into_element());
        r.push(self.13.into_element());
        assert(r@ =~= self.sequence());
        r
    }
}

impl<T0: AnyView, T1: AnyView, T2: AnyView, T3: AnyView, T4: AnyView, T5: AnyView, T6: AnyView, T7: AnyView, T8: AnyView, T9: AnyView, T10: AnyView, T11: AnyView, T12: AnyView, T13: AnyView, T14: AnyView> ViewSequence for (T0, T1, T2, T3, T4, T5, T6, T7, T8, T9, T10, T11, T12, T13, T14) {
    open spec fn sequence(self) -> Seq<Element> {
        seq![self.0.element(), self.1.element(), self.2.element(), self.3.element(), self.4.element(), self.5.element(), self.6.element(), self.7.element(), self.8.element(), self.9.element(), self.10.element(), self.11.element(), self.12.element(), self.13.element(), self.14.element()]
    }

    fn into_view_sequence(self) -> (r: Vec<Element>) {
        let mut r: Vec<Element> = Vec::new();
        r.push(self.0.into_element());
        r.push(self.1.into_element());
        r.push(self.2.into_element());
        r.push(self.3.into_element());
        r.push(self.4.into_element());
        r.push(self.5.into_element());
        r.push(self.6.into_element());
        r.push(self.7.into_element());
        r.push(self.8.into_element());
        r.push(self.9.into_element());
        r.push(self.10.into_element());
        r.push(self.11.into_element());
        r.push(self.12.into_element());
        r.push(self.13.into_element());
        r.push(self.14.into_element());
        assert(r@ =~= self.sequence());
        r
    }
}

impl<T0: AnyView, T1: AnyView, T2: AnyView, T3: AnyView, T4: AnyView, T5: AnyView, T6: AnyView, T7: AnyView, T8: AnyView, T9: AnyView, T10: AnyView, T11: AnyView, T12: AnyView, T13: AnyView, T14: AnyView, T15: AnyView> ViewSequence for (T0, T1, T2, T3, T4, T5, T6, T7, T8, T9, T10, T11, T12, T13, T14, T15) {
    open spec fn sequence(self) -> Seq<Element> {
        seq![self.0.element(), self.1.element(), self.2.element(), self.3.element(), self.4.element(), self.5.element(), self.6.element(), self.7.element(), self.8.element(), self.9.element(), self.10.element(), self.11.element(), self.12.element(), self.13.element(), self.14.element(), self.15.element()]
    }

    fn into_view_sequence(self) -> (r: Vec<Element>) {
        let mut r: Vec<Element> = Vec::new();
        r.push(self.0.into_element());
        r.push(self.1.into_element());
        r.push(self.2.into_element());
        r.push(self.3.into_element());
        r.push(self.4.into_element());
        r.push(self.5.into_element());
        r.push(self.6.into_element());
        r.push(self.7.into_element());
        r.push(self.8.into_element());
        r.push(self.9.into_element());
        r.push(self.10.into_element());
        r.push(self.11.into_element());
        r.push(self.12.into_element());
        r.push(self.13.into_element());
        r.push(self.14.into_element());
        r.push(self.15.into_element());
        assert(r@ =~= self.sequence());
        r
    }
}

impl VStack {
    pub fn new<T: ViewSequence>(elements: T) -> (v: Node)
        ensures
            fresh(v, Kind::VStack),
            v.elements@ == elements.sequence(),
    {
        Node::with_kind(Kind::VStack, elements.into_view_sequence())
    }
}

impl HStack {
    pub fn new<T: ViewSequence>(elements: T) -> (v: Node)
        ensures
            fresh(v, Kind::HStack),
            v.elements@ == elements.sequence(),
    {
        Node::with_kind(Kind::HStack, elements.into_view_sequence())
    }
}

impl ZStack {
    pub fn new<T: ViewSequence>(elements: T) -> (v: Node)
        ensures
            fresh(v, Kind::ZStack),
            v.elements@ == elements.sequence(),
    {
        Node::with_kind(Kind::ZStack, elements.into_view_sequence())
    }
}

} // verus!
