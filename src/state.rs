use vstd::prelude::*;

use std::collections::HashMap;
use std::marker::PhantomData;

verus! {

broadcast use vstd::std_specs::hash::group_hash_axioms;

/// The slots after declaring slot `id` with `initial`: an existing value is kept,
/// an empty slot is seeded.
pub open spec fn declare_slots<T>(slots: Map<u64, T>, id: u64, initial: T) -> Map<u64, T> {
    if slots.contains_key(id) {
        slots
    } else {
        slots.insert(id, initial)
    }
}

/// The store of state that outlives rebuilds of the view tree: one value per
/// slot, slots numbered in declaration order within each build.
pub struct StateManager<T> {
    states: HashMap<u64, T>,
    id: u64,
}

impl<T> StateManager<T> {
    /// The value held in each slot.
    pub closed spec fn slots(&self) -> Map<u64, T> {
        self.states@
    }

    /// The slot the next declaration receives.
    pub closed spec fn next(&self) -> u64 {
        self.id
    }

    pub fn new() -> (m: StateManager<T>)
        ensures
            m.slots() == Map::<u64, T>::empty(),
            m.next() == 0,
    {
        StateManager { states: HashMap::new(), id: 0 }
    }

    /// Starts a build: declarations number their slots from zero again.
    pub fn reset_id(&mut self)
        ensures
            final(self).slots() == old(self).slots(),
            final(self).next() == 0,
    {
        self.id = 0;
    }

    pub fn set_state(&mut self, id: u64, value: T)
        ensures
            final(self).slots() == old(self).slots().insert(id, value),
            final(self).next() == old(self).next(),
    {
        self.states.insert(id, value);
    }

    pub fn get_state(&self, id: u64) -> (r: Option<&T>)
        ensures
            match r {
                Some(v) => self.slots().contains_key(id) && *v == self.slots()[id],
                None => !self.slots().contains_key(id),
            },
    {
        self.states.get(&id)
    }
}

/// A handle on one slot of a `StateManager`, with the subscribers told of
/// each change made through it.
pub struct State<T> {
    id: u64,
    subscribers: Vec<u64>,
    marker: PhantomData<T>,
}

impl<T> State<T> {
    /// The slot this handle reads and writes.
    pub closed spec fn slot(&self) -> u64 {
        self.id
    }

    /// The subscribers, in the order they subscribed.
    pub closed spec fn listeners(&self) -> Seq<u64> {
        self.subscribers@
    }

    /// Declares the next slot of the current build. A value stored there by an
    /// earlier build is kept; an empty slot is seeded with `value`.
    pub fn new(manager: &mut StateManager<T>, value: T) -> (r: State<T>)
        requires
            old(manager).next() < u64::MAX,
        ensures
            r.slot() == old(manager).next(),
            r.listeners() == Seq::<u64>::empty(),
            final(manager).next() == old(manager).next() + 1,
            final(manager).slots() == declare_slots(old(manager).slots(), r.slot(), value),
    {
        let id = manager.id;
        manager.id = id + 1;
        if !manager.states.contains_key(&id) {
            manager.states.insert(id, value);
        }
        State { id, subscribers: Vec::new(), marker: PhantomData }
    }

    pub fn id(&self) -> (r: u64)
        ensures
            r == self.slot(),
    {
        self.id
    }

    /// The current value of the slot.
    pub fn value<'a>(&self, manager: &'a StateManager<T>) -> (r: &'a T)
        requires
            manager.slots().contains_key(self.slot()),
        ensures
            *r == manager.slots()[self.slot()],
    {
        manager.states.get(&self.id).unwrap()
    }

    /// Registers a subscriber, told of every later change.
    pub fn subscribe(&mut self, subscriber: u64)
        ensures
            final(self).slot() == old(self).slot(),
            final(self).listeners() == old(self).listeners().push(subscriber),
    {
        self.subscribers.push(subscriber);
    }

    /// The subscribers to tell of a change, in the order they subscribed.
    pub fn notify(&self) -> (r: Vec<u64>)
        ensures
            r@ == self.listeners(),
    {
        let mut r: Vec<u64> = Vec::new();
        let mut i: usize = 0;
        while i < self.subscribers.len()
            invariant
                0 <= i <= self.subscribers@.len(),
                r@ == self.subscribers@.take(i as int),
            decreases self.subscribers@.len() - i,
        {
            r.push(self.subscribers[i]);
            i = i + 1;
            assert(r@ =~= self.subscribers@.take(i as int));
        }
        assert(self.subscribers@.take(i as int) =~= self.subscribers@);
        r
    }
}

/// Applies `f` to the value in the slot of `state`, writes the result back at
/// once, and returns the subscribers to tell of the change.
pub fn callback<T, F: FnOnce(T) -> T>(state: &State<T>, manager: &mut StateManager<T>, f: F) -> (r: Vec<u64>)
    requires
        old(manager).slots().contains_key(state.slot()),
        f.requires((old(manager).slots()[state.slot()],)),
    ensures
        f.ensures((old(manager).slots()[state.slot()],), final(manager).slots()[state.slot()]),
        final(manager).slots() == old(manager).slots().insert(state.slot(), final(manager).slots()[state.slot()]),
        final(manager).next() == old(manager).next(),
        r@ == state.listeners(),
{
    let current = manager.states.remove(&state.id).unwrap();
    let changed = f(current);
    manager.states.insert(state.id, changed);
    assert(manager.states@ =~= old(manager).states@.insert(state.id, manager.states@[state.id]));
    state.notify()
}

/// Declaring a state slot at the start of a build, changing its value through
/// the handle, then starting a new build and declaring again in the same order
/// gives a handle on the same slot, holding the changed value rather than
/// either initial value. Each step is stated by the contract of the operation
/// that performs it: `State::new`, `callback`, `reset_id`, `State::new`.
pub proof fn lemma_state_persists<T>(
    m0: StateManager<T>,
    m1: StateManager<T>,
    m2: StateManager<T>,
    m3: StateManager<T>,
    m4: StateManager<T>,
    first: State<T>,
    again: State<T>,
    initial: T,
    changed: T,
    initial_again: T,
)
    requires
        m0.next() == 0,
        first.slot() == m0.next(),
        m1.next() == m0.next() + 1,
        m1.slots() == declare_slots(m0.slots(), first.slot(), initial),
        m2.slots() == m1.slots().insert(first.slot(), changed),
        m3.slots() == m2.slots(),
        m3.next() == 0,
        again.slot() == m3.next(),
        m4.slots() == declare_slots(m3.slots(), again.slot(), initial_again),
    ensures
        again.slot() == first.slot(),
        m4.slots().contains_key(again.slot()),
        m4.slots()[again.slot()] == changed,
{
}

} // verus!
