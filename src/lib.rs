//! A verified layout, drawing and event-dispatch core for declarative view trees.
//!
//! A tree of [`view::Node`]s is rebuilt every frame. [`view::Node::layout`] gives
//! every visible node its size and absolute origin, [`view::Node::draw`] turns the
//! laid-out tree into canvas commands, and [`view::Node::mouse_down`] reports the
//! actions a pointer press fires. [`state::StateManager`] keeps application state
//! across rebuilds, keyed by declaration order.
use vstd::prelude::*;

pub mod draw;
pub mod event;
pub mod geometry;
pub mod laws;
pub mod range;
pub mod layout;
pub mod sequence;
pub mod state;
pub mod tree;
pub mod view;

verus! {

} // verus!
