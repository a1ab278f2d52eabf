//! A reactive update engine: mutable cells whose changes reach registered
//! effects through wake tokens, a single-pass cooperative scheduler, scopes
//! that tie effects to the nodes of a scene graph, and a deadline-ordered
//! timer registry.
//!
//! Every piece of state has one owner. Whatever must be woken is handed back
//! to the caller as a list of [`poll::Waker`] tokens, in the order in which
//! the wake-ups happen.

pub mod effect;
pub mod events;
pub mod interval;
pub mod poll;
pub mod scope;
pub mod seqs;
pub mod signal;
pub mod time;
pub mod widget;
pub mod world;
