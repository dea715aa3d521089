//! A reactive data layer over a persistent, identity-stable tree.
//!
//! Observers subscribe to single logical nodes of a versioned tree and are
//! notified only when the node they track was reinstantiated or vanished.
//!
//! - [`state::State`] is the persistent container: snapshots are shared,
//!   and a mutation builds anew only the target and its ancestors.
//! - [`event::MutationEvent`] is a deferred mutation, bound to the instance
//!   it was computed against.
//! - [`observer::Observer`] holds the node that an actor was last told of,
//!   and the passes in that module find out who is to be told anew.
//! - [`manager::MutationManager`] owns the live container and the
//!   observers; it applies requests and says whom to notify of what.
//! - [`tree::Tree`] is the model that the contracts are stated over, and
//!   [`laws`] holds what is proved of every mutation and every pass.

pub mod ident;
pub mod tree;
pub mod rewrite;
pub mod node;
pub mod violation;
pub mod state;
pub mod event;
pub mod observer;
pub mod manager;
pub mod laws;

pub use crate::event::{configure_observer, mutate, ConfigureObserver, DynUpdateEvent, MutationEvent};
pub use crate::manager::MutationManager;
