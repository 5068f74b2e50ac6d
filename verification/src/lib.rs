//! A data-driven finite-state-machine engine.
//!
//! A [`graph::StateGraph`] holds named states and, for each state, its exits:
//! guarded transitions to other states, each with a batch of actions. It is
//! built once and then shared, read-only, by any number of running
//! instances. An [`entity::EntityState`] is one such instance: a handle to
//! its graph and the id of its current state.
//!
//! A step ([`step`]) takes the first exit of the current state whose
//! condition holds and hands that exit's actions back to the caller. The
//! engine runs no action itself and knows nothing of what a condition looks
//! at; conditions and actions are the caller's types.
//!
//! For tools that draw graphs, [`export`] lists a graph's edges and [`dot`]
//! writes it out as text; [`lines`] shows that the text can be read back.
pub mod dot;
pub mod entity;
pub mod export;
pub mod graph;
pub mod lines;
pub mod step;
pub mod step_laws;
