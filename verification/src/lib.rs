//! A verified task runtime and its lock-free-style ready queue.
//!
//! The crate has two tightly coupled cores: an unbounded FIFO segment queue
//! built from fixed-size blocks (`queue`), and a reference-counted task
//! runtime (`runnable`) whose life cycle is tracked in a single packed state
//! word (`state`, `flags`).  Around them stand the task builder (`builder`),
//! the joinable handle (`handle`), the allocation-layout arithmetic
//! (`layout`), and a few plain data types that the surrounding engine
//! exchanges with the runtime.

use vstd::prelude::*;

pub mod builder;
pub mod component;
pub mod error;
pub mod errors;
pub mod flags;
pub mod handle;
pub mod layout;
pub mod listeners;
pub mod net;
pub mod queue;
pub mod runnable;
pub mod small_vec;
pub mod state;
pub mod window;

verus! {

/// Marker bound for schedulers; the runtime's extension point is sealed so
/// that `Schedule` keeps a closed set of obligations.
pub trait Sealed {
}

/// The contract a scheduler fulfils: accept one runnable task and make it
/// reachable to some worker.  A scheduler that drops the task stalls it
/// forever; the runtime itself never retries.
pub trait Schedule: Sealed {
    fn schedule(&mut self, runnable: crate::runnable::Task);
}

/// Width and height of a drawable region, in pixels.
#[derive(Clone, Copy, Debug, PartialEq, Eq, Structural)]
pub struct Dimensions {
    pub width: u32,
    pub height: u32,
}

/// Placeholder for the engine's asset store; the runtime never reads it.
pub struct Assets;

} // verus!
