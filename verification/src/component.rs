//! The render-context data that components receive from the engine; the
//! runtime only carries it through.

use vstd::prelude::*;

verus! {

/// The state a component may read and mutate while drawing.
pub struct RenderContext<S> {
    pub state: S,
}

impl<S> RenderContext<S> {
    /// Wraps the engine state for a draw pass.
    pub fn new(state: S) -> (r: RenderContext<S>)
        ensures
            r.state == state,
    {
        RenderContext { state }
    }
}

} // verus!
