//! Identifiers the event-loop layer exchanges with the runtime: a
//! registration token and an interest set.

use vstd::prelude::*;

verus! {

/// Identifies one registration with the event loop.
pub struct Token(pub usize);

/// Which readiness events a registration asks for; the lowest bit is
/// readable interest, and an empty set is never registered.
pub struct Interest(pub u8);

} // verus!
