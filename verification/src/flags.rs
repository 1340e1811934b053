//! The life-cycle flag bits of the packed task state, and the queries a
//! task's observers ask of them.
//!
//! One canonical flag set serves the whole runtime: a task is SCHEDULED while
//! exactly one runnable reference to it is outstanding, RUNNING only inside a
//! poll, COMPLETED once its result is stored, CLOSED once no further poll may
//! observe it, TAKEN once the owner has extracted the result, and
//! HANDLE_HERE while the owner-facing handle is still alive.

use vstd::prelude::*;

verus! {

pub const SCHEDULED: u32 = 1 << 0;

pub const RUNNING: u32 = 1 << 1;

pub const COMPLETED: u32 = 1 << 2;

pub const CLOSED: u32 = 1 << 3;

pub const TAKEN: u32 = 1 << 5;

pub const HANDLE_HERE: u32 = 1 << 6;

impl crate::state::State {
    pub open spec fn spec_is_completed(&self) -> bool {
        self.flags & COMPLETED != 0
    }

    pub open spec fn spec_is_closed(&self) -> bool {
        self.flags & CLOSED != 0
    }

    pub open spec fn spec_is_scheduled(&self) -> bool {
        self.flags & SCHEDULED != 0
    }

    pub open spec fn spec_is_running(&self) -> bool {
        self.flags & RUNNING != 0
    }

    pub open spec fn spec_has_been_taken(&self) -> bool {
        self.flags & TAKEN != 0
    }

    pub open spec fn spec_has_valid_handle(&self) -> bool {
        self.flags & HANDLE_HERE != 0
    }

    /// Whether the task's result has been stored.
    pub fn is_completed(&self) -> (r: bool)
        ensures
            r == self.spec_is_completed(),
    {
        self.has_flag_set(COMPLETED)
    }

    /// Whether the task may no longer be polled.
    pub fn is_closed(&self) -> (r: bool)
        ensures
            r == self.spec_is_closed(),
    {
        self.has_flag_set(CLOSED)
    }

    /// Whether a runnable reference to the task is outstanding.
    pub fn is_scheduled(&self) -> (r: bool)
        ensures
            r == self.spec_is_scheduled(),
    {
        self.has_flag_set(SCHEDULED)
    }

    /// Whether a poll of the task is in progress.
    pub fn is_running(&self) -> (r: bool)
        ensures
            r == self.spec_is_running(),
    {
        self.has_flag_set(RUNNING)
    }

    /// Whether the owner has already taken the result out.
    pub fn has_been_taken(&self) -> (r: bool)
        ensures
            r == self.spec_has_been_taken(),
    {
        self.has_flag_set(TAKEN)
    }

    /// Whether the owner-facing handle is still alive.
    pub fn has_valid_handle(&self) -> (r: bool)
        ensures
            r == self.spec_has_valid_handle(),
    {
        self.has_flag_set(HANDLE_HERE)
    }
}

} // verus!
