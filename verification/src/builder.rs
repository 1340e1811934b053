//! Building a task: caller-supplied metadata, a small tag word, and the
//! spawn that turns a computation into a runnable reference plus a handle.

use crate::runnable::{Computation, Executor, Handle, Task};
use vstd::prelude::*;

verus! {

/// The trait for tagging a task: anything that fits into a 16-bit word can
/// ride along in the task's header and atomically indicate extra states or
/// metadata.  Primitives below 16 bits implement it; each impl pins the
/// word its values ride as via `spec_into_u16`.
pub trait Tag: Sized {
    spec fn spec_into_u16(self) -> u16;

    fn from_u16(val: u16) -> Self;

    fn into_u16(self) -> (r: u16)
        ensures
            r == self.spec_into_u16(),
    ;
}

impl Tag for u8 {
    open spec fn spec_into_u16(self) -> u16 {
        self as u16
    }

    fn from_u16(val: u16) -> Self {
        #[verifier::truncate]
        (val as u8)
    }

    fn into_u16(self) -> u16 {
        self as u16
    }
}

impl Tag for u16 {
    open spec fn spec_into_u16(self) -> u16 {
        self
    }

    fn from_u16(val: u16) -> Self {
        val
    }

    fn into_u16(self) -> u16 {
        self
    }
}

impl Tag for i8 {
    open spec fn spec_into_u16(self) -> u16 {
        self as u16
    }

    fn from_u16(val: u16) -> Self {
        #[verifier::truncate]
        (val as i8)
    }

    fn into_u16(self) -> u16 {
        #[verifier::truncate]
        (self as u16)
    }
}

impl Tag for i16 {
    open spec fn spec_into_u16(self) -> u16 {
        self as u16
    }

    fn from_u16(val: u16) -> Self {
        #[verifier::truncate]
        (val as i16)
    }

    fn into_u16(self) -> u16 {
        #[verifier::truncate]
        (self as u16)
    }
}

impl Tag for () {
    open spec fn spec_into_u16(self) -> u16 {
        0
    }

    fn from_u16(_val: u16) -> Self {
    }

    fn into_u16(self) -> u16 {
        0
    }
}

/// A task under construction: metadata and tag are picked first, then a
/// computation is spawned with them.
pub struct Builder<M, E> {
    pub metadata: M,
    pub tag: E,
}

impl Builder<(), ()> {
    /// A builder with no metadata and no tag.
    pub fn new() -> (r: Builder<(), ()>)
        ensures
            r.metadata == (),
            r.tag == (),
    {
        Builder { metadata: (), tag: () }
    }

    /// Attaches metadata; the tag stays empty.
    pub fn metadata<M>(self, metadata: M) -> (r: Builder<M, ()>)
        ensures
            r.metadata == metadata,
            r.tag == (),
    {
        Builder { metadata, tag: () }
    }

    /// Attaches metadata; the tag stays empty.
    pub fn with_metadata<M>(self, metadata: M) -> (r: Builder<M, ()>)
        ensures
            r.metadata == metadata,
            r.tag == (),
    {
        Builder { metadata, tag: () }
    }
}

impl<M> Builder<M, ()> {
    /// Attaches a tag.
    pub fn tag<E>(self, tag: E) -> (r: Builder<M, E>)
        ensures
            r.tag == tag,
            r.metadata == self.metadata,
    {
        Builder { tag, metadata: self.metadata }
    }
}

impl<M, E: Tag> Builder<M, E> {
    /// Allocates one task on the executor for `computation`, initially
    /// scheduled and owned by the returned handle; the runnable reference
    /// comes back for the caller to hand to the scheduler.
    pub fn spawn<C: Computation<T>, T>(self, computation: C, exec: &mut Executor<C, T, M>) -> (r: (
        Task,
        Handle<T>,
    ))
        requires
            old(exec).wf(),
        ensures
            final (exec).wf(),
            final (exec).num_tasks() == old(exec).num_tasks() + 1,
            r.0.spec_id() == old(exec).num_tasks(),
            r.1.spec_id() == old(exec).num_tasks(),
            final (exec).task_state(old(exec).num_tasks()) == (crate::state::State {
                reference_count: 1,
                flags: crate::flags::SCHEDULED | crate::flags::HANDLE_HERE,
            }),
            final (exec).task_computation(old(exec).num_tasks()) == Some(computation),
            final (exec).task_result(old(exec).num_tasks()) is None,
            final (exec).task_metadata(old(exec).num_tasks()) == self.metadata,
            final (exec).task_tag(old(exec).num_tasks()) == self.tag.spec_into_u16(),
            forall|j: int|
                0 <= j < old(exec).num_tasks() ==> final (exec).same_task(&*old(exec), j),
            final (exec).ready_ids() == old(exec).ready_ids(),
            !final (exec).ready_ids().contains(old(exec).num_tasks() as usize),
            final (exec).spec_has_headroom() == old(exec).spec_has_headroom(),
    {
        let Builder { metadata, tag } = self;
        exec.spawn_with(computation, metadata, tag.into_u16())
    }
}

} // verus!
