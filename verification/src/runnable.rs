//! The task runtime: runnable references, the executor that owns every task
//! allocation, and the owner-facing handle.
//!
//! One allocation per task carries the packed state word, the caller's
//! metadata and tag, and a union slot that holds first the in-progress
//! computation and later its result; the flags alone say which half is
//! valid.  Concurrent use reaches such an allocation through a
//! function-pointer vtable behind a raw pointer; here the executor owns the
//! allocations and a `Task` or `Handle` is the type-erased capability into
//! one of them.  Every life-cycle transition below is one compare-and-swap
//! on the packed word, collapsed to a single load/store under exclusive
//! access.

use crate::flags::{CLOSED, COMPLETED, HANDLE_HERE, RUNNING, SCHEDULED, TAKEN};
use crate::queue::ConcurrentQueue;
use crate::state::{AtomicState, State};
use vstd::prelude::*;

verus! {

/// A capability to run or re-schedule one task exactly once.  One `Task` is
/// produced per became-runnable event and must be consumed (run or handed
/// to a scheduler) exactly once; ownership enforces that it is never
/// duplicated.
pub struct Task {
    pub(crate) id: usize,
}

impl Task {
    /// The task allocation this capability refers to.
    pub closed spec fn spec_id(&self) -> usize {
        self.id
    }
}

/// What one poll of a task reported to the worker: the task is finished
/// with (completed or cancelled), or parked awaiting a wake.
#[derive(Clone, Copy, Debug, PartialEq, Eq, Structural)]
pub enum RawPoll {
    Complete,
    Pending,
}

/// A captured computation panic, deferred until the owner observes the
/// result through the handle.
pub struct Panic {
    pub message: String,
}

/// What one resume step of a computation produced: a final value, a yield,
/// a yield with the waker already invoked (the task must be polled again),
/// or a panic that the embedding caught around the step.
pub enum Step<T> {
    Ready(T),
    Pending,
    PendingWoke,
    Panicked(String),
}

/// The computation contract: a single-threaded, resumable computation that
/// advances one step per call — poll once, return either a final value or
/// "not yet".  Implementors decide each step's outcome; the runtime promises
/// nothing about it and is verified for every outcome.
pub trait Computation<T> {
    fn step(&mut self) -> Step<T>;
}

/// One task's allocation: header fields, then the scheduler-facing tag and
/// metadata, then the computation/result union, modelled as two options of
/// which the state flags let at most one be occupied.
struct TaskCell<C, T, M> {
    state: AtomicState,
    metadata: M,
    tag: u16,
    computation: Option<C>,
    result: Option<Result<T, Panic>>,
}

/// The state after a wake fires on an idle, pending task: one new runnable
/// reference, now scheduled.
pub open spec fn spec_wake(s: State) -> State {
    State { reference_count: (s.reference_count + 1) as u32, flags: s.flags | SCHEDULED }
}

/// Whether a wake of a task in state `s` schedules it: not on a completed
/// or closed task, and not on one already scheduled — wakes coalesce.
pub open spec fn spec_wake_fires(s: State) -> bool {
    !s.spec_is_completed() && !s.spec_is_closed() && !s.spec_is_scheduled()
}

/// The state after a poll found the task closed: the runnable reference is
/// consumed and the schedule request cleared; the computation is gone.
pub open spec fn spec_run_closed(s: State) -> State {
    State { reference_count: (s.reference_count - 1) as u32, flags: s.flags & !SCHEDULED }
}

/// The state after a poll completed the task: the runnable reference is
/// consumed, the result is stored, and a task nobody holds a handle to is
/// closed at once (its result is dropped unobserved).
pub open spec fn spec_run_completed(s: State) -> State {
    State {
        reference_count: (s.reference_count - 1) as u32,
        flags: if s.spec_has_valid_handle() {
            (s.flags & !(SCHEDULED | RUNNING)) | COMPLETED
        } else {
            (s.flags & !(SCHEDULED | RUNNING)) | COMPLETED | CLOSED
        },
    }
}

/// The state after a poll parked the task: the runnable reference is
/// consumed and nothing is scheduled until a wake arrives.
pub open spec fn spec_run_pending(s: State) -> State {
    State { reference_count: (s.reference_count - 1) as u32, flags: s.flags & !(SCHEDULED | RUNNING) }
}

/// The state after a poll whose computation woke itself: the runnable
/// reference carries over to the re-schedule.
pub open spec fn spec_run_woke(s: State) -> State {
    State { reference_count: s.reference_count, flags: (s.flags & !RUNNING) | SCHEDULED }
}

/// Finishing a poll whose step completed, from the mid-poll state `s`: the
/// runnable reference is consumed, and a task nobody holds a handle to is
/// closed at once.
pub open spec fn spec_finish_completed(s: State) -> State {
    State {
        reference_count: (s.reference_count - 1) as u32,
        flags: if s.spec_has_valid_handle() {
            (s.flags & !RUNNING) | COMPLETED
        } else {
            (s.flags & !RUNNING) | COMPLETED | CLOSED
        },
    }
}

/// Finishing a poll whose step yielded, from the mid-poll state `s`: the
/// task parks and the runnable reference is consumed.
pub open spec fn spec_finish_pending(s: State) -> State {
    State { reference_count: (s.reference_count - 1) as u32, flags: s.flags & !RUNNING }
}

/// Finishing a poll whose step woke itself, from the mid-poll state `s`:
/// the runnable reference carries straight over to the re-schedule.
pub open spec fn spec_finish_woke(s: State) -> State {
    State { reference_count: s.reference_count, flags: (s.flags & !RUNNING) | SCHEDULED }
}

/// The executor: owner of every task allocation and of the ready queue that
/// scheduled tasks wait on.  Workers pop a task and run it; wakes push one.
/// The computation type `C`, its output `T` and the caller's metadata `M`
/// are fixed per executor, as type erasure fixes them per allocation.
pub struct Executor<C, T, M> {
    cells: Vec<TaskCell<C, T, M>>,
    ready: ConcurrentQueue<Task>,
}

impl<C, T, M> Executor<C, T, M> {
    /// How many tasks have been allocated over the executor's lifetime.
    pub closed spec fn num_tasks(&self) -> int {
        self.cells.len() as int
    }

    /// Task `id`'s packed state.
    pub closed spec fn task_state(&self, id: int) -> State {
        self.cells[id].state@
    }

    /// Task `id`'s in-progress computation, while it owns one.
    pub closed spec fn task_computation(&self, id: int) -> Option<C> {
        self.cells[id].computation
    }

    /// Task `id`'s stored result, while one is present and unobserved.
    pub closed spec fn task_result(&self, id: int) -> Option<Result<T, Panic>> {
        self.cells[id].result
    }

    /// Task `id`'s caller-supplied metadata.
    pub closed spec fn task_metadata(&self, id: int) -> M {
        self.cells[id].metadata
    }

    /// Task `id`'s tag word.
    pub closed spec fn task_tag(&self, id: int) -> u16 {
        self.cells[id].tag
    }

    /// The ids waiting in the ready queue, oldest first.
    pub closed spec fn ready_ids(&self) -> Seq<usize> {
        self.ready@.map_values(|t: Task| t.id)
    }

    /// Whether the ready queue's index word can still take a push.
    pub closed spec fn spec_has_headroom(&self) -> bool {
        self.ready.spec_has_headroom()
    }

    /// How many schedules the ready queue has taken over the executor's
    /// lifetime; what the index-word headroom is measured against.
    pub closed spec fn spec_schedule_count(&self) -> int {
        self.ready.spec_pushed()
    }

    /// Task `id` is exactly as in `other`.
    pub open spec fn same_task(&self, other: &Executor<C, T, M>, id: int) -> bool {
        &&& self.task_state(id) == other.task_state(id)
        &&& self.task_computation(id) == other.task_computation(id)
        &&& self.task_result(id) == other.task_result(id)
        &&& self.task_metadata(id) == other.task_metadata(id)
        &&& self.task_tag(id) == other.task_tag(id)
    }

    /// One allocation's invariant: at rest nothing is mid-poll, the
    /// reference count counts exactly the outstanding runnable reference,
    /// and the union slot's occupancy follows the flags — the computation
    /// until completion or collection, the result from completion until it
    /// is taken or the task is closed.
    spec fn cell_inv(c: TaskCell<C, T, M>) -> bool {
        let s = c.state@;
        &&& !s.spec_is_running()
        &&& s.reference_count == (if s.spec_is_scheduled() {
            1int
        } else {
            0int
        })
        &&& (c.computation is Some <==> !s.spec_is_completed() && (!s.spec_is_closed()
            || s.spec_is_scheduled()))
        &&& (c.result is Some <==> s.spec_is_completed() && !s.spec_is_closed())
        &&& (s.spec_is_completed() ==> !s.spec_is_scheduled())
        &&& (s.spec_is_completed() && !s.spec_has_valid_handle() ==> s.spec_is_closed())
        &&& (s.spec_has_been_taken() ==> s.spec_is_closed() && s.spec_is_completed())
    }

    /// The executor's invariant: every allocation is well-formed, the ready
    /// queue is open and holds only scheduled tasks, and no task waits in it
    /// twice.
    pub closed spec fn wf(&self) -> bool {
        &&& self.ready.wf()
        &&& !self.ready.spec_closed()
        &&& forall|i: int| 0 <= i < self.cells.len() ==> Self::cell_inv(#[trigger] self.cells[i])
        &&& forall|k: int|
            0 <= k < self.ready@.len() ==> (#[trigger] self.ready@[k]).id < self.cells.len()
                && self.cells[self.ready@[k].id as int].state@.spec_is_scheduled()
        &&& forall|k1: int, k2: int|
            0 <= k1 < k2 < self.ready@.len() ==> (#[trigger] self.ready@[k1]).id != (
            #[trigger] self.ready@[k2]).id
    }

    /// Like `wf`, but task `id` is mid-poll: the scheduled state has been
    /// left, the running flag is up, and the computation is in the polling
    /// worker's hands.  `Task::begin_poll` establishes this shape and
    /// `apply_step` restores `wf` from it; every other operation requires
    /// `wf` and so cannot run while a poll is open.
    pub closed spec fn wf_mid_poll(&self, id: int) -> bool {
        &&& self.ready.wf()
        &&& !self.ready.spec_closed()
        &&& 0 <= id < self.cells.len()
        &&& forall|i: int|
            0 <= i < self.cells.len() && i != id ==> Self::cell_inv(#[trigger] self.cells[i])
        &&& ({
            let c = self.cells[id];
            let s = c.state@;
            &&& s.spec_is_running()
            &&& !s.spec_is_scheduled()
            &&& !s.spec_is_completed()
            &&& !s.spec_is_closed()
            &&& !s.spec_has_been_taken()
            &&& s.reference_count == 1
            &&& c.computation is None
            &&& c.result is None
        })
        &&& forall|k: int|
            0 <= k < self.ready@.len() ==> (#[trigger] self.ready@[k]).id < self.cells.len()
                && self.cells[self.ready@[k].id as int].state@.spec_is_scheduled()
        &&& forall|k1: int, k2: int|
            0 <= k1 < k2 < self.ready@.len() ==> (#[trigger] self.ready@[k1]).id != (
            #[trigger] self.ready@[k2]).id
    }

    /// A fresh executor with no tasks.
    pub fn new() -> (r: Executor<C, T, M>)
        ensures
            r.wf(),
            r.num_tasks() == 0,
            r.ready_ids() == Seq::<usize>::empty(),
            r.spec_schedule_count() == 0,
            r.spec_has_headroom(),
    {
        let r = Executor { cells: Vec::new(), ready: ConcurrentQueue::unbounded() };
        proof {
            assert(r.ready_ids() =~= Seq::<usize>::empty());
        }
        r
    }

    /// Whether the ready queue's index word can still take a push; false
    /// only after about `2^61` schedules.
    pub fn has_headroom(&self) -> (r: bool)
        ensures
            r == self.spec_has_headroom(),
    {
        self.ready.has_headroom()
    }

    /// Headroom holds while the lifetime schedule count stays below an
    /// eighth of the index space, so chains of spawns, wakes and polls need
    /// no runtime headroom test until then.
    pub proof fn lemma_headroom(&self)
        requires
            self.wf(),
            self.spec_schedule_count() < usize::MAX as int / 8,
        ensures
            self.spec_has_headroom(),
    {
        self.ready.lemma_headroom();
    }

    /// Allocates one task: header initialized to one runnable reference,
    /// scheduled, with a live handle; the computation embedded; no result.
    /// Returns the runnable reference and the owner's handle.
    pub(crate) fn spawn_with(&mut self, computation: C, metadata: M, tag: u16) -> (r: (
        Task,
        Handle<T>,
    ))
        requires
            old(self).wf(),
        ensures
            final (self).wf(),
            final (self).num_tasks() == old(self).num_tasks() + 1,
            r.0.spec_id() == old(self).num_tasks(),
            r.1.spec_id() == old(self).num_tasks(),
            final (self).task_state(old(self).num_tasks()) == (State {
                reference_count: 1,
                flags: SCHEDULED | HANDLE_HERE,
            }),
            final (self).task_computation(old(self).num_tasks()) == Some(computation),
            final (self).task_result(old(self).num_tasks()) is None,
            final (self).task_metadata(old(self).num_tasks()) == metadata,
            final (self).task_tag(old(self).num_tasks()) == tag,
            forall|j: int|
                0 <= j < old(self).num_tasks() ==> final (self).same_task(&*old(self), j),
            final (self).ready_ids() == old(self).ready_ids(),
            !final (self).ready_ids().contains(old(self).num_tasks() as usize),
            final (self).spec_has_headroom() == old(self).spec_has_headroom(),
            final (self).spec_schedule_count() == old(self).spec_schedule_count(),
    {
        let id = self.cells.len();
        let initial = State { reference_count: 1, flags: SCHEDULED | HANDLE_HERE };
        let cell = TaskCell {
            state: AtomicState::new(initial),
            metadata,
            tag,
            computation: Some(computation),
            result: None,
        };
        self.cells.push(cell);
        proof {
            if self.ready_ids().contains(id) {
                let k = choose|k: int|
                    0 <= k < self.ready_ids().len() && self.ready_ids()[k] == id;
                assert(self.ready@[k].id == id);
            }
            assert((SCHEDULED | HANDLE_HERE) & RUNNING == 0 && (SCHEDULED | HANDLE_HERE) & SCHEDULED
                != 0 && (SCHEDULED | HANDLE_HERE) & COMPLETED == 0 && (SCHEDULED | HANDLE_HERE)
                & CLOSED == 0 && (SCHEDULED | HANDLE_HERE) & TAKEN == 0 && (SCHEDULED | HANDLE_HERE)
                & HANDLE_HERE != 0) by (bit_vector);
        }
        (Task { id }, Handle { id, _marker: core::marker::PhantomData })
    }
}

impl<C, T, M> Executor<C, T, M> {
    /// Wakes task `id`: a no-op on a completed, closed or already scheduled
    /// task (wakes coalesce — at most one pending schedule per poll cycle);
    /// otherwise the task takes one new runnable reference and is pushed to
    /// the ready queue at once.
    pub fn wake(&mut self, id: usize)
        requires
            old(self).wf(),
            id < old(self).num_tasks(),
            old(self).spec_has_headroom(),
        ensures
            final (self).wf(),
            final (self).num_tasks() == old(self).num_tasks(),
            forall|j: int|
                0 <= j < old(self).num_tasks() && j != id ==> final (self).same_task(
                    &*old(self),
                    j,
                ),
            final (self).task_computation(id as int) == old(self).task_computation(id as int),
            final (self).task_result(id as int) == old(self).task_result(id as int),
            final (self).task_metadata(id as int) == old(self).task_metadata(id as int),
            final (self).task_tag(id as int) == old(self).task_tag(id as int),
            spec_wake_fires(old(self).task_state(id as int)) ==> final (self).task_state(id as int)
                == spec_wake(old(self).task_state(id as int)) && final (self).ready_ids() == old(
                self,
            ).ready_ids().push(id) && final (self).spec_schedule_count() == old(
                self,
            ).spec_schedule_count() + 1,
            !spec_wake_fires(old(self).task_state(id as int)) ==> final (self).task_state(
                id as int,
            ) == old(self).task_state(id as int) && final (self).ready_ids() == old(
                self,
            ).ready_ids() && final (self).spec_schedule_count() == old(self).spec_schedule_count(),
    {
        let ghost pre = *old(self);
        let s = self.cells[id].state.load();
        if s.is_completed() || s.is_closed() {
            return ;
        }
        if s.is_scheduled() {
            // Wakes coalesce: the pending schedule already covers this one.
            return ;
        }
        let mut cell = self.cells.remove(id);
        let s2 = s.set_flag(SCHEDULED).increment_reference_count();
        cell.state.store(s2);
        self.cells.insert(id, cell);
        proof {
            assert(self.cells@ =~= pre.cells@.update(id as int, self.cells@[id as int]));
            let f = s.flags;
            assert((f | SCHEDULED) & SCHEDULED != 0 && (f | SCHEDULED) & RUNNING == f & RUNNING && (
            f | SCHEDULED) & COMPLETED == f & COMPLETED && (f | SCHEDULED) & CLOSED == f & CLOSED
                && (f | SCHEDULED) & TAKEN == f & TAKEN && (f | SCHEDULED) & HANDLE_HERE == f
                & HANDLE_HERE) by (bit_vector);
            assert forall|k: int| 0 <= k < pre.ready@.len() implies (#[trigger] pre.ready@[k]).id
                != id by {
                assert(pre.cells@[pre.ready@[k].id as int].state@.spec_is_scheduled());
            }
        }
        match self.ready.push(Task { id }) {
            Ok(()) => {
                proof {
                    assert(self.ready_ids() =~= pre.ready_ids().push(id));
                    assert forall|k1: int, k2: int|
                        0 <= k1 < k2 < self.ready@.len() implies (#[trigger] self.ready@[k1]).id
                        != (#[trigger] self.ready@[k2]).id by {
                        if k2 == self.ready@.len() - 1 {
                            assert(pre.ready@[k1].id != id);
                        }
                    }
                }
            },
            Err(_) => {
                proof {
                    assert(false);
                }
            },
        }
    }

    /// Takes the oldest ready task off the queue for a worker to run, if
    /// one is waiting.
    pub fn pop_task(&mut self) -> (r: Option<Task>)
        requires
            old(self).wf(),
        ensures
            final (self).wf(),
            final (self).num_tasks() == old(self).num_tasks(),
            forall|j: int| 0 <= j < old(self).num_tasks() ==> final (self).same_task(&*old(self), j),
            final (self).spec_has_headroom() == old(self).spec_has_headroom(),
            final (self).spec_schedule_count() == old(self).spec_schedule_count(),
            old(self).ready_ids().len() == 0 ==> r is None && final (self).ready_ids() == old(
                self,
            ).ready_ids(),
            old(self).ready_ids().len() > 0 ==> {
                &&& r is Some
                &&& r.unwrap().spec_id() == old(self).ready_ids()[0]
                &&& r.unwrap().spec_id() < old(self).num_tasks()
                &&& final (self).task_state(r.unwrap().spec_id() as int).spec_is_scheduled()
                &&& final (self).ready_ids() == old(self).ready_ids().subrange(
                    1,
                    old(self).ready_ids().len() as int,
                )
                &&& !final (self).ready_ids().contains(r.unwrap().spec_id())
            },
    {
        let ghost pre = *old(self);
        match self.ready.pop() {
            Ok(task) => {
                proof {
                    assert(pre.ready_ids()[0] == pre.ready@[0].id);
                    assert(self.ready_ids() =~= pre.ready_ids().subrange(
                        1,
                        pre.ready_ids().len() as int,
                    ));
                    assert forall|k: int| 0 <= k < self.ready@.len() implies (
                    #[trigger] self.ready@[k]).id != task.id by {
                        assert(self.ready@[k] == pre.ready@[k + 1]);
                    }
                    if self.ready_ids().contains(task.id) {
                        let k = choose|k: int|
                            0 <= k < self.ready_ids().len() && self.ready_ids()[k] == task.id;
                        assert(self.ready@[k].id == task.id);
                    }
                }
                Some(task)
            },
            Err(_) => {
                proof {
                    pre.ready@.map_values(|t: Task| t.id);
                }
                None
            },
        }
    }

    /// Finishes one poll of task `id`, whose computation — taken out by
    /// `Task::begin_poll` and advanced one step to `computation` — produced
    /// `step`.  This is the poll cycle's decision table, exact for every
    /// outcome: a final value or a captured panic is stored as the result
    /// (and dropped at once when no handle remains to read it) and the poll
    /// reports `Complete`; a yield parks the task with its computation put
    /// back; a yield whose waker already fired puts the computation back
    /// and re-schedules the task at once.
    pub fn apply_step(&mut self, id: usize, computation: C, step: Step<T>) -> (r: RawPoll)
        requires
            old(self).wf_mid_poll(id as int),
            old(self).spec_has_headroom(),
        ensures
            final (self).wf(),
            final (self).num_tasks() == old(self).num_tasks(),
            forall|j: int|
                0 <= j < old(self).num_tasks() && j != id ==> final (self).same_task(
                    &*old(self),
                    j,
                ),
            final (self).task_metadata(id as int) == old(self).task_metadata(id as int),
            final (self).task_tag(id as int) == old(self).task_tag(id as int),
            final (self).task_state(id as int).spec_has_valid_handle() == old(self).task_state(
                id as int,
            ).spec_has_valid_handle(),
            ({
                let s = old(self).task_state(id as int);
                match step {
                    Step::Ready(v) => {
                        &&& r == RawPoll::Complete
                        &&& final (self).task_state(id as int) == spec_finish_completed(s)
                        &&& final (self).task_computation(id as int) is None
                        &&& (s.spec_has_valid_handle() ==> final (self).task_result(id as int)
                            == Some(Ok::<T, Panic>(v)))
                        &&& (!s.spec_has_valid_handle() ==> final (self).task_result(id as int)
                            is None)
                        &&& final (self).ready_ids() == old(self).ready_ids()
                        &&& final (self).spec_schedule_count() == old(self).spec_schedule_count()
                    },
                    Step::Panicked(m) => {
                        &&& r == RawPoll::Complete
                        &&& final (self).task_state(id as int) == spec_finish_completed(s)
                        &&& final (self).task_computation(id as int) is None
                        &&& (s.spec_has_valid_handle() ==> final (self).task_result(id as int)
                            == Some(Err::<T, Panic>(Panic { message: m })))
                        &&& (!s.spec_has_valid_handle() ==> final (self).task_result(id as int)
                            is None)
                        &&& final (self).ready_ids() == old(self).ready_ids()
                        &&& final (self).spec_schedule_count() == old(self).spec_schedule_count()
                    },
                    Step::Pending => {
                        &&& r == RawPoll::Pending
                        &&& final (self).task_state(id as int) == spec_finish_pending(s)
                        &&& final (self).task_computation(id as int) == Some(computation)
                        &&& final (self).task_result(id as int) is None
                        &&& final (self).ready_ids() == old(self).ready_ids()
                        &&& final (self).spec_schedule_count() == old(self).spec_schedule_count()
                    },
                    Step::PendingWoke => {
                        &&& r == RawPoll::Pending
                        &&& final (self).task_state(id as int) == spec_finish_woke(s)
                        &&& final (self).task_computation(id as int) == Some(computation)
                        &&& final (self).task_result(id as int) is None
                        &&& final (self).ready_ids() == old(self).ready_ids().push(id)
                        &&& final (self).spec_schedule_count() == old(self).spec_schedule_count()
                            + 1
                    },
                }
            }),
    {
        let ghost pre = *old(self);
        let mut cell = self.cells.remove(id);
        let s_run = cell.state.load();
        let ghost f = s_run.flags;
        proof {
            assert forall|k: int| 0 <= k < pre.ready@.len() implies (#[trigger] pre.ready@[k]).id
                != id by {
                assert(pre.cells@[pre.ready@[k].id as int].state@.spec_is_scheduled());
            }
        }
        match step {
            Step::Ready(output) => {
                let mut s4 = s_run.clear_flag(RUNNING).set_flag(
                    COMPLETED,
                ).decrement_reference_count();
                if s4.has_valid_handle() {
                    cell.result = Some(Ok(output));
                } else {
                    // No handle remains: the result would never be read.
                    s4 = s4.set_flag(CLOSED);
                }
                cell.state.store(s4);
                self.cells.insert(id, cell);
                proof {
                    assert(self.cells@ =~= pre.cells@.update(id as int, self.cells@[id as int]));
                    let w = (f & !RUNNING) | COMPLETED;
                    assert((w & HANDLE_HERE == f & HANDLE_HERE) && (w & SCHEDULED == f & SCHEDULED)
                        && (w & RUNNING == 0) && (w & COMPLETED != 0) && (w & CLOSED == f & CLOSED)
                        && (w & TAKEN == f & TAKEN) && ((w | CLOSED) & HANDLE_HERE == f
                        & HANDLE_HERE) && ((w | CLOSED) & SCHEDULED == f & SCHEDULED) && ((w
                        | CLOSED) & RUNNING == 0) && ((w | CLOSED) & COMPLETED != 0) && ((w
                        | CLOSED) & CLOSED != 0) && ((w | CLOSED) & TAKEN == f & TAKEN))
                        by (bit_vector)
                        requires
                            w == (f & !RUNNING) | COMPLETED,
                    ;
                }
                RawPoll::Complete
            },
            Step::Panicked(message) => {
                // The embedding caught a panic around the step: store it as
                // the result, to be re-raised only when the owner observes
                // it through the handle.
                let mut s4 = s_run.clear_flag(RUNNING).set_flag(
                    COMPLETED,
                ).decrement_reference_count();
                if s4.has_valid_handle() {
                    cell.result = Some(Err(Panic { message }));
                } else {
                    s4 = s4.set_flag(CLOSED);
                }
                cell.state.store(s4);
                self.cells.insert(id, cell);
                proof {
                    assert(self.cells@ =~= pre.cells@.update(id as int, self.cells@[id as int]));
                    let w = (f & !RUNNING) | COMPLETED;
                    assert((w & HANDLE_HERE == f & HANDLE_HERE) && (w & SCHEDULED == f & SCHEDULED)
                        && (w & RUNNING == 0) && (w & COMPLETED != 0) && (w & CLOSED == f & CLOSED)
                        && (w & TAKEN == f & TAKEN) && ((w | CLOSED) & HANDLE_HERE == f
                        & HANDLE_HERE) && ((w | CLOSED) & SCHEDULED == f & SCHEDULED) && ((w
                        | CLOSED) & RUNNING == 0) && ((w | CLOSED) & COMPLETED != 0) && ((w
                        | CLOSED) & CLOSED != 0) && ((w | CLOSED) & TAKEN == f & TAKEN))
                        by (bit_vector)
                        requires
                            w == (f & !RUNNING) | COMPLETED,
                    ;
                }
                RawPoll::Complete
            },
            Step::Pending => {
                // Park the task; the reference is released and only a wake
                // revives it.
                cell.computation = Some(computation);
                let s3 = s_run.clear_flag(RUNNING).decrement_reference_count();
                cell.state.store(s3);
                self.cells.insert(id, cell);
                proof {
                    assert(self.cells@ =~= pre.cells@.update(id as int, self.cells@[id as int]));
                    let w = f & !RUNNING;
                    assert((w & HANDLE_HERE == f & HANDLE_HERE) && (w & SCHEDULED == f & SCHEDULED)
                        && (w & RUNNING == 0) && (w & COMPLETED == f & COMPLETED) && (w & CLOSED
                        == f & CLOSED) && (w & TAKEN == f & TAKEN)) by (bit_vector)
                        requires
                            w == f & !RUNNING,
                    ;
                }
                RawPoll::Pending
            },
            Step::PendingWoke => {
                // A wake arrived during the poll: the reference carries
                // over and the task goes straight back to the queue.
                cell.computation = Some(computation);
                let s3 = s_run.clear_flag(RUNNING).set_flag(SCHEDULED);
                cell.state.store(s3);
                self.cells.insert(id, cell);
                proof {
                    assert(self.cells@ =~= pre.cells@.update(id as int, self.cells@[id as int]));
                    let w = (f & !RUNNING) | SCHEDULED;
                    assert((w & HANDLE_HERE == f & HANDLE_HERE) && (w & SCHEDULED != 0) && (w
                        & RUNNING == 0) && (w & COMPLETED == f & COMPLETED) && (w & CLOSED == f
                        & CLOSED) && (w & TAKEN == f & TAKEN)) by (bit_vector)
                        requires
                            w == (f & !RUNNING) | SCHEDULED,
                    ;
                }
                match self.ready.push(Task { id }) {
                    Ok(()) => {
                        proof {
                            assert(self.ready_ids() =~= pre.ready_ids().push(id));
                            assert forall|k1: int, k2: int|
                                0 <= k1 < k2 < self.ready@.len() implies (
                            #[trigger] self.ready@[k1]).id != (#[trigger] self.ready@[k2]).id by {
                                if k2 == self.ready@.len() - 1 {
                                    assert(pre.ready@[k1].id != id);
                                }
                            }
                        }
                    },
                    Err(_) => {
                        proof {
                            assert(false);
                        }
                    },
                }
                RawPoll::Pending
            },
        }
    }
}

impl Task {
    /// Runs one poll of the task, consuming this runnable reference.
    ///
    /// A task found closed (cancelled) drops its computation, clears the
    /// schedule request, releases the reference and reports `Complete` —
    /// "already finished".  Otherwise the computation advances one step:
    /// on a final value or a captured panic the result is stored (and
    /// dropped at once when no handle remains to observe it) and the poll
    /// reports `Complete`; on a yield the task parks until a wake arrives;
    /// on a yield whose waker already fired the reference carries over into
    /// an immediate re-schedule.
    pub fn run<C: Computation<T>, T, M>(self, exec: &mut Executor<C, T, M>) -> (r: RawPoll)
        requires
            old(exec).wf(),
            self.spec_id() < old(exec).num_tasks(),
            old(exec).task_state(self.spec_id() as int).spec_is_scheduled(),
            !old(exec).ready_ids().contains(self.spec_id()),
            old(exec).spec_has_headroom(),
        ensures
            final (exec).wf(),
            final (exec).num_tasks() == old(exec).num_tasks(),
            forall|j: int|
                0 <= j < old(exec).num_tasks() && j != self.spec_id() ==> final (exec).same_task(
                    &*old(exec),
                    j,
                ),
            final (exec).task_metadata(self.spec_id() as int) == old(exec).task_metadata(
                self.spec_id() as int,
            ),
            final (exec).task_tag(self.spec_id() as int) == old(exec).task_tag(
                self.spec_id() as int,
            ),
            final (exec).task_state(self.spec_id() as int).spec_has_valid_handle() == old(
                exec,
            ).task_state(self.spec_id() as int).spec_has_valid_handle(),
            ({
                let id = self.spec_id() as int;
                let s = old(exec).task_state(id);
                if s.spec_is_closed() {
                    &&& r == RawPoll::Complete
                    &&& final (exec).task_state(id) == spec_run_closed(s)
                    &&& final (exec).task_computation(id) is None
                    &&& final (exec).task_result(id) == old(exec).task_result(id)
                    &&& final (exec).ready_ids() == old(exec).ready_ids()
                    &&& final (exec).spec_schedule_count() == old(exec).spec_schedule_count()
                } else {
                    ||| {
                        &&& r == RawPoll::Complete
                        &&& final (exec).task_state(id) == spec_run_completed(s)
                        &&& final (exec).task_computation(id) is None
                        &&& (s.spec_has_valid_handle() ==> final (exec).task_result(id) is Some)
                        &&& (!s.spec_has_valid_handle() ==> final (exec).task_result(id) is None)
                        &&& final (exec).ready_ids() == old(exec).ready_ids()
                        &&& final (exec).spec_schedule_count() == old(exec).spec_schedule_count()
                    }
                    ||| {
                        &&& r == RawPoll::Pending
                        &&& final (exec).task_state(id) == spec_run_pending(s)
                        &&& final (exec).task_computation(id) is Some
                        &&& final (exec).task_result(id) is None
                        &&& final (exec).ready_ids() == old(exec).ready_ids()
                        &&& final (exec).spec_schedule_count() == old(exec).spec_schedule_count()
                    }
                    ||| {
                        &&& r == RawPoll::Pending
                        &&& final (exec).task_state(id) == spec_run_woke(s)
                        &&& final (exec).task_computation(id) is Some
                        &&& final (exec).task_result(id) is None
                        &&& final (exec).ready_ids() == old(exec).ready_ids().push(self.spec_id())
                        &&& final (exec).spec_schedule_count() == old(exec).spec_schedule_count()
                            + 1
                    }
                }
            }),
    {
        let ghost pre = *old(exec);
        let id = self.id;
        let s = exec.cells[id].state.load();
        let ghost f = s.flags;
        proof {
            // A scheduled task is neither completed nor taken nor running.
            assert(Executor::<C, T, M>::cell_inv(pre.cells@[id as int]));
        }
        if s.is_closed() {
            // Cancelled before this poll: drop the computation, clear the
            // schedule request, release the reference.
            let mut cell = exec.cells.remove(id);
            cell.computation = None;
            let s2 = s.clear_flag(SCHEDULED).decrement_reference_count();
            cell.state.store(s2);
            exec.cells.insert(id, cell);
            proof {
                assert(exec.cells@ =~= pre.cells@.update(id as int, exec.cells@[id as int]));
                assert forall|k: int| 0 <= k < pre.ready@.len() implies (#[trigger] pre.ready@[k]).id
                    != id by {
                    assert(pre.ready_ids()[k] == pre.ready@[k].id);
                }
                assert(((f & !SCHEDULED) & SCHEDULED == 0) && ((f & !SCHEDULED) & RUNNING == f
                    & RUNNING) && ((f & !SCHEDULED) & COMPLETED == f & COMPLETED) && ((f
                    & !SCHEDULED) & CLOSED == f & CLOSED) && ((f & !SCHEDULED) & TAKEN == f & TAKEN)
                    && ((f & !SCHEDULED) & HANDLE_HERE == f & HANDLE_HERE)) by (bit_vector);
            }
            return RawPoll::Complete;
        }
        // Enter the poll, advance the computation one step, and apply the
        // outcome; `apply_step` carries the exact per-outcome contract.
        let mut computation = self.begin_poll(exec);
        let ghost mid = *exec;
        let step = computation.step();
        let r = exec.apply_step(id, computation, step);
        proof {
            let fm = (f & !SCHEDULED) | RUNNING;
            assert((((fm & !RUNNING) | COMPLETED) == ((f & !(SCHEDULED | RUNNING)) | COMPLETED))
                && ((((fm & !RUNNING) | COMPLETED) | CLOSED) == ((f & !(SCHEDULED | RUNNING))
                | COMPLETED | CLOSED)) && ((fm & !RUNNING) == (f & !(SCHEDULED | RUNNING))) && (((
            fm & !RUNNING) | SCHEDULED) == ((f & !RUNNING) | SCHEDULED)) && ((fm & HANDLE_HERE) == (
            f & HANDLE_HERE))) by (bit_vector)
                requires
                    fm == (f & !SCHEDULED) | RUNNING,
            ;
            assert forall|j: int| 0 <= j < pre.num_tasks() && j != id as int implies exec.same_task(
                &pre,
                j,
            ) by {
                assert(mid.same_task(&pre, j));
                assert(exec.same_task(&mid, j));
            }
        }
        r
    }

    /// Enters one poll of the task, consuming this runnable reference's
    /// claim: the task atomically leaves the scheduled state and is marked
    /// running, and its computation passes to the polling worker.  The poll
    /// is finished by `Executor::apply_step` with the advanced
    /// computation's outcome; no other operation can run in between.
    pub fn begin_poll<C, T, M>(self, exec: &mut Executor<C, T, M>) -> (c: C)
        requires
            old(exec).wf(),
            self.spec_id() < old(exec).num_tasks(),
            old(exec).task_state(self.spec_id() as int).spec_is_scheduled(),
            !old(exec).task_state(self.spec_id() as int).spec_is_closed(),
            !old(exec).ready_ids().contains(self.spec_id()),
        ensures
            final (exec).wf_mid_poll(self.spec_id() as int),
            final (exec).num_tasks() == old(exec).num_tasks(),
            old(exec).task_computation(self.spec_id() as int) == Some(c),
            final (exec).task_state(self.spec_id() as int) == (State {
                reference_count: old(exec).task_state(self.spec_id() as int).reference_count,
                flags: (old(exec).task_state(self.spec_id() as int).flags & !SCHEDULED) | RUNNING,
            }),
            final (exec).task_computation(self.spec_id() as int) is None,
            final (exec).task_result(self.spec_id() as int) is None,
            final (exec).task_metadata(self.spec_id() as int) == old(exec).task_metadata(
                self.spec_id() as int,
            ),
            final (exec).task_tag(self.spec_id() as int) == old(exec).task_tag(
                self.spec_id() as int,
            ),
            forall|j: int|
                0 <= j < old(exec).num_tasks() && j != self.spec_id() ==> final (exec).same_task(
                    &*old(exec),
                    j,
                ),
            final (exec).ready_ids() == old(exec).ready_ids(),
            final (exec).spec_has_headroom() == old(exec).spec_has_headroom(),
            final (exec).spec_schedule_count() == old(exec).spec_schedule_count(),
    {
        let ghost pre = *old(exec);
        let id = self.id;
        let mut cell = exec.cells.remove(id);
        let s = cell.state.load();
        let ghost f = s.flags;
        // Atomically leave the scheduled state and enter the poll.
        let s_run = s.clear_flag(SCHEDULED).set_flag(RUNNING);
        cell.state.store(s_run);
        let computation_opt = cell.computation.take();
        exec.cells.insert(id, cell);
        proof {
            assert(Executor::<C, T, M>::cell_inv(pre.cells@[id as int]));
            assert(exec.cells@ =~= pre.cells@.update(id as int, exec.cells@[id as int]));
            assert forall|k: int| 0 <= k < pre.ready@.len() implies (#[trigger] pre.ready@[k]).id
                != id by {
                assert(pre.ready_ids()[k] == pre.ready@[k].id);
            }
            assert(((((f & !SCHEDULED) | RUNNING) & RUNNING != 0) && (((f & !SCHEDULED) | RUNNING)
                & SCHEDULED == 0) && (((f & !SCHEDULED) | RUNNING) & COMPLETED == f & COMPLETED)
                && (((f & !SCHEDULED) | RUNNING) & CLOSED == f & CLOSED) && (((f & !SCHEDULED)
                | RUNNING) & TAKEN == f & TAKEN) && (((f & !SCHEDULED) | RUNNING) & HANDLE_HERE == f
                & HANDLE_HERE))) by (bit_vector);
        }
        computation_opt.unwrap()
    }

    /// Hands this runnable reference to the executor's ready queue, where a    /// Hands this runnable reference to the executor's ready queue, where a
    /// worker will pick it up; the reference is consumed.
    pub fn schedule<C, T, M>(self, exec: &mut Executor<C, T, M>)
        requires
            old(exec).wf(),
            self.spec_id() < old(exec).num_tasks(),
            old(exec).task_state(self.spec_id() as int).spec_is_scheduled(),
            !old(exec).ready_ids().contains(self.spec_id()),
            old(exec).spec_has_headroom(),
        ensures
            final (exec).wf(),
            final (exec).num_tasks() == old(exec).num_tasks(),
            final (exec).ready_ids() == old(exec).ready_ids().push(self.spec_id()),
            final (exec).spec_schedule_count() == old(exec).spec_schedule_count() + 1,
            forall|j: int| 0 <= j < old(exec).num_tasks() ==> final (exec).same_task(&*old(exec), j),
    {
        let ghost pre = *old(exec);
        let ghost sid = self.id;
        match exec.ready.push(self) {
            Ok(()) => {
                proof {
                    assert(exec.ready_ids() =~= pre.ready_ids().push(sid));
                    assert forall|k1: int, k2: int|
                        0 <= k1 < k2 < exec.ready@.len() implies (#[trigger] exec.ready@[k1]).id
                        != (#[trigger] exec.ready@[k2]).id by {
                        if k2 == exec.ready@.len() - 1 {
                            assert(pre.ready_ids()[k1] == pre.ready@[k1].id);
                        }
                    }
                }
            },
            Err(_) => {
                proof {
                    assert(false);
                }
            },
        }
    }
}

/// The owner-facing half of one task: the capability to await the result,
/// detach the task, or cancel it.
pub struct Handle<T> {
    pub(crate) id: usize,
    pub(crate) _marker: core::marker::PhantomData<T>,
}

/// What polling a handle reported: still pending, or finished — with the
/// result exactly when the task completed, was not cancelled, and the
/// result had not been taken before.
pub enum TaskPoll<T> {
    Ready(Option<Result<T, Panic>>),
    Pending,
}

impl<T> Handle<T> {
    /// The task allocation this handle owns.
    pub closed spec fn spec_id(&self) -> usize {
        self.id
    }

    /// The task's allocation id, as `Executor::wake` takes it; the stable
    /// datum a cloned waker would carry.
    pub fn task_id(&self) -> (r: usize)
        ensures
            r == self.spec_id(),
    {
        self.id
    }

    /// Polls the task's output.  The result is handed out exactly once:
    /// the first poll that observes completion takes it (closing the task),
    /// later polls report `Ready(None)`; a task cancelled before completing
    /// reports `Ready(None)` once nothing of it is still in flight; an
    /// unfinished task reports `Pending`.  A captured computation panic
    /// surfaces here, and only here, as the `Err` result.
    pub fn poll_output<C, M>(&self, exec: &mut Executor<C, T, M>) -> (r: TaskPoll<T>)
        requires
            old(exec).wf(),
            self.spec_id() < old(exec).num_tasks(),
            old(exec).task_state(self.spec_id() as int).spec_has_valid_handle(),
        ensures
            final (exec).wf(),
            final (exec).num_tasks() == old(exec).num_tasks(),
            forall|j: int|
                0 <= j < old(exec).num_tasks() && j != self.spec_id() ==> final (exec).same_task(
                    &*old(exec),
                    j,
                ),
            final (exec).ready_ids() == old(exec).ready_ids(),
            final (exec).spec_has_headroom() == old(exec).spec_has_headroom(),
            final (exec).spec_schedule_count() == old(exec).spec_schedule_count(),
            final (exec).task_metadata(self.spec_id() as int) == old(exec).task_metadata(
                self.spec_id() as int,
            ),
            final (exec).task_tag(self.spec_id() as int) == old(exec).task_tag(
                self.spec_id() as int,
            ),
            final (exec).task_state(self.spec_id() as int).spec_has_valid_handle(),
            ({
                let id = self.spec_id() as int;
                let s = old(exec).task_state(id);
                if s.spec_has_been_taken() {
                    r == TaskPoll::Ready(None::<Result<T, Panic>>) && final (exec).same_task(
                        &*old(exec),
                        id,
                    )
                } else if s.spec_is_closed() {
                    if s.spec_is_scheduled() || s.spec_is_running() {
                        r == TaskPoll::Pending::<T> && final (exec).same_task(&*old(exec), id)
                    } else {
                        r == TaskPoll::Ready(None::<Result<T, Panic>>) && final (exec).same_task(
                            &*old(exec),
                            id,
                        )
                    }
                } else if !s.spec_is_completed() {
                    r == TaskPoll::Pending::<T> && final (exec).same_task(&*old(exec), id)
                } else {
                    &&& r == TaskPoll::Ready(Some(old(exec).task_result(id).unwrap()))
                    &&& old(exec).task_result(id) is Some
                    &&& final (exec).task_state(id) == (State {
                        reference_count: s.reference_count,
                        flags: s.flags | CLOSED | TAKEN,
                    })
                    &&& final (exec).task_state(id).spec_has_been_taken()
                    &&& final (exec).task_result(id) is None
                    &&& final (exec).task_computation(id) is None
                }
            }),
    {
        let ghost pre = *old(exec);
        let id = self.id;
        let s = exec.cells[id].state.load();
        let ghost f = s.flags;
        if s.has_been_taken() {
            return TaskPoll::Ready(None);
        }
        if s.is_closed() {
            if s.is_scheduled() || s.is_running() {
                // A cancelled task still in flight; its poll will clean up.
                return TaskPoll::Pending;
            }
            return TaskPoll::Ready(None);
        }
        if !s.is_completed() {
            return TaskPoll::Pending;
        }
        // Completed and unobserved: close the task, mark the result taken,
        // and hand it out.
        let mut cell = exec.cells.remove(id);
        let s2 = s.set_flag(CLOSED).set_flag(TAKEN);
        cell.state.store(s2);
        let output = cell.result.take();
        exec.cells.insert(id, cell);
        proof {
            assert(exec.cells@ =~= pre.cells@.update(id as int, exec.cells@[id as int]));
            assert forall|k: int| 0 <= k < pre.ready@.len() implies (#[trigger] pre.ready@[k]).id
                != id by {
                assert(pre.ready_ids()[k] == pre.ready@[k].id);
            }
            assert(((f | CLOSED) | TAKEN) == (f | CLOSED | TAKEN) && ((f | CLOSED | TAKEN)
                & SCHEDULED == f & SCHEDULED) && ((f | CLOSED | TAKEN) & RUNNING == f & RUNNING)
                && ((f | CLOSED | TAKEN) & COMPLETED == f & COMPLETED) && ((f | CLOSED | TAKEN)
                & CLOSED != 0) && ((f | CLOSED | TAKEN) & TAKEN != 0) && ((f | CLOSED | TAKEN)
                & HANDLE_HERE == f & HANDLE_HERE)) by (bit_vector);
        }
        TaskPoll::Ready(Some(output.unwrap()))
    }

    /// Releases the handle's ownership stake without cancelling: the task
    /// runs to completion unobserved.  A result already stored is dropped
    /// now, and one stored later is dropped at completion, since no one
    /// will read the union slot.
    pub fn detach<C, M>(self, exec: &mut Executor<C, T, M>)
        requires
            old(exec).wf(),
            self.spec_id() < old(exec).num_tasks(),
            old(exec).task_state(self.spec_id() as int).spec_has_valid_handle(),
        ensures
            final (exec).wf(),
            final (exec).num_tasks() == old(exec).num_tasks(),
            forall|j: int|
                0 <= j < old(exec).num_tasks() && j != self.spec_id() ==> final (exec).same_task(
                    &*old(exec),
                    j,
                ),
            final (exec).ready_ids() == old(exec).ready_ids(),
            final (exec).spec_has_headroom() == old(exec).spec_has_headroom(),
            final (exec).spec_schedule_count() == old(exec).spec_schedule_count(),
            ({
                let id = self.spec_id() as int;
                let s = old(exec).task_state(id);
                &&& final (exec).task_computation(id) == old(exec).task_computation(id)
                &&& (s.spec_is_completed() && !s.spec_is_closed() ==> final (exec).task_state(id)
                    == (State {
                    reference_count: s.reference_count,
                    flags: (s.flags | CLOSED) & !HANDLE_HERE,
                }) && final (exec).task_result(id) is None)
                &&& (!(s.spec_is_completed() && !s.spec_is_closed()) ==> final (exec).task_state(id)
                    == (State {
                    reference_count: s.reference_count,
                    flags: s.flags & !HANDLE_HERE,
                }) && final (exec).task_result(id) == old(exec).task_result(id))
            }),
    {
        exec.release_handle(self.id);
    }

    /// Cancels the task and releases the handle, the work of dropping a
    /// handle: a task neither completed nor already
    /// closed is closed now, and — unless a poll of it is anyway on the way
    /// — scheduled once more so that some worker observes the closure and
    /// reclaims the computation.  No further poll observes the task as
    /// runnable, and its allocation empties once any in-flight poll
    /// finishes.
    pub fn cancel<C, M>(self, exec: &mut Executor<C, T, M>)
        requires
            old(exec).wf(),
            self.spec_id() < old(exec).num_tasks(),
            old(exec).task_state(self.spec_id() as int).spec_has_valid_handle(),
            old(exec).spec_has_headroom(),
        ensures
            final (exec).wf(),
            final (exec).num_tasks() == old(exec).num_tasks(),
            forall|j: int|
                0 <= j < old(exec).num_tasks() && j != self.spec_id() ==> final (exec).same_task(
                    &*old(exec),
                    j,
                ),
            ({
                let id = self.spec_id() as int;
                let s = old(exec).task_state(id);
                if !s.spec_is_completed() && !s.spec_is_closed() {
                    if s.spec_is_scheduled() {
                        &&& final (exec).task_state(id) == (State {
                            reference_count: s.reference_count,
                            flags: (s.flags | CLOSED) & !HANDLE_HERE,
                        })
                        &&& final (exec).ready_ids() == old(exec).ready_ids()
                        &&& final (exec).spec_schedule_count() == old(exec).spec_schedule_count()
                    } else {
                        &&& final (exec).task_state(id) == (State {
                            reference_count: (s.reference_count + 1) as u32,
                            flags: (s.flags | CLOSED | SCHEDULED) & !HANDLE_HERE,
                        })
                        &&& final (exec).ready_ids() == old(exec).ready_ids().push(self.spec_id())
                        &&& final (exec).spec_schedule_count() == old(exec).spec_schedule_count()
                            + 1
                    }
                } else {
                    &&& final (exec).ready_ids() == old(exec).ready_ids()
                    &&& final (exec).spec_schedule_count() == old(exec).spec_schedule_count()
                    &&& (s.spec_is_completed() && !s.spec_is_closed() ==> final (exec).task_state(
                        id,
                    ) == (State {
                        reference_count: s.reference_count,
                        flags: (s.flags | CLOSED) & !HANDLE_HERE,
                    }) && final (exec).task_result(id) is None)
                    &&& (s.spec_is_closed() ==> final (exec).task_state(id) == (State {
                        reference_count: s.reference_count,
                        flags: s.flags & !HANDLE_HERE,
                    }))
                }
            }),
            final (exec).task_state(self.spec_id() as int).spec_is_closed(),
    {
        let ghost pre = *old(exec);
        let id = self.id;
        let s = exec.cells[id].state.load();
        let ghost f = s.flags;
        if !s.is_completed() && !s.is_closed() {
            if !s.is_scheduled() {
                // Idle and pending: close it and schedule it once so a
                // worker reclaims the computation.
                let mut cell = exec.cells.remove(id);
                let s2 = s.set_flag(CLOSED).set_flag(SCHEDULED).increment_reference_count();
                cell.state.store(s2);
                exec.cells.insert(id, cell);
                proof {
                    assert(exec.cells@ =~= pre.cells@.update(id as int, exec.cells@[id as int]));
                    assert forall|k: int|
                        0 <= k < pre.ready@.len() implies (#[trigger] pre.ready@[k]).id != id by {
                        assert(pre.cells@[pre.ready@[k].id as int].state@.spec_is_scheduled());
                    }
                    assert((((f | CLOSED) | SCHEDULED) == (f | CLOSED | SCHEDULED)) && ((f | CLOSED
                        | SCHEDULED) & SCHEDULED != 0) && ((f | CLOSED | SCHEDULED) & RUNNING == f
                        & RUNNING) && ((f | CLOSED | SCHEDULED) & COMPLETED == f & COMPLETED) && ((
                    f | CLOSED | SCHEDULED) & CLOSED != 0) && ((f | CLOSED | SCHEDULED) & TAKEN == f
                        & TAKEN) && ((f | CLOSED | SCHEDULED) & HANDLE_HERE == f & HANDLE_HERE))
                        by (bit_vector);
                }
                match exec.ready.push(Task { id }) {
                    Ok(()) => {
                        proof {
                            assert(exec.ready_ids() =~= pre.ready_ids().push(id));
                            assert forall|k1: int, k2: int|
                                0 <= k1 < k2 < exec.ready@.len() implies (
                            #[trigger] exec.ready@[k1]).id != (#[trigger] exec.ready@[k2]).id by {
                                if k2 == exec.ready@.len() - 1 {
                                    assert(pre.ready_ids()[k1] == pre.ready@[k1].id);
                                }
                            }
                        }
                    },
                    Err(_) => {
                        proof {
                            assert(false);
                        }
                    },
                }
            } else {
                // A poll is already on the way; it will observe the closure.
                let mut cell = exec.cells.remove(id);
                let s2 = s.set_flag(CLOSED);
                cell.state.store(s2);
                exec.cells.insert(id, cell);
                proof {
                    assert(exec.cells@ =~= pre.cells@.update(id as int, exec.cells@[id as int]));
                    assert(((f | CLOSED) & SCHEDULED == f & SCHEDULED) && ((f | CLOSED) & RUNNING
                        == f & RUNNING) && ((f | CLOSED) & COMPLETED == f & COMPLETED) && ((f
                        | CLOSED) & CLOSED != 0) && ((f | CLOSED) & TAKEN == f & TAKEN) && ((f
                        | CLOSED) & HANDLE_HERE == f & HANDLE_HERE)) by (bit_vector);
                    assert forall|k: int|
                        0 <= k < pre.ready@.len() implies (#[trigger] pre.ready@[k]).id
                        < exec.cells@.len() && exec.cells@[pre.ready@[k].id as int].state@
                            .spec_is_scheduled() by {
                        assert(pre.cells@[pre.ready@[k].id as int].state@.spec_is_scheduled());
                    }
                }
            }
        }
        let ghost mid = *exec;
        exec.release_handle(id);
        proof {
            assert(((((f | CLOSED) | SCHEDULED) & !HANDLE_HERE) & CLOSED != 0) && (((f | CLOSED)
                & !HANDLE_HERE) & CLOSED != 0) && ((f & !HANDLE_HERE) & CLOSED == f & CLOSED))
                by (bit_vector);
            assert forall|j: int| 0 <= j < pre.num_tasks() && j != id as int implies exec.same_task(
                &pre,
                j,
            ) by {
                assert(mid.same_task(&pre, j));
                assert(exec.same_task(&mid, j));
            }
        }
    }
}

impl<C, T, M> Executor<C, T, M> {
    /// Clears the handle flag, dropping a stored, unobserved result (a
    /// completed, unclosed task is closed in passing, since its result can
    /// no longer be read).
    fn release_handle(&mut self, id: usize)
        requires
            old(self).wf(),
            id < old(self).num_tasks(),
            old(self).task_state(id as int).spec_has_valid_handle(),
        ensures
            final (self).wf(),
            final (self).num_tasks() == old(self).num_tasks(),
            forall|j: int|
                0 <= j < old(self).num_tasks() && j != id ==> final (self).same_task(
                    &*old(self),
                    j,
                ),
            final (self).ready_ids() == old(self).ready_ids(),
            final (self).spec_has_headroom() == old(self).spec_has_headroom(),
            final (self).spec_schedule_count() == old(self).spec_schedule_count(),
            ({
                let s = old(self).task_state(id as int);
                &&& final (self).task_computation(id as int) == old(self).task_computation(
                    id as int,
                )
                &&& (s.spec_is_completed() && !s.spec_is_closed() ==> final (self).task_state(
                    id as int,
                ) == (State {
                    reference_count: s.reference_count,
                    flags: (s.flags | CLOSED) & !HANDLE_HERE,
                }) && final (self).task_result(id as int) is None)
                &&& (!(s.spec_is_completed() && !s.spec_is_closed()) ==> final (self).task_state(
                    id as int,
                ) == (State {
                    reference_count: s.reference_count,
                    flags: s.flags & !HANDLE_HERE,
                }) && final (self).task_result(id as int) == old(self).task_result(id as int))
            }),
    {
        let ghost pre = *old(self);
        let mut cell = self.cells.remove(id);
        let s = cell.state.load();
        let ghost f = s.flags;
        let s2 = if s.is_completed() && !s.is_closed() {
            // The result will never be read: drop it and close the task.
            cell.result = None;
            s.set_flag(CLOSED).clear_flag(HANDLE_HERE)
        } else {
            s.clear_flag(HANDLE_HERE)
        };
        cell.state.store(s2);
        self.cells.insert(id, cell);
        proof {
            assert(self.cells@ =~= pre.cells@.update(id as int, self.cells@[id as int]));
            assert forall|k: int| 0 <= k < pre.ready@.len() implies (
            #[trigger] pre.ready@[k]).id < self.cells@.len()
                && self.cells@[pre.ready@[k].id as int].state@.spec_is_scheduled() by {
                assert(pre.ready_ids()[k] == pre.ready@[k].id);
                assert(pre.cells@[pre.ready@[k].id as int].state@.spec_is_scheduled());
                assert(((f | CLOSED) & !HANDLE_HERE) & SCHEDULED == f & SCHEDULED && (f
                    & !HANDLE_HERE) & SCHEDULED == f & SCHEDULED) by (bit_vector);
            }
            assert((((f | CLOSED) & !HANDLE_HERE) & SCHEDULED == f & SCHEDULED) && (((f | CLOSED)
                & !HANDLE_HERE) & RUNNING == f & RUNNING) && (((f | CLOSED) & !HANDLE_HERE)
                & COMPLETED == f & COMPLETED) && (((f | CLOSED) & !HANDLE_HERE) & CLOSED != 0) && ((
            (f | CLOSED) & !HANDLE_HERE) & TAKEN == f & TAKEN) && (((f | CLOSED) & !HANDLE_HERE)
                & HANDLE_HERE == 0) && ((f & !HANDLE_HERE) & SCHEDULED == f & SCHEDULED) && ((f
                & !HANDLE_HERE) & RUNNING == f & RUNNING) && ((f & !HANDLE_HERE) & COMPLETED == f
                & COMPLETED) && ((f & !HANDLE_HERE) & CLOSED == f & CLOSED) && ((f & !HANDLE_HERE)
                & TAKEN == f & TAKEN) && ((f & !HANDLE_HERE) & HANDLE_HERE == 0)) by (bit_vector);
        }
    }
}

/// Wake coalescing: a wake of a parked task schedules it; a second wake
/// before the next poll finds the task already scheduled and is a no-op.
/// A computation woken twice between polls is therefore re-scheduled
/// exactly once.
pub proof fn lemma_wake_coalescing(s: State)
    requires
        spec_wake_fires(s),
    ensures
        !spec_wake_fires(spec_wake(s)),
{
    let f = s.flags;
    assert((f | SCHEDULED) & SCHEDULED != 0) by (bit_vector);
}

/// Cancellation: a closed task is never woken again (the wake is a no-op),
/// and a poll that finds it closed leaves it closed with the schedule
/// request cleared — no further poll observes it as runnable.
pub proof fn lemma_closed_stays_closed(s: State)
    requires
        s.spec_is_closed(),
    ensures
        !spec_wake_fires(s),
        spec_run_closed(s).spec_is_closed(),
        !spec_run_closed(s).spec_is_scheduled(),
{
    let f = s.flags;
    assert(((f & !SCHEDULED) & CLOSED == f & CLOSED) && ((f & !SCHEDULED) & SCHEDULED == 0))
        by (bit_vector);
}

/// What the executor's invariant pins about one task at rest: nothing is
/// mid-poll, the result is stored exactly while the task is completed and
/// unobserved, a taken task is closed and completed, and the computation is
/// present exactly until completion or collection.
pub proof fn lemma_task_invariant<C, T, M>(exec: &Executor<C, T, M>, id: int)
    requires
        exec.wf(),
        0 <= id < exec.num_tasks(),
    ensures
        !exec.task_state(id).spec_is_running(),
        exec.task_result(id) is Some <==> (exec.task_state(id).spec_is_completed()
            && !exec.task_state(id).spec_is_closed()),
        exec.task_state(id).spec_has_been_taken() ==> exec.task_state(id).spec_is_closed()
            && exec.task_state(id).spec_is_completed(),
        exec.task_computation(id) is Some <==> (!exec.task_state(id).spec_is_completed() && (
        !exec.task_state(id).spec_is_closed() || exec.task_state(id).spec_is_scheduled())),
{
}

/// Reclamation: once a task is closed and nothing of it is scheduled or
/// mid-poll, its allocation holds neither a computation nor a result — the
/// backing memory is reclaimed.
pub proof fn lemma_closed_task_reclaimed<C, T, M>(exec: &Executor<C, T, M>, id: int)
    requires
        exec.wf(),
        0 <= id < exec.num_tasks(),
        exec.task_state(id).spec_is_closed(),
        !exec.task_state(id).spec_is_scheduled(),
    ensures
        exec.task_computation(id) is None,
        exec.task_result(id) is None,
{
}

} // verus!
