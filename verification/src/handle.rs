//! The worker-facing join handle: block on one task's output while driving
//! the executor's ready queue.

use crate::runnable::{
    lemma_closed_stays_closed,
    lemma_task_invariant,
    Computation,
    Executor,
    Handle,
    TaskPoll,
};
use vstd::prelude::*;

verus! {

/// Bookkeeping a scoped spawn shares with its scope: how many of its tasks
/// still run.
pub struct ScopeData {
    pub number_running_tasks: usize,
}

/// A joinable wrapper around a task handle, optionally tied to a scope.
pub struct TaskHandle<T> {
    pub inner_handle: Handle<T>,
    pub scope_data: Option<ScopeData>,
}

impl<T> TaskHandle<T> {
    /// Drives ready tasks until this one's output is available and returns
    /// it; the output is handed out at most once.  A task that already
    /// completed with a value is owed exactly that value; `None` comes back
    /// when the task was cancelled, its result already taken, its
    /// computation panicked, or no worker could finish it (the ready queue
    /// ran dry or the index space gave out).  Where other workers drive the
    /// queue a join may simply spin; a sequential join must run the tasks
    /// itself.
    pub fn join<C: Computation<T>, M>(self, exec: &mut Executor<C, T, M>) -> (r: Option<T>)
        requires
            old(exec).wf(),
            self.inner_handle.spec_id() < old(exec).num_tasks(),
            old(exec).task_state(self.inner_handle.spec_id() as int).spec_has_valid_handle(),
        ensures
            final (exec).wf(),
            final (exec).num_tasks() == old(exec).num_tasks(),
            r is Some ==> final (exec).task_state(self.inner_handle.spec_id() as int)
                .spec_has_been_taken(),
            ({
                let id = self.inner_handle.spec_id() as int;
                let s = old(exec).task_state(id);
                &&& (s.spec_is_completed() && !s.spec_is_closed() ==> (match old(exec).task_result(
                    id,
                ) {
                    Some(Ok(v)) => r == Some(v),
                    _ => r is None,
                }))
                &&& (s.spec_has_been_taken() ==> r is None)
                &&& (s.spec_is_closed() ==> r is None)
            }),
    {
        let handle = self.inner_handle;
        let ghost id = handle.spec_id() as int;
        proof {
            lemma_task_invariant(exec, id);
        }
        // The first poll settles a task that is already finished with: a
        // stored value is taken and returned, a taken, cancelled or
        // panicked task yields nothing.
        match handle.poll_output(exec) {
            TaskPoll::Ready(Some(Ok(value))) => {
                return Some(value);
            },
            TaskPoll::Ready(_) => {
                return None;
            },
            TaskPoll::Pending => {},
        }
        let mut fuel: usize = usize::MAX;
        while fuel > 0
            invariant
                exec.wf(),
                handle == self.inner_handle,
                id == handle.spec_id() as int,
                0 <= id < exec.num_tasks(),
                exec.num_tasks() == old(exec).num_tasks(),
                exec.task_state(id).spec_has_valid_handle(),
                old(exec).task_state(id).spec_is_closed() ==> exec.task_state(id).spec_is_closed(),
                !(old(exec).task_state(id).spec_is_completed() && !old(exec).task_state(
                    id,
                ).spec_is_closed()),
                !old(exec).task_state(id).spec_has_been_taken(),
            decreases fuel,
        {
            fuel = fuel - 1;
            match handle.poll_output(exec) {
                TaskPoll::Ready(Some(Ok(value))) => {
                    return Some(value);
                },
                TaskPoll::Ready(_) => {
                    // Cancelled, already taken, or a captured panic: there
                    // is no value to hand out.
                    return None;
                },
                TaskPoll::Pending => {},
            }
            if !exec.has_headroom() {
                return None;
            }
            let ghost before_pop = *exec;
            match exec.pop_task() {
                Some(task) => {
                    proof {
                        assert(exec.same_task(&before_pop, id));
                    }
                    let ghost before_run = *exec;
                    let ghost tid = task.spec_id() as int;
                    let _ = task.run(exec);
                    proof {
                        if tid != id {
                            assert(exec.same_task(&before_run, id));
                        } else {
                            if before_run.task_state(id).spec_is_closed() {
                                lemma_closed_stays_closed(before_run.task_state(id));
                            }
                        }
                    }
                },
                None => {
                    // Nothing is ready and nothing else drives the queue.
                    return None;
                },
            }
        }
        None
    }
}

} // verus!
