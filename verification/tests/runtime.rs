//! The task runtime's life cycle: spawn, schedule, run, wake, join,
//! detach, cancel, and the deferred surfacing of a captured panic.

use yage_runtime::builder::Builder;
use yage_runtime::builder::Tag;
use yage_runtime::handle::TaskHandle;
use yage_runtime::runnable::Computation;
use yage_runtime::runnable::Executor;
use yage_runtime::runnable::RawPoll;
use yage_runtime::runnable::Step;
use yage_runtime::runnable::Task;
use yage_runtime::runnable::TaskPoll;
use yage_runtime::Schedule;
use yage_runtime::Sealed;

/// Adds its two numbers on the first poll.
struct AddTwo {
    a: i32,
    b: i32,
}

impl Computation<i32> for AddTwo {
    fn step(&mut self) -> Step<i32> {
        Step::Ready(self.a + self.b)
    }
}

/// Yields until woken from outside, then completes.
struct WaitsForWake {
    polls: u32,
}

impl Computation<i32> for WaitsForWake {
    fn step(&mut self) -> Step<i32> {
        self.polls += 1;
        if self.polls == 1 {
            Step::Pending
        } else {
            Step::Ready(7)
        }
    }
}

/// Wakes itself during its first poll, then completes.
struct WakesItself {
    polls: u32,
}

impl Computation<i32> for WakesItself {
    fn step(&mut self) -> Step<i32> {
        self.polls += 1;
        if self.polls == 1 {
            Step::PendingWoke
        } else {
            Step::Ready(9)
        }
    }
}

/// Never completes on its own.
struct NeverDone;

impl Computation<i32> for NeverDone {
    fn step(&mut self) -> Step<i32> {
        Step::Pending
    }
}

/// Its step panics; the embedding reports the captured payload.
struct Boomer;

impl Computation<i32> for Boomer {
    fn step(&mut self) -> Step<i32> {
        Step::Panicked(String::from("boom"))
    }
}

#[test]
fn test_builder() {
    let mut exec: Executor<AddTwo, i32, ()> = Executor::new();
    let (t, h) = Builder::new().spawn(AddTwo { a: 1, b: 2 }, &mut exec);
    t.schedule(&mut exec);

    let t = exec.pop_task().expect("the spawned task must be ready");
    assert!(t.run(&mut exec) == RawPoll::Complete);
    match h.poll_output(&mut exec) {
        TaskPoll::Ready(Some(Ok(v))) => assert_eq!(v, 3),
        _ => panic!("the completed task must yield its output"),
    }
}

#[test]
fn test_join_handle() {
    let mut exec: Executor<AddTwo, i32, ()> = Executor::new();
    let (task, handle) = Builder::new().spawn(AddTwo { a: 1, b: 2 }, &mut exec);
    task.schedule(&mut exec);

    let task = exec.pop_task().unwrap();
    let _ = task.run(&mut exec);

    let handle = TaskHandle { inner_handle: handle, scope_data: None };
    assert!(handle.join(&mut exec).unwrap() == 3);
}

#[test]
fn test_join_drives_queue() {
    // join also works when the task has not been run yet: it drives the
    // ready queue itself.
    let mut exec: Executor<AddTwo, i32, ()> = Executor::new();
    let (task, handle) = Builder::new().spawn(AddTwo { a: 2, b: 3 }, &mut exec);
    task.schedule(&mut exec);
    let handle = TaskHandle { inner_handle: handle, scope_data: None };
    assert_eq!(handle.join(&mut exec), Some(5));
}

#[test]
fn test_task_lifecycle() {
    // A computation that immediately returns 5 yields 5 via the handle
    // exactly once; polling again afterwards yields nothing.
    let mut exec: Executor<AddTwo, i32, ()> = Executor::new();
    let (task, handle) = Builder::new().spawn(AddTwo { a: 5, b: 0 }, &mut exec);
    task.schedule(&mut exec);
    let task = exec.pop_task().unwrap();
    assert_eq!(task.run(&mut exec), RawPoll::Complete);
    match handle.poll_output(&mut exec) {
        TaskPoll::Ready(Some(Ok(v))) => assert_eq!(v, 5),
        _ => panic!("first poll must yield the value"),
    }
    match handle.poll_output(&mut exec) {
        TaskPoll::Ready(None) => {},
        _ => panic!("the result is handed out exactly once"),
    }
}

#[test]
fn test_wake_coalescing() {
    let mut exec: Executor<WaitsForWake, i32, ()> = Executor::new();
    let (task, handle) = Builder::new().spawn(WaitsForWake { polls: 0 }, &mut exec);
    let id = handle.task_id();
    task.schedule(&mut exec);
    let task = exec.pop_task().unwrap();
    assert_eq!(task.run(&mut exec), RawPoll::Pending);

    // Woken twice before being polled again: exactly one re-schedule.
    exec.wake(id);
    exec.wake(id);
    let task = exec.pop_task().expect("one wake must have scheduled the task");
    assert!(exec.pop_task().is_none(), "the second wake must coalesce");
    assert_eq!(task.run(&mut exec), RawPoll::Complete);
    match handle.poll_output(&mut exec) {
        TaskPoll::Ready(Some(Ok(v))) => assert_eq!(v, 7),
        _ => panic!("the woken task must complete with its value"),
    }
}

#[test]
fn test_self_wake_reschedules_once() {
    let mut exec: Executor<WakesItself, i32, ()> = Executor::new();
    let (task, handle) = Builder::new().spawn(WakesItself { polls: 0 }, &mut exec);
    task.schedule(&mut exec);
    let task = exec.pop_task().unwrap();
    // The poll returns Pending but the waker already fired: the task is
    // back in the queue without an explicit wake.
    assert_eq!(task.run(&mut exec), RawPoll::Pending);
    let task = exec.pop_task().expect("a self-woken task re-schedules itself");
    assert_eq!(task.run(&mut exec), RawPoll::Complete);
    let handle = TaskHandle { inner_handle: handle, scope_data: None };
    assert_eq!(handle.join(&mut exec), Some(9));
}

#[test]
fn test_cancellation() {
    let mut exec: Executor<NeverDone, i32, ()> = Executor::new();
    let (task, handle) = Builder::new().spawn(NeverDone, &mut exec);
    let id = handle.task_id();
    task.schedule(&mut exec);
    let task = exec.pop_task().unwrap();
    assert_eq!(task.run(&mut exec), RawPoll::Pending);

    // Dropping the handle cancels: the task is scheduled once more so a
    // worker reclaims it, and no wake ever schedules it again.
    handle.cancel(&mut exec);
    let task = exec.pop_task().expect("cancellation schedules the reclaim");
    assert_eq!(task.run(&mut exec), RawPoll::Complete);
    exec.wake(id);
    assert!(exec.pop_task().is_none(), "a cancelled task is never runnable again");
}

#[test]
fn test_cancel_before_first_run() {
    let mut exec: Executor<NeverDone, i32, ()> = Executor::new();
    let (task, handle) = Builder::new().spawn(NeverDone, &mut exec);
    let id = handle.task_id();
    task.schedule(&mut exec);
    // The task is still scheduled, so cancel only closes it; the pending
    // poll observes the closure and reclaims.
    handle.cancel(&mut exec);
    let task = exec.pop_task().unwrap();
    assert_eq!(task.run(&mut exec), RawPoll::Complete);
    exec.wake(id);
    assert!(exec.pop_task().is_none());
}

#[test]
fn test_detach_drops_result() {
    let mut exec: Executor<AddTwo, i32, ()> = Executor::new();
    let (task, handle) = Builder::new().spawn(AddTwo { a: 4, b: 4 }, &mut exec);
    task.schedule(&mut exec);
    let task = exec.pop_task().unwrap();
    assert_eq!(task.run(&mut exec), RawPoll::Complete);
    // Detaching after completion silently discards the stored result.
    handle.detach(&mut exec);
}

#[test]
fn test_detach_runs_unobserved() {
    let mut exec: Executor<AddTwo, i32, ()> = Executor::new();
    let (task, handle) = Builder::new().spawn(AddTwo { a: 2, b: 2 }, &mut exec);
    // Detach first: the task still runs to completion, its result dropped.
    handle.detach(&mut exec);
    task.schedule(&mut exec);
    let task = exec.pop_task().unwrap();
    assert_eq!(task.run(&mut exec), RawPoll::Complete);
    assert!(exec.pop_task().is_none());
}

#[test]
fn test_wake_completed_is_noop() {
    let mut exec: Executor<AddTwo, i32, ()> = Executor::new();
    let (task, handle) = Builder::new().spawn(AddTwo { a: 1, b: 1 }, &mut exec);
    let id = handle.task_id();
    task.schedule(&mut exec);
    let task = exec.pop_task().unwrap();
    assert_eq!(task.run(&mut exec), RawPoll::Complete);
    exec.wake(id);
    assert!(exec.pop_task().is_none(), "a completed task is never re-scheduled");
}

#[test]
fn test_panic_containment() {
    let mut exec: Executor<Boomer, i32, ()> = Executor::new();
    let (task, handle) = Builder::new().spawn(Boomer, &mut exec);
    task.schedule(&mut exec);
    let task = exec.pop_task().unwrap();
    // The worker survives the panicking step; the poll just completes.
    assert_eq!(task.run(&mut exec), RawPoll::Complete);
    // The panic is observable only through the handle.
    match handle.poll_output(&mut exec) {
        TaskPoll::Ready(Some(Err(p))) => assert_eq!(p.message, "boom"),
        _ => panic!("the captured panic must surface through the handle"),
    }
}

#[test]
fn test_begin_poll_and_apply_step() {
    // Drive one poll by hand: take the computation out, advance it, apply
    // the outcome; the stored result is exactly the step's value.
    let mut exec: Executor<AddTwo, i32, ()> = Executor::new();
    let (task, handle) = Builder::new().spawn(AddTwo { a: 2, b: 2 }, &mut exec);
    let id = handle.task_id();
    let mut comp = task.begin_poll(&mut exec);
    let step = comp.step();
    assert_eq!(exec.apply_step(id, comp, step), RawPoll::Complete);
    match handle.poll_output(&mut exec) {
        TaskPoll::Ready(Some(Ok(v))) => assert_eq!(v, 4),
        _ => panic!("the applied outcome must store exactly the step's value"),
    }
}

#[test]
fn test_apply_step_stores_panic_payload() {
    let mut exec: Executor<NeverDone, i32, ()> = Executor::new();
    let (task, handle) = Builder::new().spawn(NeverDone, &mut exec);
    let id = handle.task_id();
    let comp = task.begin_poll(&mut exec);
    let r = exec.apply_step(id, comp, Step::Panicked(String::from("synthetic")));
    assert_eq!(r, RawPoll::Complete);
    match handle.poll_output(&mut exec) {
        TaskPoll::Ready(Some(Err(p))) => assert_eq!(p.message, "synthetic"),
        _ => panic!("the applied panic must be stored as the result"),
    }
}

/// A scheduler of the caller's own: collects runnables in a bucket.
struct Bucket {
    tasks: Vec<Task>,
}

impl Sealed for Bucket {}

impl Schedule for Bucket {
    fn schedule(&mut self, runnable: Task) {
        self.tasks.push(runnable);
    }
}

#[test]
fn test_schedule_trait() {
    let mut exec: Executor<AddTwo, i32, ()> = Executor::new();
    let mut bucket = Bucket { tasks: Vec::new() };
    let (task, handle) = Builder::new().spawn(AddTwo { a: 6, b: 1 }, &mut exec);
    bucket.schedule(task);
    assert_eq!(bucket.tasks.len(), 1);
    let task = bucket.tasks.pop().unwrap();
    assert_eq!(task.run(&mut exec), RawPoll::Complete);
    let handle = TaskHandle { inner_handle: handle, scope_data: None };
    assert_eq!(handle.join(&mut exec), Some(7));
}

#[test]
fn test_tag_impls() {
    assert_eq!(<u8 as Tag>::from_u16(300), 44);
    assert_eq!(3u8.into_u16(), 3);
    assert_eq!(<u16 as Tag>::from_u16(40000), 40000);
    assert_eq!(<i8 as Tag>::from_u16(255), -1);
    assert_eq!((-1i8).into_u16(), 65535);
    assert_eq!(<i16 as Tag>::from_u16(65535), -1);
    assert_eq!(().into_u16(), 0);
}

#[test]
fn test_builder_metadata_and_tag() {
    let builder = Builder::new().metadata(41u64).tag(3u8);
    assert_eq!(builder.metadata, 41);
    assert_eq!(builder.tag, 3);
    let builder = Builder::new().with_metadata(String::from("meta"));
    assert_eq!(builder.metadata, "meta");
    let mut exec: Executor<AddTwo, i32, String> = Executor::new();
    let (task, handle) = builder.spawn(AddTwo { a: 1, b: 1 }, &mut exec);
    task.schedule(&mut exec);
    let task = exec.pop_task().unwrap();
    assert_eq!(task.run(&mut exec), RawPoll::Complete);
    let handle = TaskHandle { inner_handle: handle, scope_data: None };
    assert_eq!(handle.join(&mut exec), Some(2));
}
