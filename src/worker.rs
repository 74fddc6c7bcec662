use vstd::prelude::*;

verus! {

/// Where a worker stands in its loop.
#[derive(Clone, Copy, Debug, PartialEq, Eq, Structural)]
pub enum WorkerState {
    /// Waiting for exclusive access to the queue, or for a job on it.
    Running,
    /// Running a job it took from the queue, outside the lock.
    Executing,
    /// Has seen the queue closed; its thread has ended.
    Terminated,
}

/// What a worker observes.
#[derive(Clone, Copy, Debug, PartialEq, Eq, Structural)]
pub enum WorkerEvent {
    /// A receive attempt returned a job.
    JobReceived,
    /// The job it was running has returned, normally or by failing.
    JobFinished,
    /// A receive attempt reported that no sender is left and the queue is empty.
    QueueClosed,
}

/// What a worker does next.
#[derive(Clone, Copy, Debug, PartialEq, Eq, Structural)]
pub enum WorkerAction {
    /// Run the job just received, to completion.
    RunJob,
    /// Take the lock and wait for the next job.
    Receive,
    /// Leave the loop and end the thread.
    Exit,
}

/// The events that can reach a worker in a given state.
pub open spec fn worker_accepts_spec(state: WorkerState, event: WorkerEvent) -> bool {
    match (state, event) {
        (WorkerState::Running, WorkerEvent::JobReceived) => true,
        (WorkerState::Running, WorkerEvent::QueueClosed) => true,
        (WorkerState::Executing, WorkerEvent::JobFinished) => true,
        _ => false,
    }
}

/// One transition of the worker loop: a job moves a waiting worker to
/// running it, its end sends the worker back to the queue, and closure of
/// the queue ends the worker.
pub open spec fn worker_next(state: WorkerState, event: WorkerEvent) -> (WorkerState, WorkerAction)
    recommends
        worker_accepts_spec(state, event),
{
    match event {
        WorkerEvent::JobReceived => (WorkerState::Executing, WorkerAction::RunJob),
        WorkerEvent::JobFinished => (WorkerState::Running, WorkerAction::Receive),
        WorkerEvent::QueueClosed => (WorkerState::Terminated, WorkerAction::Exit),
    }
}

/// Whether `event` can reach a worker in `state`.
pub fn worker_accepts(state: WorkerState, event: WorkerEvent) -> (r: bool)
    ensures
        r == worker_accepts_spec(state, event),
{
    match (state, event) {
        (WorkerState::Running, WorkerEvent::JobReceived) => true,
        (WorkerState::Running, WorkerEvent::QueueClosed) => true,
        (WorkerState::Executing, WorkerEvent::JobFinished) => true,
        _ => false,
    }
}

/// The worker's next state and what it does on `event`.
pub fn worker_step(state: WorkerState, event: WorkerEvent) -> (r: (WorkerState, WorkerAction))
    requires
        worker_accepts_spec(state, event),
    ensures
        r == worker_next(state, event),
{
    match event {
        WorkerEvent::JobReceived => (WorkerState::Executing, WorkerAction::RunJob),
        WorkerEvent::JobFinished => (WorkerState::Running, WorkerAction::Receive),
        WorkerEvent::QueueClosed => (WorkerState::Terminated, WorkerAction::Exit),
    }
}

} // verus!
