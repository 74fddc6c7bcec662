use threadpool::{worker_accepts, worker_step, WorkerAction, WorkerEvent, WorkerState};

#[test]
fn waiting_worker_runs_a_received_job() {
    assert_eq!(
        worker_step(WorkerState::Running, WorkerEvent::JobReceived),
        (WorkerState::Executing, WorkerAction::RunJob)
    );
}

#[test]
fn finished_job_sends_worker_back_to_queue() {
    assert_eq!(
        worker_step(WorkerState::Executing, WorkerEvent::JobFinished),
        (WorkerState::Running, WorkerAction::Receive)
    );
}

#[test]
fn closed_queue_ends_the_worker() {
    assert_eq!(
        worker_step(WorkerState::Running, WorkerEvent::QueueClosed),
        (WorkerState::Terminated, WorkerAction::Exit)
    );
}

#[test]
fn worker_accepts_only_its_own_events() {
    assert!(worker_accepts(WorkerState::Running, WorkerEvent::JobReceived));
    assert!(worker_accepts(WorkerState::Running, WorkerEvent::QueueClosed));
    assert!(!worker_accepts(WorkerState::Running, WorkerEvent::JobFinished));
    assert!(worker_accepts(WorkerState::Executing, WorkerEvent::JobFinished));
    assert!(!worker_accepts(WorkerState::Executing, WorkerEvent::JobReceived));
    assert!(!worker_accepts(WorkerState::Executing, WorkerEvent::QueueClosed));
    assert!(!worker_accepts(WorkerState::Terminated, WorkerEvent::JobReceived));
    assert!(!worker_accepts(WorkerState::Terminated, WorkerEvent::JobFinished));
    assert!(!worker_accepts(WorkerState::Terminated, WorkerEvent::QueueClosed));
}

/// Three workers, four jobs that take 250, 500, 750 and 1000 ms, sent in
/// that order. Each job reports its index when it ends. Events are replayed
/// in the order those durations give: the first three jobs start at once
/// and the fourth starts when the first ends, at 250 ms.
#[test]
fn slower_later_jobs_finish_in_index_order() {
    let mut queue: std::collections::VecDeque<(u64, u64)> =
        vec![(1, 250), (2, 500), (3, 750), (4, 1000)].into();
    let mut states = vec![WorkerState::Running; 3];
    // (ends at, index, worker) of each job under way
    let mut running: Vec<(u64, u64, usize)> = vec![];
    let mut collected: Vec<u64> = vec![];
    let mut now: u64 = 0;
    loop {
        for w in 0..3 {
            if states[w] == WorkerState::Running {
                if let Some((index, millis)) = queue.pop_front() {
                    let (next, action) = worker_step(states[w], WorkerEvent::JobReceived);
                    assert_eq!(action, WorkerAction::RunJob);
                    states[w] = next;
                    running.push((now + millis, index, w));
                }
            }
        }
        if running.is_empty() {
            break;
        }
        running.sort();
        let (ends, index, w) = running.remove(0);
        now = ends;
        collected.push(index);
        let (next, action) = worker_step(states[w], WorkerEvent::JobFinished);
        assert_eq!(action, WorkerAction::Receive);
        states[w] = next;
    }
    assert_eq!(collected, vec![1, 2, 3, 4]);
    for w in 0..3 {
        let (next, action) = worker_step(states[w], WorkerEvent::QueueClosed);
        assert_eq!((next, action), (WorkerState::Terminated, WorkerAction::Exit));
    }
}
