use vstd::prelude::*;

use crate::shutdown::{shutdown_action, shutdown_advance, shutdown_init, ShutdownAction, ShutdownModel};
use crate::worker::{worker_next, WorkerEvent, WorkerState};

verus! {

/// The abstract state of a running pool. Jobs are named by the order in
/// which they entered the queue: the job sent `k`-th is job `k`.
pub struct PoolModel {
    /// Jobs on the queue, oldest first.
    pub queue: Seq<nat>,
    /// Jobs sent to the queue so far; they are jobs `0 .. submitted`.
    pub submitted: nat,
    /// Jobs taken from the queue so far; they are jobs `0 .. received`.
    pub received: nat,
    /// Each worker's state, by index.
    pub workers: Seq<WorkerState>,
    /// The job each worker is running, if any.
    pub current: Seq<Option<nat>>,
    /// Jobs that have run to their end, in the order they ended.
    pub completed: Seq<nat>,
    /// Where the pool's teardown stands.
    pub teardown: ShutdownModel,
}

/// One thing that can happen in a running pool.
pub enum PoolStep {
    /// A caller sends a job.
    Submit,
    /// The worker of this index takes the oldest job from the queue.
    Receive(nat),
    /// The job that the worker of this index runs returns.
    Finish(nat),
    /// The worker of this index finds the queue closed and empty, and ends.
    ObserveClosed(nat),
    /// Teardown does its next action.
    Teardown,
}

/// A pool whose `n` workers have all been created, before any job is sent.
pub open spec fn pool_init(n: nat) -> PoolModel {
    PoolModel {
        queue: Seq::empty(),
        submitted: 0,
        received: 0,
        workers: Seq::new(n, |i: int| WorkerState::Running),
        current: Seq::new(n, |i: int| None),
        completed: Seq::empty(),
        teardown: shutdown_init(n),
    }
}

/// Whether the worker of index `i` exists and is in `state`.
pub open spec fn worker_is(s: PoolModel, i: nat, state: WorkerState) -> bool {
    i < s.workers.len() && s.workers[i as int] == state
}

/// Whether `step` can happen in `s`. A send needs only an open queue, a
/// receive a waiting worker and a job, and a join a worker that has ended.
pub open spec fn pool_enabled(s: PoolModel, step: PoolStep) -> bool {
    match step {
        PoolStep::Submit => !s.teardown.sender_closed,
        PoolStep::Receive(i) => worker_is(s, i, WorkerState::Running) && s.queue.len() > 0,
        PoolStep::Finish(i) => worker_is(s, i, WorkerState::Executing),
        PoolStep::ObserveClosed(i) => {
            &&& worker_is(s, i, WorkerState::Running)
            &&& s.teardown.sender_closed
            &&& s.queue.len() == 0
        },
        PoolStep::Teardown => match shutdown_action(s.teardown) {
            ShutdownAction::CloseSender => true,
            ShutdownAction::Join(_) => worker_is(s, s.teardown.joined, WorkerState::Terminated),
            ShutdownAction::Finished => false,
        },
    }
}

/// The state after `step`. Workers move as `worker_next` says and teardown
/// as `shutdown_advance` says.
pub open spec fn pool_next(s: PoolModel, step: PoolStep) -> PoolModel {
    match step {
        PoolStep::Submit => PoolModel {
            queue: s.queue.push(s.submitted),
            submitted: s.submitted + 1,
            ..s
        },
        PoolStep::Receive(i) => PoolModel {
            queue: s.queue.drop_first(),
            received: s.received + 1,
            workers: s.workers.update(
                i as int,
                worker_next(s.workers[i as int], WorkerEvent::JobReceived).0,
            ),
            current: s.current.update(i as int, Some(s.queue[0])),
            ..s
        },
        PoolStep::Finish(i) => PoolModel {
            completed: s.completed.push(s.current[i as int]->Some_0),
            workers: s.workers.update(
                i as int,
                worker_next(s.workers[i as int], WorkerEvent::JobFinished).0,
            ),
            current: s.current.update(i as int, None),
            ..s
        },
        PoolStep::ObserveClosed(i) => PoolModel {
            workers: s.workers.update(
                i as int,
                worker_next(s.workers[i as int], WorkerEvent::QueueClosed).0,
            ),
            ..s
        },
        PoolStep::Teardown => PoolModel { teardown: shutdown_advance(s.teardown), ..s },
    }
}

/// The state of a pool of `n` workers after `steps`, or `None` where one of
/// them could not happen.
pub open spec fn pool_run(n: nat, steps: Seq<PoolStep>) -> Option<PoolModel>
    decreases steps.len(),
{
    if steps.len() == 0 {
        Some(pool_init(n))
    } else {
        match pool_run(n, steps.drop_last()) {
            Some(s) => if pool_enabled(s, steps.last()) {
                Some(pool_next(s, steps.last()))
            } else {
                None
            },
            None => None,
        }
    }
}

/// Whether some worker of `s` is running job `id`.
pub open spec fn is_running(s: PoolModel, id: nat) -> bool {
    exists|i: int| 0 <= i < s.current.len() && s.current[i] == Some(id)
}

/// Whether `s` is a state that a pool can reach.
pub open spec fn pool_inv(s: PoolModel) -> bool {
    let n = s.workers.len();
    &&& s.current.len() == n
    &&& s.teardown.workers == n
    &&& s.teardown.joined <= n
    &&& (s.teardown.joined > 0 ==> s.teardown.sender_closed)
    &&& s.received <= s.submitted
    &&& s.queue =~= Seq::new((s.submitted - s.received) as nat, |k: int| (s.received + k) as nat)
    &&& forall|i: int| 0 <= i < n ==> (#[trigger] s.current[i] is Some <==> s.workers[i] == WorkerState::Executing)
    &&& forall|i: int| 0 <= i < n && #[trigger] s.workers[i] == WorkerState::Terminated
        ==> s.teardown.sender_closed && s.queue.len() == 0
    &&& forall|i: int| 0 <= i < s.teardown.joined ==> #[trigger] s.workers[i] == WorkerState::Terminated
    &&& s.completed.no_duplicates()
    &&& forall|k: int| 0 <= k < s.completed.len() ==> #[trigger] s.completed[k] < s.received
    &&& forall|i: int| 0 <= i < n && #[trigger] s.current[i] is Some ==> {
        &&& s.current[i]->Some_0 < s.received
        &&& !s.completed.contains(s.current[i]->Some_0)
    }
    &&& forall|i: int, j: int|
        0 <= i < n && 0 <= j < n && i != j && #[trigger] s.current[i] is Some && #[trigger] s.current[j] is Some
            ==> s.current[i] != s.current[j]
    &&& forall|id: nat| id < s.received ==> #[trigger] s.completed.contains(id) || is_running(s, id)
}

proof fn lemma_init_inv(n: nat)
    ensures
        pool_inv(pool_init(n)),
{
    let s = pool_init(n);
    assert forall|id: nat| id < s.received implies #[trigger] s.completed.contains(id) || is_running(s, id) by {}
}

proof fn lemma_step_inv(s: PoolModel, step: PoolStep)
    requires
        pool_inv(s),
        pool_enabled(s, step),
    ensures
        pool_inv(pool_next(s, step)),
{
    let t = pool_next(s, step);
    let n = s.workers.len();
    match step {
        PoolStep::Submit => {
            assert(t.queue =~= Seq::new((t.submitted - t.received) as nat, |k: int| (t.received + k) as nat));
            assert forall|id: nat| id < t.received implies #[trigger] t.completed.contains(id) || is_running(t, id) by {
                assert(s.completed.contains(id) || is_running(s, id));
            }
        },
        PoolStep::Receive(w) => {
            let job = s.queue[0];
            assert(job == s.received);
            assert forall|i: int| 0 <= i < n && #[trigger] t.current[i] is Some implies {
                &&& t.current[i]->Some_0 < t.received
                &&& !t.completed.contains(t.current[i]->Some_0)
            } by {
                if i == w {
                    if t.completed.contains(job) {
                        let k = choose|k: int| 0 <= k < s.completed.len() && s.completed[k] == job;
                        assert(s.completed[k] < s.received);
                    }
                }
            }
            assert forall|i: int, j: int|
                0 <= i < n && 0 <= j < n && i != j && #[trigger] t.current[i] is Some
                    && #[trigger] t.current[j] is Some implies t.current[i] != t.current[j] by {
                if i == w {
                    assert(s.current[j] is Some);
                } else if j == w {
                    assert(s.current[i] is Some);
                } else {
                    assert(s.current[i] is Some && s.current[j] is Some);
                }
            }
            assert forall|id: nat| id < t.received implies #[trigger] t.completed.contains(id) || is_running(t, id) by {
                if id == job {
                    assert(t.current[w as int] == Some(id));
                } else {
                    assert(s.completed.contains(id) || is_running(s, id));
                    if !s.completed.contains(id) {
                        let i = choose|i: int| 0 <= i < s.current.len() && s.current[i] == Some(id);
                        assert(i != w);
                        assert(t.current[i] == Some(id));
                    }
                }
            }
            assert forall|i: int| 0 <= i < n && #[trigger] t.workers[i] == WorkerState::Terminated
                implies t.teardown.sender_closed && t.queue.len() == 0 by {
                assert(s.workers[i] == WorkerState::Terminated);
            }
            assert forall|i: int| 0 <= i < t.teardown.joined implies #[trigger] t.workers[i] == WorkerState::Terminated by {
                assert(s.workers[i] == WorkerState::Terminated);
            }
        },
        PoolStep::Finish(w) => {
            let job = s.current[w as int]->Some_0;
            assert(s.current[w as int] is Some);
            assert forall|k: int| 0 <= k < t.completed.len() implies #[trigger] t.completed[k] < t.received by {
                if k < s.completed.len() {
                    assert(t.completed[k] == s.completed[k]);
                }
            }
            assert(t.completed.no_duplicates()) by {
                assert forall|a: int, b: int| 0 <= a < t.completed.len() && 0 <= b < t.completed.len() && a != b
                    implies t.completed[a] != t.completed[b] by {
                    if a == s.completed.len() {
                        assert(s.completed.contains(t.completed[b]));
                    } else if b == s.completed.len() {
                        assert(s.completed.contains(t.completed[a]));
                    }
                }
            }
            assert forall|i: int| 0 <= i < n && #[trigger] t.current[i] is Some implies {
                &&& t.current[i]->Some_0 < t.received
                &&& !t.completed.contains(t.current[i]->Some_0)
            } by {
                assert(i != w);
                assert(s.current[i] is Some);
                assert(s.current[i] != s.current[w as int]);
                if t.completed.contains(t.current[i]->Some_0) {
                    let k = choose|k: int| 0 <= k < t.completed.len() && t.completed[k] == t.current[i]->Some_0;
                    if k < s.completed.len() {
                        assert(s.completed[k] == t.completed[k]);
                    }
                }
            }
            assert forall|i: int, j: int|
                0 <= i < n && 0 <= j < n && i != j && #[trigger] t.current[i] is Some
                    && #[trigger] t.current[j] is Some implies t.current[i] != t.current[j] by {
                assert(s.current[i] is Some && s.current[j] is Some);
            }
            assert forall|id: nat| id < t.received implies #[trigger] t.completed.contains(id) || is_running(t, id) by {
                if id == job {
                    assert(t.completed[s.completed.len() as int] == id);
                } else if s.completed.contains(id) {
                    let k = choose|k: int| 0 <= k < s.completed.len() && s.completed[k] == id;
                    assert(t.completed[k] == id);
                } else {
                    assert(is_running(s, id));
                    let i = choose|i: int| 0 <= i < s.current.len() && s.current[i] == Some(id);
                    assert(i != w);
                    assert(t.current[i] == Some(id));
                }
            }
            assert forall|i: int| 0 <= i < n && #[trigger] t.workers[i] == WorkerState::Terminated
                implies t.teardown.sender_closed && t.queue.len() == 0 by {
                assert(s.workers[i] == WorkerState::Terminated);
            }
            assert forall|i: int| 0 <= i < t.teardown.joined implies #[trigger] t.workers[i] == WorkerState::Terminated by {
                assert(s.workers[i] == WorkerState::Terminated);
            }
        },
        PoolStep::ObserveClosed(w) => {
            assert forall|id: nat| id < t.received implies #[trigger] t.completed.contains(id) || is_running(t, id) by {
                assert(s.completed.contains(id) || is_running(s, id));
                if !s.completed.contains(id) {
                    let i = choose|i: int| 0 <= i < s.current.len() && s.current[i] == Some(id);
                    assert(t.current[i] == Some(id));
                }
            }
        },
        PoolStep::Teardown => {
            assert forall|id: nat| id < t.received implies #[trigger] t.completed.contains(id) || is_running(t, id) by {
                assert(s.completed.contains(id) || is_running(s, id));
                if !s.completed.contains(id) {
                    let i = choose|i: int| 0 <= i < s.current.len() && s.current[i] == Some(id);
                    assert(t.current[i] == Some(id));
                }
            }
        },
    }
}

/// Every state that a pool of `n` workers reaches satisfies `pool_inv`.
pub proof fn lemma_reachable_inv(n: nat, steps: Seq<PoolStep>)
    requires
        pool_run(n, steps) is Some,
    ensures
        pool_inv(pool_run(n, steps)->Some_0),
    decreases steps.len(),
{
    if steps.len() == 0 {
        lemma_init_inv(n);
    } else {
        lemma_reachable_inv(n, steps.drop_last());
        lemma_step_inv(pool_run(n, steps.drop_last())->Some_0, steps.last());
    }
}

/// No job is lost or run twice, however callers interleave their sends:
/// in every state a pool reaches, each job sent so far is waiting on the
/// queue, running on a worker, or done, and in only one of these places,
/// and no job has ended twice.
pub proof fn lemma_each_job_in_one_place(n: nat, steps: Seq<PoolStep>)
    requires
        pool_run(n, steps) is Some,
    ensures
        ({
            let s = pool_run(n, steps)->Some_0;
            &&& s.completed.no_duplicates()
            &&& forall|id: nat| #[trigger] s.completed.contains(id) ==> id < s.submitted
            &&& forall|id: nat| id < s.submitted ==> {
                ||| #[trigger] s.queue.contains(id)
                ||| is_running(s, id)
                ||| s.completed.contains(id)
            }
            &&& forall|id: nat| #[trigger] s.queue.contains(id) ==> !is_running(s, id) && !s.completed.contains(id)
            &&& forall|id: nat| is_running(s, id) ==> !(#[trigger] s.completed.contains(id))
        }),
{
    lemma_reachable_inv(n, steps);
    let s = pool_run(n, steps)->Some_0;
    assert forall|id: nat| #[trigger] s.completed.contains(id) implies id < s.submitted by {
        let k = choose|k: int| 0 <= k < s.completed.len() && s.completed[k] == id;
        assert(s.completed[k] < s.received);
    }
    assert forall|id: nat| id < s.submitted implies {
        ||| #[trigger] s.queue.contains(id)
        ||| is_running(s, id)
        ||| s.completed.contains(id)
    } by {
        if id >= s.received {
            assert(s.queue[id - s.received] == id);
        }
    }
    assert forall|id: nat| #[trigger] s.queue.contains(id) implies !is_running(s, id) && !s.completed.contains(id) by {
        let q = choose|q: int| 0 <= q < s.queue.len() && s.queue[q] == id;
        assert(id >= s.received);
        if is_running(s, id) {
            let i = choose|i: int| 0 <= i < s.current.len() && s.current[i] == Some(id);
            assert(s.current[i] is Some);
        }
        if s.completed.contains(id) {
            let k = choose|k: int| 0 <= k < s.completed.len() && s.completed[k] == id;
            assert(s.completed[k] < s.received);
        }
    }
    assert forall|id: nat| is_running(s, id) implies !(#[trigger] s.completed.contains(id)) by {
        let i = choose|i: int| 0 <= i < s.current.len() && s.current[i] == Some(id);
        assert(s.current[i] is Some);
    }
}

/// Teardown drains the pool: once it has finished, every job that was sent
/// before it began has run to its end, each exactly once. (No job can be
/// sent after teardown has closed the queue.)
pub proof fn lemma_teardown_runs_every_job(n: nat, steps: Seq<PoolStep>)
    requires
        n > 0,
        pool_run(n, steps) is Some,
        shutdown_action(pool_run(n, steps)->Some_0.teardown) == ShutdownAction::Finished,
    ensures
        ({
            let s = pool_run(n, steps)->Some_0;
            &&& s.completed.no_duplicates()
            &&& forall|id: nat| #[trigger] s.completed.contains(id) <==> id < s.submitted
        }),
{
    lemma_reachable_inv(n, steps);
    lemma_each_job_in_one_place(n, steps);
    lemma_workers_len(n, steps);
    let s = pool_run(n, steps)->Some_0;
    assert(s.workers[0] == WorkerState::Terminated);
    assert forall|id: nat| id < s.submitted implies #[trigger] s.completed.contains(id) by {
        if !s.completed.contains(id) {
            if is_running(s, id) {
                let i = choose|i: int| 0 <= i < s.current.len() && s.current[i] == Some(id);
                assert(s.workers[i] == WorkerState::Terminated);
            } else {
                assert(s.queue.contains(id));
            }
        }
    }
}

/// No worker outlives teardown: once it has finished, every worker of the
/// pool has ended and has been joined.
pub proof fn lemma_no_worker_outlives_teardown(n: nat, steps: Seq<PoolStep>)
    requires
        pool_run(n, steps) is Some,
        shutdown_action(pool_run(n, steps)->Some_0.teardown) == ShutdownAction::Finished,
    ensures
        ({
            let s = pool_run(n, steps)->Some_0;
            &&& s.teardown.joined == n
            &&& forall|i: int| 0 <= i < n ==> #[trigger] s.workers[i] == WorkerState::Terminated
        }),
{
    lemma_reachable_inv(n, steps);
    lemma_workers_len(n, steps);
}

proof fn lemma_workers_len(n: nat, steps: Seq<PoolStep>)
    requires
        pool_run(n, steps) is Some,
    ensures
        pool_run(n, steps)->Some_0.workers.len() == n,
    decreases steps.len(),
{
    if steps.len() > 0 {
        lemma_workers_len(n, steps.drop_last());
    }
}

/// Sending never waits: from any state a pool reaches before teardown, any
/// number `k` of further sends all go through at once, whatever the queue
/// holds and whatever the workers are doing. They add `k` jobs to the
/// queue and leave every worker and every finished job as they were.
pub proof fn lemma_submit_never_waits(n: nat, steps: Seq<PoolStep>, k: nat)
    requires
        pool_run(n, steps) is Some,
        !pool_run(n, steps)->Some_0.teardown.sender_closed,
    ensures
        ({
            let s = pool_run(n, steps)->Some_0;
            let burst = steps + Seq::new(k, |i: int| PoolStep::Submit);
            &&& pool_run(n, burst) is Some
            &&& pool_run(n, burst)->Some_0.queue.len() == s.queue.len() + k
            &&& pool_run(n, burst)->Some_0.submitted == s.submitted + k
            &&& pool_run(n, burst)->Some_0.workers == s.workers
            &&& pool_run(n, burst)->Some_0.current == s.current
            &&& pool_run(n, burst)->Some_0.completed == s.completed
        }),
    decreases k,
{
    let burst = steps + Seq::new(k, |i: int| PoolStep::Submit);
    if k == 0 {
        assert(burst =~= steps);
    } else {
        lemma_submit_never_waits(n, steps, (k - 1) as nat);
        let shorter = steps + Seq::new((k - 1) as nat, |i: int| PoolStep::Submit);
        assert(burst.drop_last() =~= shorter);
        assert(burst.last() == PoolStep::Submit);
    }
}

} // verus!
