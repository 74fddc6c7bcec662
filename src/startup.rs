use vstd::prelude::*;

verus! {

/// The abstract state of a pool under construction.
pub struct StartupModel {
    /// Workers asked for.
    pub size: nat,
    /// Worker threads created so far.
    pub spawned: nat,
    /// Whether a thread creation has failed.
    pub failed: bool,
}

/// What construction does next.
#[derive(Clone, Copy, Debug, PartialEq, Eq, Structural)]
pub enum StartupAction {
    /// Create one more worker thread.
    SpawnWorker,
    /// Every worker exists: the pool is usable.
    Finished,
    /// A thread could not be created: construction returns the error.
    Abort,
}

/// Construction stops at the first failure and finishes once `size` threads exist.
pub open spec fn startup_action(m: StartupModel) -> StartupAction {
    if m.failed {
        StartupAction::Abort
    } else if m.spawned < m.size {
        StartupAction::SpawnWorker
    } else {
        StartupAction::Finished
    }
}

/// The state after one attempt to create a thread.
pub open spec fn startup_record(m: StartupModel, succeeded: bool) -> StartupModel {
    if succeeded {
        StartupModel { spawned: m.spawned + 1, ..m }
    } else {
        StartupModel { failed: true, ..m }
    }
}

/// Feeds the outcomes of successive thread creations to construction, for
/// as long as it asks for another thread.
pub open spec fn startup_run(m: StartupModel, outcomes: Seq<bool>) -> StartupModel
    decreases outcomes.len(),
{
    if outcomes.len() == 0 || startup_action(m) != StartupAction::SpawnWorker {
        m
    } else {
        startup_run(startup_record(m, outcomes[0]), outcomes.drop_first())
    }
}

/// The state right after a pool of `size` workers is asked for.
pub open spec fn startup_init(size: nat) -> StartupModel {
    StartupModel { size, spawned: 0, failed: false }
}

/// The bookkeeping of a pool's construction: how many of its worker
/// threads have been created, and whether one could not be.
pub struct Startup {
    size: usize,
    spawned: usize,
    failed: bool,
}

impl View for Startup {
    type V = StartupModel;

    closed spec fn view(&self) -> StartupModel {
        StartupModel { size: self.size as nat, spawned: self.spawned as nat, failed: self.failed }
    }
}

impl Startup {
    /// Construction never creates more threads than asked for, and a pool
    /// has at least one worker.
    #[verifier::type_invariant]
    spec fn well_formed(&self) -> bool {
        &&& self.spawned <= self.size
        &&& self.size > 0
    }

    /// Starts the construction of a pool of `size` workers. A size of zero
    /// is a caller's error, not a failure to report.
    pub fn new(size: usize) -> (r: Startup)
        requires
            size > 0,
        ensures
            r@ == startup_init(size as nat),
    {
        Startup { size, spawned: 0, failed: false }
    }

    /// The number of workers asked for.
    pub fn size(&self) -> (r: usize)
        ensures
            r == self@.size,
    {
        self.size
    }

    /// The number of worker threads created so far.
    pub fn spawned(&self) -> (r: usize)
        ensures
            r == self@.spawned,
    {
        self.spawned
    }

    /// What construction does next.
    pub fn next_action(&self) -> (r: StartupAction)
        ensures
            r == startup_action(self@),
    {
        if self.failed {
            StartupAction::Abort
        } else if self.spawned < self.size {
            StartupAction::SpawnWorker
        } else {
            StartupAction::Finished
        }
    }

    /// Records the outcome of the thread creation that `next_action` asked for.
    pub fn record_spawn(&mut self, succeeded: bool)
        requires
            startup_action(old(self)@) == StartupAction::SpawnWorker,
        ensures
            final(self)@ == startup_record(old(self)@, succeeded),
    {
        if succeeded {
            self.spawned = self.spawned + 1;
        } else {
            self.failed = true;
        }
    }
}

/// A pool is only ever usable with exactly as many worker threads as were
/// asked for: construction finishes only when every requested thread was
/// created, and with every creation having succeeded.
pub proof fn lemma_finished_with_every_worker(size: nat, outcomes: Seq<bool>)
    requires
        size > 0,
    ensures
        startup_action(startup_run(startup_init(size), outcomes)) == StartupAction::Finished
            <==> (outcomes.len() >= size && forall|i: int| 0 <= i < size ==> outcomes[i]),
        startup_action(startup_run(startup_init(size), outcomes)) == StartupAction::Finished
            ==> startup_run(startup_init(size), outcomes).spawned == size,
{
    lemma_run_from(startup_init(size), outcomes);
}

proof fn lemma_run_from(m: StartupModel, outcomes: Seq<bool>)
    requires
        !m.failed,
        m.spawned <= m.size,
    ensures
        ({
            let r = startup_run(m, outcomes);
            let k = (m.size - m.spawned) as int;
            &&& r.size == m.size
            &&& r.spawned <= r.size
            &&& (startup_action(r) == StartupAction::Finished
                <==> (outcomes.len() >= k && forall|i: int| 0 <= i < k ==> outcomes[i]))
            &&& (startup_action(r) == StartupAction::Finished ==> r.spawned == r.size)
        }),
    decreases outcomes.len(),
{
    if outcomes.len() == 0 || startup_action(m) != StartupAction::SpawnWorker {
    } else {
        let next = startup_record(m, outcomes[0]);
        if outcomes[0] {
            lemma_run_from(next, outcomes.drop_first());
            let k = (m.size - m.spawned) as int;
            let r = startup_run(m, outcomes);
            if startup_action(r) == StartupAction::Finished {
                assert forall|i: int| 0 <= i < k implies outcomes[i] by {
                    if i > 0 {
                        assert(outcomes[i] == outcomes.drop_first()[i - 1]);
                    }
                }
            }
            if outcomes.len() >= k && forall|i: int| 0 <= i < k ==> outcomes[i] {
                assert forall|i: int| 0 <= i < k - 1 implies outcomes.drop_first()[i] by {
                    assert(outcomes.drop_first()[i] == outcomes[i + 1]);
                }
            }
        } else {
            assert(startup_run(next, outcomes.drop_first()) == next);
        }
    }
}

} // verus!
