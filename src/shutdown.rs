use vstd::prelude::*;

verus! {

/// The abstract state of a pool's teardown.
pub struct ShutdownModel {
    /// Workers of the pool.
    pub workers: nat,
    /// Whether the pool's sending end of the queue has been dropped.
    pub sender_closed: bool,
    /// Workers joined so far, in index order.
    pub joined: nat,
}

/// What teardown does next.
#[derive(Clone, Copy, Debug, PartialEq, Eq, Structural)]
pub enum ShutdownAction {
    /// Drop the sending end, so that waiting workers see the queue closed.
    CloseSender,
    /// Wait for the worker of this index to end.
    Join(usize),
    /// Every worker has been joined: teardown returns.
    Finished,
}

/// Teardown closes the queue first, then joins the workers one by one.
pub open spec fn shutdown_action(m: ShutdownModel) -> ShutdownAction {
    if !m.sender_closed {
        ShutdownAction::CloseSender
    } else if m.joined < m.workers {
        ShutdownAction::Join(m.joined as usize)
    } else {
        ShutdownAction::Finished
    }
}

/// The state once the action that `shutdown_action` names has been done.
pub open spec fn shutdown_advance(m: ShutdownModel) -> ShutdownModel {
    if !m.sender_closed {
        ShutdownModel { sender_closed: true, ..m }
    } else if m.joined < m.workers {
        ShutdownModel { joined: m.joined + 1, ..m }
    } else {
        m
    }
}

/// The state of a pool of `workers` workers before teardown begins.
pub open spec fn shutdown_init(workers: nat) -> ShutdownModel {
    ShutdownModel { workers, sender_closed: false, joined: 0 }
}

/// The actions of a whole teardown, in order, from state `m`.
pub open spec fn shutdown_plan(m: ShutdownModel) -> Seq<ShutdownAction>
    decreases (if m.sender_closed { 0int } else { 1int }) + m.workers - m.joined,
{
    if shutdown_action(m) == ShutdownAction::Finished || m.joined > m.workers {
        Seq::empty()
    } else {
        seq![shutdown_action(m)] + shutdown_plan(shutdown_advance(m))
    }
}

/// The bookkeeping of a pool's teardown.
pub struct Shutdown {
    workers: usize,
    sender_closed: bool,
    joined: usize,
}

impl View for Shutdown {
    type V = ShutdownModel;

    closed spec fn view(&self) -> ShutdownModel {
        ShutdownModel {
            workers: self.workers as nat,
            sender_closed: self.sender_closed,
            joined: self.joined as nat,
        }
    }
}

impl Shutdown {
    /// No worker is joined before the queue is closed, nor more workers
    /// than the pool has.
    #[verifier::type_invariant]
    spec fn well_formed(&self) -> bool {
        &&& self.joined <= self.workers
        &&& (self.joined > 0 ==> self.sender_closed)
    }

    /// Teardown of a pool of `workers` workers, before anything is done.
    pub fn new(workers: usize) -> (r: Shutdown)
        ensures
            r@ == shutdown_init(workers as nat),
    {
        Shutdown { workers, sender_closed: false, joined: 0 }
    }

    /// What teardown does next.
    pub fn next_action(&self) -> (r: ShutdownAction)
        ensures
            r == shutdown_action(self@),
    {
        if !self.sender_closed {
            ShutdownAction::CloseSender
        } else if self.joined < self.workers {
            ShutdownAction::Join(self.joined)
        } else {
            ShutdownAction::Finished
        }
    }

    /// Records that the action `next_action` named has been done.
    pub fn advance(&mut self)
        ensures
            final(self)@ == shutdown_advance(old(self)@),
    {
        proof {
            use_type_invariant(&*self);
        }
        if !self.sender_closed {
            self.sender_closed = true;
        } else if self.joined < self.workers {
            self.joined = self.joined + 1;
        }
    }
}

/// Teardown of a pool of `n` workers closes the sending end once, before
/// anything else, then joins each worker exactly once, in index order, and
/// then returns.
pub proof fn lemma_teardown_order(n: nat)
    ensures
        shutdown_plan(shutdown_init(n)).len() == n + 1,
        shutdown_plan(shutdown_init(n))[0] == ShutdownAction::CloseSender,
        forall|i: int|
            1 <= i <= n ==> #[trigger] shutdown_plan(shutdown_init(n))[i] == ShutdownAction::Join(
                (i - 1) as usize,
            ),
{
    let m = shutdown_init(n);
    let closed = shutdown_advance(m);
    lemma_joins_from(closed);
    assert(shutdown_plan(m) == seq![ShutdownAction::CloseSender] + shutdown_plan(closed));
}

proof fn lemma_joins_from(m: ShutdownModel)
    requires
        m.sender_closed,
        m.joined <= m.workers,
    ensures
        shutdown_plan(m).len() == m.workers - m.joined,
        forall|i: int|
            0 <= i < m.workers - m.joined ==> #[trigger] shutdown_plan(m)[i] == ShutdownAction::Join(
                (m.joined + i) as usize,
            ),
    decreases m.workers - m.joined,
{
    if m.joined < m.workers {
        let next = shutdown_advance(m);
        lemma_joins_from(next);
        assert forall|i: int| 0 <= i < m.workers - m.joined implies #[trigger] shutdown_plan(m)[i]
            == ShutdownAction::Join((m.joined + i) as usize) by {
            if i > 0 {
                assert(shutdown_plan(m)[i] == shutdown_plan(next)[i - 1]);
            }
        }
    }
}

} // verus!
