//! A fixed-size worker pool, described by the decisions it makes.
//!
//! The threads, the channel and the lock live with the caller; this library
//! holds what each of them decides: when a worker runs a job or exits
//! (`worker`), how many workers are created before the pool is usable
//! (`startup`), and in what order teardown closes the queue and joins the
//! workers (`shutdown`). The `pool` module composes the three into a model of
//! the whole pool and proves that teardown drains every job that was sent,
//! each exactly once, and leaves no worker behind.
mod pool;
mod shutdown;
mod startup;
mod worker;

pub use pool::{
    is_running, lemma_each_job_in_one_place, lemma_no_worker_outlives_teardown,
    lemma_reachable_inv, lemma_submit_never_waits, lemma_teardown_runs_every_job, pool_enabled,
    pool_init, pool_inv, pool_next, pool_run, worker_is, PoolModel, PoolStep,
};
pub use shutdown::{
    lemma_teardown_order, shutdown_action, shutdown_advance, shutdown_init, shutdown_plan,
    Shutdown, ShutdownAction, ShutdownModel,
};
pub use startup::{
    lemma_finished_with_every_worker, startup_action, startup_init, startup_record, startup_run,
    Startup, StartupAction, StartupModel,
};
pub use worker::{worker_accepts, worker_step, WorkerAction, WorkerEvent, WorkerState};
