use threadpool::{Startup, StartupAction};

#[test]
fn pool_of_three_creates_three_workers() {
    let mut startup = Startup::new(3);
    let mut created: usize = 0;
    while startup.next_action() == StartupAction::SpawnWorker {
        startup.record_spawn(true);
        created += 1;
    }
    assert_eq!(startup.next_action(), StartupAction::Finished);
    assert_eq!(created, 3);
    assert_eq!(startup.spawned(), 3);
    assert_eq!(startup.size(), 3);
}

#[test]
fn pool_of_one_creates_one_worker() {
    let mut startup = Startup::new(1);
    assert_eq!(startup.next_action(), StartupAction::SpawnWorker);
    startup.record_spawn(true);
    assert_eq!(startup.next_action(), StartupAction::Finished);
    assert_eq!(startup.spawned(), 1);
}

#[test]
fn failed_thread_creation_aborts_construction() {
    let mut startup = Startup::new(4);
    startup.record_spawn(true);
    assert_eq!(startup.next_action(), StartupAction::SpawnWorker);
    startup.record_spawn(false);
    assert_eq!(startup.next_action(), StartupAction::Abort);
    assert_eq!(startup.spawned(), 1);
}

#[test]
fn first_thread_failing_aborts_at_once() {
    let mut startup = Startup::new(2);
    startup.record_spawn(false);
    assert_eq!(startup.next_action(), StartupAction::Abort);
    assert_eq!(startup.spawned(), 0);
}

#[test]
fn large_pool_creates_every_worker() {
    let mut startup = Startup::new(1000);
    let mut created: usize = 0;
    while startup.next_action() == StartupAction::SpawnWorker {
        startup.record_spawn(true);
        created += 1;
    }
    assert_eq!(created, 1000);
    assert_eq!(startup.next_action(), StartupAction::Finished);
}
