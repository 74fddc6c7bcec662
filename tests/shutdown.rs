use threadpool::{Shutdown, ShutdownAction};

fn plan(workers: usize) -> Vec<ShutdownAction> {
    let mut shutdown = Shutdown::new(workers);
    let mut actions = vec![];
    loop {
        let action = shutdown.next_action();
        actions.push(action);
        if action == ShutdownAction::Finished {
            return actions;
        }
        shutdown.advance();
    }
}

#[test]
fn teardown_closes_then_joins_each_worker_in_turn() {
    assert_eq!(
        plan(3),
        vec![
            ShutdownAction::CloseSender,
            ShutdownAction::Join(0),
            ShutdownAction::Join(1),
            ShutdownAction::Join(2),
            ShutdownAction::Finished,
        ]
    );
}

#[test]
fn teardown_of_one_worker() {
    assert_eq!(
        plan(1),
        vec![ShutdownAction::CloseSender, ShutdownAction::Join(0), ShutdownAction::Finished]
    );
}

#[test]
fn teardown_of_no_worker_only_closes() {
    assert_eq!(plan(0), vec![ShutdownAction::CloseSender, ShutdownAction::Finished]);
}

#[test]
fn finished_teardown_stays_finished() {
    let mut shutdown = Shutdown::new(1);
    shutdown.advance();
    shutdown.advance();
    assert_eq!(shutdown.next_action(), ShutdownAction::Finished);
    shutdown.advance();
    assert_eq!(shutdown.next_action(), ShutdownAction::Finished);
}

#[test]
fn teardown_joins_every_worker_of_a_large_pool() {
    let actions = plan(500);
    assert_eq!(actions.len(), 502);
    for i in 0..500 {
        assert_eq!(actions[i + 1], ShutdownAction::Join(i));
    }
}
