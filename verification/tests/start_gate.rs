use vector_db_benchmark::start_gate::{
    check_joined, check_spawned, spawn_refused, AbortGateOnDrop, Arrival, Outcome, Phase, StartGate,
};

#[test]
fn a_pool_that_spawns_fewer_workers_than_it_plans_is_an_error() {
    let err = check_spawned("test", 3, 4).unwrap_err();
    assert!(err.contains("spawned 3 workers but the run is labelled parallel=4"), "{err}");
    assert!(check_spawned("test", 4, 4).is_ok());
}

#[test]
fn a_worker_that_settles_nothing_is_lost_not_hung() {
    let mut gate = StartGate::new();
    let mut tickets: Vec<_> = (0..3).map(|_| gate.ticket()).collect();
    assert_eq!(tickets[0].arrive_and_wait(&mut gate), Arrival::Parked);
    assert!(gate.wait_ready("test", 3).is_none());
    tickets[1].give_back(&mut gate);
    assert_eq!(tickets[2].arrive_and_wait(&mut gate), Arrival::Parked);
    let err = gate.wait_ready("test", 3).unwrap().unwrap_err();
    assert!(err.contains("only 2 of 3 test workers reached the start gate"), "{err}");
    assert_eq!(tickets[0].arrive_and_wait(&mut gate), Arrival::Dismissed);
}

#[test]
fn spawn_failure_is_a_prompt_error_not_a_hang() {
    let mut gate = StartGate::new();
    let mut parked: Vec<_> = (0..2).map(|_| gate.ticket()).collect();
    for t in parked.iter_mut() {
        assert_eq!(t.arrive_and_wait(&mut gate), Arrival::Parked);
    }
    let mut refused = gate.ticket();
    refused.give_back(&mut gate);
    gate.abort();
    let err = spawn_refused("test", 2, 4, "injected spawn failure");
    assert!(err.contains("could not start test worker 3"), "{err}");
    assert!(err.contains("ulimit -u"), "{err}");
    for t in parked.iter_mut() {
        assert_eq!(t.arrive_and_wait(&mut gate), Arrival::Dismissed);
    }
}

#[test]
fn worker_panic_before_the_gate_is_a_prompt_error_not_a_hang() {
    let mut gate = StartGate::new();
    let mut tickets: Vec<_> = (0..4).map(|_| gate.ticket()).collect();
    tickets[1].give_back(&mut gate);
    for i in [0, 2, 3] {
        let _ = tickets[i].arrive_and_wait(&mut gate);
    }
    let err = gate.wait_ready("test", 4).unwrap().unwrap_err();
    assert!(err.contains("only 3 of 4 test workers reached the start gate"), "{err}");
    assert!(err.contains("never reached the start gate"), "{err}");
}

#[test]
fn worker_panic_after_the_gate_is_reported_not_swallowed() {
    let err = check_joined("test", 1, 3).unwrap_err();
    assert!(err.contains("1 of 3 test workers panicked mid-run"), "{err}");
    assert!(check_joined("test", 0, 3).is_ok());
}

#[test]
fn worker_setup_failure_is_a_hard_error_not_a_quieter_run() {
    let mut gate = StartGate::new();
    let mut tickets: Vec<_> = (0..3).map(|_| gate.ticket()).collect();
    tickets[0].fail(&mut gate, "connection refused".to_string());
    for i in [1, 2] {
        let _ = tickets[i].arrive_and_wait(&mut gate);
    }
    let err = gate.wait_ready("test", 3).unwrap().unwrap_err();
    assert!(err.contains("connection refused"), "{err}");
    assert!(err.contains("1 failed setup"), "{err}");
}

#[test]
fn reasons_are_named_once_and_in_order() {
    let mut gate = StartGate::new();
    for reason in ["timeout", "refused", "timeout"] {
        gate.settle(Outcome::Failed(reason.to_string()));
    }
    gate.settle(Outcome::Lost);
    assert_eq!(
        gate.wait_ready("x", 4).unwrap().unwrap_err(),
        "only 0 of 4 x workers reached the start gate — 1 never reached the start gate (thread not \
         started, or panicked during setup), 3 failed setup: refused; timeout. Refusing to report a \
         run at parallel=4 that measured fewer workers"
    );
}

#[test]
fn all_workers_observe_one_shared_start_after_every_worker_warmed() {
    let mut gate = StartGate::new();
    let mut tickets: Vec<_> = (0..6).map(|_| gate.ticket()).collect();
    for t in tickets.iter_mut() {
        assert!(gate.wait_ready("test", 6).is_none());
        assert_eq!(t.arrive_and_wait(&mut gate), Arrival::Parked);
    }
    assert!(gate.wait_ready("test", 6).unwrap().is_ok());
    gate.release(120);
    for t in tickets.iter_mut() {
        assert_eq!(t.arrive_and_wait(&mut gate), Arrival::Started(120));
    }
}

#[test]
fn zero_workers_is_not_a_hang() {
    assert!(StartGate::new().wait_ready("test", 0).unwrap().is_ok());
}

#[test]
fn abort_releases_workers_already_parked_at_the_gate() {
    let mut gate = StartGate::new();
    let mut tickets: Vec<_> = (0..3).map(|_| gate.ticket()).collect();
    for i in [0, 1] {
        assert_eq!(tickets[i].arrive_and_wait(&mut gate), Arrival::Parked);
    }
    tickets[2].fail(&mut gate, "simulated late failure".to_string());
    let err = gate.wait_ready("test", 3).unwrap().unwrap_err();
    assert!(err.contains("simulated late failure"), "{err}");
    for i in [0, 1] {
        assert_eq!(tickets[i].arrive_and_wait(&mut gate), Arrival::Dismissed);
    }
}

#[test]
fn early_return_from_the_scope_closure_does_not_strand_parked_workers() {
    let mut gate = StartGate::new();
    let mut guard = AbortGateOnDrop::new();
    let mut ticket = gate.ticket();
    assert_eq!(ticket.arrive_and_wait(&mut gate), Arrival::Parked);
    guard.give_up(&mut gate);
    assert_eq!(ticket.arrive_and_wait(&mut gate), Arrival::Dismissed);
}

#[test]
fn a_start_is_not_taken_back() {
    let mut gate = StartGate::new();
    gate.release(7);
    gate.abort();
    AbortGateOnDrop::new().give_up(&mut gate);
    assert_eq!(gate.phase(), Phase::Released(7));
    let mut other = StartGate::new();
    other.abort();
    other.release(7);
    assert_eq!(other.phase(), Phase::Aborted);
}

#[test]
fn a_failed_wait_is_not_undone_by_a_release() {
    let mut gate = StartGate::new();
    let mut parked = gate.ticket();
    let mut late = gate.ticket();
    assert_eq!(parked.arrive_and_wait(&mut gate), Arrival::Parked);
    gate.settle(Outcome::Lost);
    assert!(gate.wait_ready("test", 2).unwrap().is_err());
    gate.release(9);
    gate.abort();
    assert_eq!(parked.arrive_and_wait(&mut gate), Arrival::Dismissed);
    assert_eq!(late.arrive_and_wait(&mut gate), Arrival::Dismissed);
    assert!(gate.wait_ready("test", 2).unwrap().is_err());
}

#[test]
fn the_first_release_is_the_start_of_every_worker() {
    let mut gate = StartGate::new();
    let mut first = gate.ticket();
    assert_eq!(first.arrive_and_wait(&mut gate), Arrival::Parked);
    gate.release(5);
    gate.release(6);
    let mut second = gate.ticket();
    assert_eq!(second.arrive_and_wait(&mut gate), Arrival::Started(5));
    gate.abort();
    assert_eq!(first.arrive_and_wait(&mut gate), Arrival::Started(5));
}

#[test]
fn a_guard_is_given_up_once() {
    let mut gate = StartGate::new();
    let mut guard = AbortGateOnDrop::new();
    let mut ticket = gate.ticket();
    ticket.fail(&mut gate, "x".to_string());
    guard.give_up(&mut gate);
    assert_eq!(gate.phase(), Phase::Aborted);
    let err = gate.wait_ready("test", 1).unwrap().unwrap_err();
    assert!(err.contains("1 failed setup: x"), "{err}");
    let mut other = StartGate::new();
    guard.give_up(&mut other);
    assert_eq!(other.phase(), Phase::Waiting);
}
