use nasm_rs::{Build, JobAction, JobQueue, SearchStep};

fn expect_spawn(q: &mut JobQueue) -> usize {
    match q.step() {
        JobAction::Spawn(i) => i,
        other => panic!("expected a spawn, got {:?}", other),
    }
}

#[test]
fn single_token_runs_one_at_a_time() {
    let mut q = JobQueue::new(3, 1, false);
    assert!(matches!(q.step(), JobAction::ReleaseOwnToken));
    for i in 0..3 {
        assert_eq!(expect_spawn(&mut q), i);
        assert!(matches!(q.step(), JobAction::AwaitCompletion));
        assert!(q.complete(i, Ok(format!("o{}.o", i))));
    }
    assert!(matches!(q.step(), JobAction::ReclaimOwnToken));
    match q.step() {
        JobAction::Done(Ok(objs)) => assert_eq!(objs, vec!["o0.o", "o1.o", "o2.o"]),
        other => panic!("unexpected {:?}", other),
    }
}

#[test]
fn results_come_back_in_input_order() {
    let mut q = JobQueue::new(3, 3, false);
    assert!(matches!(q.step(), JobAction::ReleaseOwnToken));
    assert_eq!(expect_spawn(&mut q), 0);
    assert_eq!(expect_spawn(&mut q), 1);
    assert_eq!(expect_spawn(&mut q), 2);
    assert!(matches!(q.step(), JobAction::AwaitCompletion));
    assert!(q.complete(2, Ok("c.o".to_string())));
    assert!(q.complete(0, Ok("a.o".to_string())));
    assert!(q.complete(1, Ok("b.o".to_string())));
    assert!(matches!(q.step(), JobAction::ReclaimOwnToken));
    match q.step() {
        JobAction::Done(Ok(objs)) => assert_eq!(objs, vec!["a.o", "b.o", "c.o"]),
        other => panic!("unexpected {:?}", other),
    }
}

#[test]
fn in_flight_never_exceeds_budget() {
    let mut q = JobQueue::new(5, 2, false);
    assert!(matches!(q.step(), JobAction::ReleaseOwnToken));
    assert_eq!(expect_spawn(&mut q), 0);
    assert_eq!(expect_spawn(&mut q), 1);
    assert!(matches!(q.step(), JobAction::AwaitCompletion));
    assert!(q.is_in_flight(0) && q.is_in_flight(1) && !q.is_in_flight(2));
    assert!(q.complete(1, Ok("b.o".to_string())));
    assert_eq!(expect_spawn(&mut q), 2);
    assert!(matches!(q.step(), JobAction::AwaitCompletion));
}

#[test]
fn first_error_in_input_order_wins() {
    let mut q = JobQueue::new(3, 3, false);
    q.step();
    for i in 0..3 {
        assert_eq!(expect_spawn(&mut q), i);
    }
    assert!(q.complete(2, Err("third failed".to_string())));
    assert!(q.complete(1, Err("second failed".to_string())));
    assert!(matches!(q.step(), JobAction::AwaitCompletion));
    assert!(q.complete(0, Ok("a.o".to_string())));
    assert!(matches!(q.step(), JobAction::ReclaimOwnToken));
    match q.step() {
        JobAction::Done(Err(e)) => assert_eq!(e, "second failed"),
        other => panic!("unexpected {:?}", other),
    }
}

#[test]
fn stop_on_error_halts_dispatch() {
    let mut q = JobQueue::new(3, 1, true);
    q.step();
    assert_eq!(expect_spawn(&mut q), 0);
    assert!(q.complete(0, Err("boom".to_string())));
    assert!(matches!(q.step(), JobAction::ReclaimOwnToken));
    match q.step() {
        JobAction::Done(Err(e)) => assert_eq!(e, "boom"),
        other => panic!("unexpected {:?}", other),
    }
}

#[test]
fn reports_for_units_not_in_flight_are_ignored() {
    let mut q = JobQueue::new(2, 2, false);
    assert!(!q.complete(0, Ok("x.o".to_string())));
    q.step();
    assert_eq!(expect_spawn(&mut q), 0);
    assert!(!q.complete(1, Ok("x.o".to_string())));
    assert!(q.complete(0, Ok("a.o".to_string())));
    assert!(!q.complete(0, Ok("again.o".to_string())));
}

#[test]
fn empty_queue_finishes() {
    let mut q = JobQueue::new(0, 1, false);
    assert_eq!(q.units(), 0);
    assert!(matches!(q.step(), JobAction::ReleaseOwnToken));
    assert!(matches!(q.step(), JobAction::ReclaimOwnToken));
    match q.step() {
        JobAction::Done(Ok(objs)) => assert!(objs.is_empty()),
        other => panic!("unexpected {:?}", other),
    }
}

#[test]
fn search_tries_candidates_in_order() {
    let b = Build::new(None);
    let mut s = b.nasm_search(&["/usr/bin", "/opt/nasm/"]);
    match s.next_step() {
        SearchStep::Probe(p) => assert_eq!(p, "nasm"),
        other => panic!("unexpected {:?}", other),
    }
    s.record(Err("old one".to_string()));
    match s.next_step() {
        SearchStep::Probe(p) => assert_eq!(p, "/usr/bin/nasm"),
        other => panic!("unexpected {:?}", other),
    }
    s.record(Ok(()));
    match s.next_step() {
        SearchStep::Found(p) => assert_eq!(p, "/usr/bin/nasm"),
        other => panic!("unexpected {:?}", other),
    }
}

#[test]
fn search_reports_first_error() {
    let b = Build::new(None);
    let mut s = b.nasm_search(&["/a"]);
    s.record(Err("first".to_string()));
    s.record(Err("second".to_string()));
    match s.next_step() {
        SearchStep::Failed(e) => assert_eq!(e, "first"),
        other => panic!("unexpected {:?}", other),
    }
    s.record(Ok(()));
    assert!(matches!(s.next_step(), SearchStep::Failed(_)));
}

#[test]
fn search_uses_configured_path_alone() {
    let mut b = Build::new(None);
    b.nasm("/custom/nasm");
    let mut s = b.nasm_search(&["/usr/bin"]);
    match s.next_step() {
        SearchStep::Probe(p) => assert_eq!(p, "/custom/nasm"),
        other => panic!("unexpected {:?}", other),
    }
    s.record(Err("too old".to_string()));
    match s.next_step() {
        SearchStep::Failed(e) => assert_eq!(e, "too old"),
        other => panic!("unexpected {:?}", other),
    }
}
