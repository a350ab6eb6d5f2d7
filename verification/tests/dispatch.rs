use sapper::DispatchCounter;

#[test]
fn assignments_round_robin_in_arrival_order() {
    let mut c = DispatchCounter::new(3);
    let ws = c.assign_many(6);
    assert_eq!(ws, vec![0, 1, 2, 0, 1, 2]);
}

#[test]
fn each_worker_gets_an_equal_share() {
    // 12 connections over 4 workers: 3 each, whatever the start state
    let mut c = DispatchCounter::new(4);
    let _ = c.advance();
    let _ = c.advance();
    let ws = c.assign_many(12);
    for w in 0..4usize {
        assert_eq!(ws.iter().filter(|x| **x == w).count(), 3);
    }
}

#[test]
fn counter_wraps_at_pool_size() {
    let mut c = DispatchCounter::new(2);
    assert_eq!(c.advance(), 0);
    assert_eq!(c.advance(), 1);
    assert_eq!(c.advance(), 0);
}

#[test]
fn single_worker_receives_everything() {
    let mut c = DispatchCounter::new(1);
    assert_eq!(c.assign_many(5), vec![0, 0, 0, 0, 0]);
}

#[test]
fn pool_follows_detected_processors() {
    let c = DispatchCounter::for_detected_cpus();
    assert!(c.pool() >= 1);
}
