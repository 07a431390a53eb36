use pingdom_uptime::dispatch::{Batch, Check, FetchError, Status, CONCURRENCY_LIMIT};
use pingdom_uptime::uptime::WeeklyRecord;

fn check(id: &str, name: &str) -> Check {
    Check { id: id.to_string(), name: name.to_string() }
}

fn good_weeks() -> Vec<WeeklyRecord> {
    vec![WeeklyRecord { uptime: 600000, downtime: 4800, unmonitored: 0 }]
}

fn checks(n: usize) -> Vec<Check> {
    (0..n).map(|i| check(&i.to_string(), &format!("check {}", i))).collect()
}

#[test]
fn never_more_than_limit_in_flight() {
    let mut b = Batch::new(checks(25), CONCURRENCY_LIMIT);
    let mut running: Vec<usize> = Vec::new();
    let mut most = 0;
    let mut started = 0;
    while !b.is_done() {
        while let Some(i) = b.start_next() {
            running.push(i);
            started += 1;
        }
        assert!(running.len() <= 10);
        assert_eq!(running.len(), b.in_flight);
        most = most.max(running.len());
        let i = running.remove(0);
        b.complete(i, Ok(good_weeks()));
    }
    assert_eq!(most, 10);
    assert_eq!(started, 25);
    assert_eq!(b.into_ranked().len(), 25);
}

#[test]
fn one_failed_check_is_dropped() {
    let mut b = Batch::new(checks(5), CONCURRENCY_LIMIT);
    while let Some(i) = b.start_next() {
        assert!(i < 5);
    }
    for i in [4usize, 0, 2, 1, 3] {
        if i == 2 {
            b.complete(i, Err(FetchError::Network));
        } else {
            b.complete(i, Ok(good_weeks()));
        }
    }
    assert!(b.is_done());
    assert_eq!(b.status[2], Status::Failed);
    let out = b.into_ranked();
    assert_eq!(out.len(), 4);
    assert!(out.iter().all(|s| s.id != "2"));
}

#[test]
fn every_error_kind_drops_the_check() {
    let mut b = Batch::new(checks(4), 2);
    assert_eq!(b.start_next(), Some(0));
    assert_eq!(b.start_next(), Some(1));
    assert_eq!(b.start_next(), None);
    b.complete(0, Err(FetchError::Decode));
    assert_eq!(b.start_next(), Some(2));
    b.complete(1, Err(FetchError::RemoteRejected));
    b.complete(2, Err(FetchError::Network));
    assert_eq!(b.start_next(), Some(3));
    b.complete(3, Ok(vec![WeeklyRecord { uptime: u64::MAX, downtime: 1, unmonitored: 0 }]));
    assert!(b.is_done());
    assert_eq!(b.status, vec![Status::Failed; 4]);
    assert!(b.into_ranked().is_empty());
}

#[test]
fn completing_a_check_that_is_not_running_is_ignored() {
    let mut b = Batch::new(checks(3), 1);
    assert_eq!(b.start_next(), Some(0));
    b.complete(1, Ok(good_weeks()));
    b.complete(7, Ok(good_weeks()));
    assert_eq!(b.in_flight, 1);
    assert_eq!(b.status[1], Status::Queued);
    b.complete(0, Ok(good_weeks()));
    b.complete(0, Err(FetchError::Network));
    assert_eq!(b.status[0], Status::Succeeded);
    assert_eq!(b.collected.len(), 1);
    assert_eq!(b.collected[0].downtime_mins, 80);
    assert_eq!(b.check(2).name, "check 2");
}

#[test]
fn empty_batch_is_done_at_once() {
    let mut b = Batch::new(Vec::new(), CONCURRENCY_LIMIT);
    assert!(b.is_done());
    assert_eq!(b.start_next(), None);
    assert!(b.into_ranked().is_empty());
}

#[test]
fn report_lists_alpha_before_beta() {
    let mut b = Batch::new(vec![check("2", "Beta"), check("1", "Alpha")], CONCURRENCY_LIMIT);
    assert_eq!(b.start_next(), Some(0));
    assert_eq!(b.start_next(), Some(1));
    b.complete(0, Ok(good_weeks()));
    b.complete(1, Ok(vec![WeeklyRecord { uptime: 500000, downtime: 1200, unmonitored: 0 }]));
    let out = b.into_ranked();
    let names: Vec<&str> = out.iter().map(|s| s.name.as_str()).collect();
    assert_eq!(names, vec!["Alpha", "Beta"]);
    assert_eq!(out[0].id, "1");
    assert_eq!(out[1].percentage_e4, 992063);
}
