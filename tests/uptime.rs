use pingdom_uptime::uptime::{reduce, records_fit, try_reduce, WeeklyRecord, PERCENT_SCALE};

fn week(uptime: u64, downtime: u64, unmonitored: u64) -> WeeklyRecord {
    WeeklyRecord { uptime, downtime, unmonitored }
}

#[test]
fn reduce_two_weeks() {
    let records = vec![week(500000, 1200, 0), week(500000, 0, 300)];
    let s = reduce("7".to_string(), "Web".to_string(), &records);
    assert_eq!(s.id, "7");
    assert_eq!(s.name, "Web");
    assert_eq!(s.uptime, 1000000);
    assert_eq!(s.downtime, 1200);
    assert_eq!(s.unmonitored, 300);
    assert_eq!(s.max_uptime, 1001500);
    assert_eq!(s.downtime_mins, 20);
    // round4(1000300 / 1001500 * 100) = round4(99.88017973...) = 99.8802
    assert_eq!(s.percentage_e4, 998802);
}

#[test]
fn reduce_empty_is_all_zero() {
    let s = reduce("1".to_string(), "Empty".to_string(), &vec![]);
    assert_eq!(s.uptime, 0);
    assert_eq!(s.downtime, 0);
    assert_eq!(s.unmonitored, 0);
    assert_eq!(s.max_uptime, 0);
    assert_eq!(s.downtime_mins, 0);
    assert_eq!(s.percentage_e4, 0);
}

#[test]
fn max_uptime_is_sum_of_all_seconds() {
    let records = vec![week(10, 20, 30), week(1, 2, 3), week(100, 0, 0)];
    let s = reduce("1".to_string(), "A".to_string(), &records);
    assert_eq!(s.max_uptime, 111 + 22 + 33);
    assert_eq!(s.max_uptime, s.uptime + s.downtime + s.unmonitored);
}

#[test]
fn percentage_bounds() {
    let all_up = reduce("1".to_string(), "A".to_string(), &vec![week(604800, 0, 0)]);
    assert_eq!(all_up.percentage_e4, 100 * PERCENT_SCALE);
    let all_down = reduce("1".to_string(), "A".to_string(), &vec![week(0, 604800, 0)]);
    assert_eq!(all_down.percentage_e4, 0);
    let unmonitored = reduce("1".to_string(), "A".to_string(), &vec![week(0, 0, 500)]);
    assert_eq!(unmonitored.percentage_e4, 100 * PERCENT_SCALE);
    let mixed = reduce("1".to_string(), "A".to_string(), &vec![week(1, 2, 0)]);
    assert!(mixed.percentage_e4 <= 100 * PERCENT_SCALE);
    assert_eq!(mixed.percentage_e4, 333333);
}

#[test]
fn percentage_rounds_half_up() {
    let s = reduce("1".to_string(), "A".to_string(), &vec![week(1, 1999999, 0)]);
    // 1 / 2000000 * 100 = 0.00005, which rounds to 0.0001
    assert_eq!(s.percentage_e4, 1);
    let t = reduce("1".to_string(), "A".to_string(), &vec![week(2, 1, 0)]);
    // 66.66666...% rounds to 66.6667
    assert_eq!(t.percentage_e4, 666667);
}

#[test]
fn downtime_minutes_truncate_per_week() {
    let s = reduce("1".to_string(), "A".to_string(), &vec![week(0, 59, 0), week(0, 59, 0), week(0, 121, 0)]);
    assert_eq!(s.downtime, 239);
    assert_eq!(s.downtime_mins, 2);
}

#[test]
fn overflowing_records_do_not_fit() {
    let records = vec![week(u64::MAX, 0, 0), week(1, 0, 0)];
    assert!(!records_fit(&records));
    assert!(try_reduce("1".to_string(), "A".to_string(), &records).is_none());
    let edge = vec![week(u64::MAX - 2, 1, 1)];
    assert!(records_fit(&edge));
    let s = try_reduce("1".to_string(), "A".to_string(), &edge).unwrap();
    assert_eq!(s.max_uptime, u64::MAX);
    assert_eq!(s.percentage_e4, 1000000);
}
