use pingdom_uptime::dates::{plan_run, range_from_stamps, DateError, DateRange, RunPlan};

#[test]
fn missing_date_asks_for_usage() {
    assert_eq!(plan_run(None, Some("12/31/2024")), Ok(RunPlan::Usage));
    assert_eq!(plan_run(Some("01/01/2024"), None), Ok(RunPlan::Usage));
    assert_eq!(plan_run(None, None), Ok(RunPlan::Usage));
}

#[test]
fn both_dates_give_midnight_stamps() {
    assert_eq!(
        plan_run(Some("01/01/2024"), Some("12/31/2024")),
        Ok(RunPlan::Report(DateRange { from: 1704067200, to: 1735603200 }))
    );
    assert_eq!(
        plan_run(Some("01/01/1970"), Some("01/02/1970")),
        Ok(RunPlan::Report(DateRange { from: 0, to: 86400 }))
    );
}

#[test]
fn bad_dates_are_refused() {
    assert_eq!(plan_run(Some("2024-01-01"), Some("12/31/2024")), Err(DateError::BadStartDate));
    assert_eq!(plan_run(Some("13/01/2024"), Some("nonsense")), Err(DateError::BadStartDate));
    assert_eq!(plan_run(Some("01/01/2024"), Some("02/30/2024")), Err(DateError::BadEndDate));
}

#[test]
fn stamps_make_a_range() {
    assert_eq!(range_from_stamps(Some(5), Some(9)), Ok(DateRange { from: 5, to: 9 }));
    assert_eq!(range_from_stamps(None, Some(9)), Err(DateError::BadStartDate));
    assert_eq!(range_from_stamps(None, None), Err(DateError::BadStartDate));
    assert_eq!(range_from_stamps(Some(5), None), Err(DateError::BadEndDate));
}
