use chrono::{Datelike, Duration, Local, TimeZone};
use git_dashboard::activity::{activity_args, build_activity, get_activity, log_timestamps};

/// Timestamp for noon local time `days_ago` days before `today`.
fn ts_days_ago(today: chrono::NaiveDate, days_ago: i64) -> i64 {
    let date = today - Duration::days(days_ago);
    Local
        .with_ymd_and_hms(date.year(), date.month(), date.day(), 12, 0, 0)
        .unwrap()
        .timestamp()
}

fn day(d: chrono::NaiveDate) -> i32 {
    d.num_days_from_ce()
}

#[test]
fn test_build_activity_30_days_daily_buckets() {
    let today = chrono::NaiveDate::from_ymd_opt(2026, 6, 10).unwrap();
    let timestamps = vec![
        ts_days_ago(today, 0),
        ts_days_ago(today, 0),
        ts_days_ago(today, 29),
        ts_days_ago(today, 31),
    ];
    let a = build_activity(&timestamps, 30, day(today)).unwrap();
    assert_eq!(a.daily.counts.len(), 30);
    assert_eq!(a.daily.dates.len(), 30);
    assert_eq!(*a.daily.counts.last().unwrap(), 2);
    assert_eq!(a.daily.counts[0], 1);
    assert_eq!(a.daily.counts.iter().sum::<usize>(), 3);
    assert_eq!(a.hourly.iter().sum::<usize>(), 3);
    assert_eq!(a.weekly.iter().sum::<usize>(), 3);
    assert_eq!(a.hourly[12], 3);
    assert_eq!(a.daily.dates[0], "05/12");
    assert_eq!(a.daily.dates[29], "06/10");
}

#[test]
fn test_build_activity_90_days_weekly_buckets() {
    let today = chrono::NaiveDate::from_ymd_opt(2026, 6, 10).unwrap();
    let timestamps = vec![
        ts_days_ago(today, 0),
        ts_days_ago(today, 8),
        ts_days_ago(today, 89),
    ];
    let a = build_activity(&timestamps, 90, day(today)).unwrap();
    assert_eq!(a.daily.counts.len(), 13);
    assert_eq!(*a.daily.counts.last().unwrap(), 1);
    assert_eq!(a.daily.counts[11], 1);
    assert_eq!(a.daily.counts[0], 1);
    assert_eq!(a.daily.counts.iter().sum::<usize>(), 3);
}

#[test]
fn test_build_activity_all_history_span_from_oldest() {
    let today = chrono::NaiveDate::from_ymd_opt(2026, 6, 10).unwrap();
    let timestamps = vec![ts_days_ago(today, 0), ts_days_ago(today, 700)];
    let a = build_activity(&timestamps, 0, day(today)).unwrap();
    assert_eq!(a.daily.counts.len(), 31);
    assert_eq!(a.daily.counts.iter().sum::<usize>(), 2);
    assert_eq!(a.daily.counts[0], 1);
    assert_eq!(*a.daily.counts.last().unwrap(), 1);
    assert!(a.daily.dates[0].contains('/'));
    assert_eq!(a.daily.dates[0].len(), 5);
}

#[test]
fn test_build_activity_empty() {
    let today = chrono::NaiveDate::from_ymd_opt(2026, 6, 10).unwrap();
    let a = build_activity(&vec![], 0, day(today)).unwrap();
    assert_eq!(a.daily.counts.len(), 1);
    assert_eq!(a.daily.counts[0], 0);
    assert_eq!(a.hourly.iter().sum::<usize>(), 0);
}

#[test]
fn activity_totals_agree() {
    let today = chrono::NaiveDate::from_ymd_opt(2026, 6, 10).unwrap();
    let ts: Vec<i64> = (0..40).map(|d| ts_days_ago(today, d)).collect();
    let a = build_activity(&ts, 30, day(today)).unwrap();
    let daily: usize = a.daily.counts.iter().sum();
    assert_eq!(daily, a.hourly.iter().sum::<usize>());
    assert_eq!(daily, a.weekly.iter().sum::<usize>());
    assert_eq!(daily, 30);
}

#[test]
fn activity_from_log_output() {
    assert_eq!(activity_args(0), vec!["log", "--format=%at"]);
    assert_eq!(activity_args(30), vec!["log", "--format=%at", "--since=30 days ago"]);
    assert_eq!(log_timestamps(" 12 \nx\n-5\n"), vec![12, -5]);
    let empty = get_activity(Err("no commits".to_string()), 30, 700_000).unwrap();
    assert!(empty.daily.counts.is_empty());
    assert_eq!(empty.hourly, vec![0; 24]);
    assert_eq!(empty.weekly, vec![0; 7]);
}
