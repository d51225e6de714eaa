use tunasync_monitor::{
    days_between, expired_repos_at, month_length, server_report, get_expire_days, get_expired_repos, sort_by_recency,
    status_url, TunasyncStatus,
};

const NOW: u64 = 1_700_000_000;

fn record(name: &str, ts: i64, status: &str) -> TunasyncStatus {
    TunasyncStatus {
        name: name.to_string(),
        is_master: true,
        status: status.to_string(),
        last_update: String::new(),
        last_update_ts: ts,
        last_ended: String::new(),
        last_ended_ts: ts,
        next_schedule: None,
        next_schedule_ts: None,
        upstream: "rsync://example.org/".to_string(),
        size: "1GiB".to_string(),
    }
}

#[test]
fn one_failed_and_one_never_updated() {
    let recs = vec![
        record("ubuntu", NOW as i64 - 100000, "failed"),
        record("debian", 0, "success"),
    ];
    let expected = vec![("ubuntu".to_string(), 1i64)];
    assert_eq!(expired_repos_at(&recs, 1, NOW, false), expected);
    assert_eq!(expired_repos_at(&recs, 1, NOW, true), expected);
}

#[test]
fn never_updated_is_never_flagged() {
    let recs = vec![record("debian", 0, "failed")];
    for t in [-10i64, 0, 1, 7, 1000] {
        assert!(expired_repos_at(&recs, t, NOW, false).is_empty());
        assert!(expired_repos_at(&recs, t, NOW, true).is_empty());
    }
}

#[test]
fn overdue_record_reports_truncated_days() {
    let recs = vec![record("arch", NOW as i64 - (8 * 86400 + 5), "success")];
    assert_eq!(
        expired_repos_at(&recs, 7, NOW, false),
        vec![("arch".to_string(), 8i64)]
    );
    assert_eq!(expired_repos_at(&recs, 8, NOW, false).len(), 1);
    assert!(expired_repos_at(&recs, 9, NOW, false).is_empty());
}

#[test]
fn exactly_at_threshold_is_not_stale() {
    let recs = vec![record("arch", NOW as i64 - 7 * 86400, "failed")];
    assert!(expired_repos_at(&recs, 7, NOW, false).is_empty());
}

#[test]
fn failed_only_policy_skips_other_statuses() {
    let recs = vec![
        record("a", NOW as i64 - 10 * 86400, "success"),
        record("b", NOW as i64 - 20 * 86400, "failed"),
        record("c", NOW as i64 - 30 * 86400, "Failed"),
    ];
    assert_eq!(
        expired_repos_at(&recs, 7, NOW, true),
        vec![("b".to_string(), 20i64)]
    );
    assert_eq!(expired_repos_at(&recs, 7, NOW, false).len(), 3);
}

#[test]
fn lower_threshold_never_flags_fewer() {
    let recs = vec![
        record("a", NOW as i64 - 2 * 86400 - 1, "failed"),
        record("b", NOW as i64 - 5 * 86400 - 1, "failed"),
        record("c", NOW as i64 - 9 * 86400 - 1, "failed"),
        record("d", 0, "failed"),
    ];
    let mut last = 0usize;
    for t in (0i64..12).rev() {
        let n = expired_repos_at(&recs, t, NOW, false).len();
        assert!(n >= last);
        last = n;
    }
    assert_eq!(last, 3);
}

#[test]
fn results_keep_record_order_and_duplicates() {
    let recs = vec![
        record("x", NOW as i64 - 3 * 86400 - 1, "failed"),
        record("y", NOW as i64 - 1, "failed"),
        record("x", NOW as i64 - 4 * 86400 - 1, "failed"),
    ];
    assert_eq!(
        expired_repos_at(&recs, 2, NOW, false),
        vec![("x".to_string(), 3i64), ("x".to_string(), 4i64)]
    );
}

#[test]
fn days_between_truncates_toward_zero() {
    assert_eq!(days_between(86400 * 3 + 86399, 0), 3);
    assert_eq!(days_between(100, 100 + 2 * 86400 + 1), -2);
    assert_eq!(days_between(0, i64::MIN), 106751991167300);
}

#[test]
fn current_time_is_after_2020() {
    assert!(get_expire_days(1_577_836_800) > 0);
    let recs = vec![record("old", 1_000_000_000, "success")];
    assert_eq!(get_expired_repos(&recs, 7).len(), 1);
}

#[test]
fn sort_puts_most_recent_first() {
    let mut recs = vec![
        record("a", 10, "success"),
        record("b", 30, "success"),
        record("c", 0, "success"),
        record("d", 30, "failed"),
        record("e", 20, "success"),
    ];
    sort_by_recency(&mut recs);
    let names: Vec<&str> = recs.iter().map(|r| r.name.as_str()).collect();
    assert_eq!(names, vec!["b", "d", "e", "a", "c"]);
    let ts: Vec<i64> = recs.iter().map(|r| r.last_update_ts).collect();
    assert_eq!(ts, vec![30, 30, 20, 10, 0]);
}

#[test]
fn sort_of_empty_list() {
    let mut recs: Vec<TunasyncStatus> = vec![];
    sort_by_recency(&mut recs);
    assert!(recs.is_empty());
}

#[test]
fn status_url_of_server() {
    assert_eq!(
        status_url("mirrors.example.org"),
        "https://mirrors.example.org/static/tunasync.json"
    );
}

#[test]
fn month_lengths() {
    assert_eq!(month_length(2020, 2), 29);
    assert_eq!(month_length(2019, 2), 28);
    assert_eq!(month_length(1900, 2), 28);
    assert_eq!(month_length(2000, 2), 29);
    assert_eq!(month_length(2021, 4), 30);
    assert_eq!(month_length(2021, 12), 31);
}

#[test]
fn report_lists_stale_repositories() {
    let expired = vec![("ubuntu".to_string(), 12i64), ("debian".to_string(), -3i64)];
    assert_eq!(
        server_report("mirror.example.org", &expired),
        vec![
            "mirror.example.org failed: ubuntu, 12 days ago".to_string(),
            "mirror.example.org failed: debian, -3 days ago".to_string(),
        ]
    );
}

#[test]
fn report_of_server_in_sync() {
    assert_eq!(
        server_report("mirror.example.org", &vec![]),
        vec!["mirror.example.org success: no out of sync mirrors".to_string()]
    );
}

#[test]
fn report_of_scenario_records() {
    let recs = vec![
        record("ubuntu", NOW as i64 - 100000, "failed"),
        record("debian", 0, "failed"),
    ];
    let expired = expired_repos_at(&recs, 1, NOW, false);
    assert_eq!(
        server_report("m", &expired),
        vec!["m failed: ubuntu, 1 days ago".to_string()]
    );
}
