use tunasync_monitor::{
    candidate_repos, contains_name, cross_reference, CivilDate, dedup_names, index_name, index_names, index_names_now, local_date,
    month_dates, recent_dates, sizes_of, unused_repos, window_is_valid, TimeWindow,
};

fn strings(v: &[&str]) -> Vec<String> {
    v.iter().map(|s| s.to_string()).collect()
}

fn date(year: i64, month: u32, day: u32) -> CivilDate {
    CivilDate { year, month, day }
}

#[test]
fn dedup_keeps_first_occurrences() {
    let names = strings(&["ubuntu", "debian", "ubuntu", "arch", "debian"]);
    assert_eq!(dedup_names(&names), strings(&["ubuntu", "debian", "arch"]));
    assert!(dedup_names(&vec![]).is_empty());
}

#[test]
fn contains_name_finds_members() {
    let names = strings(&["a", "b"]);
    assert!(contains_name(&names, &"b".to_string()));
    assert!(!contains_name(&names, &"c".to_string()));
}

#[test]
fn no_buckets_means_all_unused() {
    let cands = strings(&["arch", "debian", "ubuntu"]);
    let entries = vec![
        ("arch".to_string(), "1GiB".to_string()),
        ("debian".to_string(), "2GiB".to_string()),
        ("ubuntu".to_string(), "3GiB".to_string()),
    ];
    let report = cross_reference(&cands, &vec![], &entries);
    assert!(report.requested.is_empty());
    assert_eq!(report.unused.len(), 3);
    assert_eq!(report.unused[0], ("arch".to_string(), strings(&["1GiB"])));
    assert_eq!(report.unused[2], ("ubuntu".to_string(), strings(&["3GiB"])));
}

#[test]
fn each_candidate_reported_one_way() {
    let cands = strings(&["a", "b", "c", "d"]);
    let buckets = vec![("c".to_string(), 0i64), ("a".to_string(), 42i64)];
    let entries = vec![
        ("a".to_string(), "1G".to_string()),
        ("c".to_string(), "3G".to_string()),
        ("a".to_string(), "1.1G".to_string()),
    ];
    let report = cross_reference(&cands, &buckets, &entries);
    assert_eq!(
        report.requested,
        vec![
            ("c".to_string(), 0i64, strings(&["3G"])),
            ("a".to_string(), 42i64, strings(&["1G", "1.1G"])),
        ]
    );
    assert_eq!(
        report.unused,
        vec![("b".to_string(), vec![]), ("d".to_string(), vec![])]
    );
    assert_eq!(unused_repos(&cands, &buckets), strings(&["b", "d"]));
}

#[test]
fn sizes_keep_insertion_order() {
    let entries = vec![
        ("x".to_string(), "5G".to_string()),
        ("y".to_string(), "1G".to_string()),
        ("x".to_string(), "4G".to_string()),
    ];
    assert_eq!(sizes_of(&entries, &"x".to_string()), strings(&["5G", "4G"]));
    assert!(sizes_of(&entries, &"z".to_string()).is_empty());
}

#[test]
fn index_name_is_zero_padded() {
    assert_eq!(index_name(date(2020, 2, 1)), "filebeat-2020.02.01");
    assert_eq!(index_name(date(5, 11, 30)), "filebeat-0005.11.30");
    assert_eq!(index_name(date(12345, 1, 9)), "filebeat-12345.01.09");
    assert_eq!(index_name(date(-5, 1, 1)), "filebeat--005.01.01");
}

#[test]
fn leap_february_has_29_names() {
    let names = index_names(&TimeWindow::Month { year: 2020, month: 2 }, date(2024, 1, 1));
    assert_eq!(names.len(), 29);
    assert_eq!(names[0], "filebeat-2020.02.01");
    assert_eq!(names[28], "filebeat-2020.02.29");
}

#[test]
fn month_windows() {
    assert_eq!(month_dates(2019, 2).len(), 28);
    assert_eq!(month_dates(2020, 12).len(), 31);
    assert_eq!(month_dates(2020, 12)[30], date(2020, 12, 31));
    let names = index_names(&TimeWindow::Month { year: 2020, month: 1 }, date(2024, 1, 1));
    assert_eq!(names.len(), 31);
    assert_eq!(names[30], "filebeat-2020.01.31");
}

#[test]
fn rolling_window_ends_today() {
    let days = recent_dates(date(2020, 3, 2), 3);
    assert_eq!(days, vec![date(2020, 2, 29), date(2020, 3, 1), date(2020, 3, 2)]);
    let names = index_names(&TimeWindow::RecentDays(3), date(2021, 1, 1));
    assert_eq!(
        names,
        strings(&["filebeat-2020.12.30", "filebeat-2020.12.31", "filebeat-2021.01.01"])
    );
    assert!(recent_dates(date(2020, 3, 2), 0).is_empty());
}

#[test]
fn rolling_window_of_a_year_is_distinct() {
    let days = recent_dates(date(2021, 3, 1), 366);
    assert_eq!(days.len(), 366);
    assert_eq!(days[0], date(2020, 3, 1));
    for i in 0..days.len() {
        for j in (i + 1)..days.len() {
            assert_ne!(days[i], days[j]);
        }
    }
}

#[test]
fn pattern_window_is_one_name() {
    let w = TimeWindow::Pattern("2020.01.*".to_string());
    assert_eq!(index_names(&w, date(2024, 1, 1)), strings(&["filebeat-2020.01.*"]));
    assert_eq!(index_names_now(&w, 0), Some(strings(&["filebeat-2020.01.*"])));
}

#[test]
fn rolling_window_from_local_today() {
    let names = index_names_now(&TimeWindow::RecentDays(7), 3600).unwrap();
    assert_eq!(names.len(), 7);
    assert!(names.iter().all(|n| n.starts_with("filebeat-20")));
}

#[test]
fn month_must_be_real() {
    assert!(window_is_valid(&TimeWindow::Month { year: 2020, month: 12 }));
    assert!(!window_is_valid(&TimeWindow::Month { year: 2020, month: 13 }));
    assert!(!window_is_valid(&TimeWindow::Month { year: 2020, month: 0 }));
    assert!(window_is_valid(&TimeWindow::RecentDays(0)));
}

#[test]
fn candidates_are_sorted_and_unique() {
    let names = strings(&["ubuntu", "arch", "debian", "arch", "Zeta", "ubuntu"]);
    assert_eq!(candidate_repos(&names), strings(&["Zeta", "arch", "debian", "ubuntu"]));
    assert!(candidate_repos(&vec![]).is_empty());
}

#[test]
fn index_name_of_long_years_and_late_days() {
    assert_eq!(index_name(date(2020, 12, 31)), "filebeat-2020.12.31");
    assert_eq!(index_name(date(0, 10, 10)), "filebeat-0000.10.10");
    assert_eq!(index_name(date(-12345, 1, 1)), "filebeat--12345.01.01");
}

#[test]
fn local_date_of_clock_readings() {
    assert_eq!(local_date(0, 0), Some(date(1970, 1, 1)));
    assert_eq!(local_date(86399, 1), Some(date(1970, 1, 2)));
    assert_eq!(local_date(1_583_020_800, 0), Some(date(2020, 3, 1)));
    assert_eq!(local_date(1_583_020_800, -1), Some(date(2020, 2, 29)));
    assert_eq!(local_date(0, -1), Some(date(1969, 12, 31)));
    assert_eq!(local_date(u64::MAX, 0), None);
}

#[test]
fn month_window_does_not_need_the_clock() {
    let names = index_names_now(&TimeWindow::Month { year: 2019, month: 2 }, 0).unwrap();
    assert_eq!(names.len(), 28);
    assert_eq!(names[27], "filebeat-2019.02.28");
}
