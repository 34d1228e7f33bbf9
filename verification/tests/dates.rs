use work_log::date::{
    date_parts, days_in_month, entry_state_path, is_leap_year, markdown_output_path,
    previous_date_string, year_from_date,
};

#[test]
fn previous_day_within_month() {
    assert_eq!(previous_date_string("2026-03-13").unwrap(), "2026-03-12");
}

#[test]
fn previous_day_crosses_month_and_leap_years() {
    assert_eq!(previous_date_string("2026-03-01").unwrap(), "2026-02-28");
    assert_eq!(previous_date_string("2024-03-01").unwrap(), "2024-02-29");
    assert_eq!(previous_date_string("2000-03-01").unwrap(), "2000-02-29");
    assert_eq!(previous_date_string("1900-03-01").unwrap(), "1900-02-28");
    assert_eq!(previous_date_string("2026-05-01").unwrap(), "2026-04-30");
}

#[test]
fn previous_day_crosses_year() {
    assert_eq!(previous_date_string("2026-01-01").unwrap(), "2025-12-31");
}

#[test]
fn previous_day_pads_and_keeps_signs() {
    assert_eq!(previous_date_string("5-1-1").unwrap(), "0004-12-31");
    assert_eq!(previous_date_string("0-1-1").unwrap(), "-001-12-31");
    assert_eq!(previous_date_string("+2026-03-13-extra").unwrap(), "2026-03-12");
    assert_eq!(previous_date_string("2026-13-01").unwrap(), "2026-12-31");
}

#[test]
fn previous_day_rejects_unreadable_dates() {
    assert_eq!(
        previous_date_string("2026-03").unwrap_err(),
        "日付形式が不正です: 2026-03"
    );
    assert_eq!(
        previous_date_string("2026-aa-01").unwrap_err(),
        "日付形式が不正です: 2026-aa-01"
    );
    assert!(previous_date_string("2026-03-99999999999").is_err());
    assert!(previous_date_string("-").is_err());
    assert_eq!(date_parts("2026-03-12").unwrap(), (2026, 3, 12));
    assert!(date_parts("-2147483648-1-2").is_err());
    assert_eq!(date_parts("2147483647-1-2").unwrap(), (i32::MAX, 1, 2));
    assert!(date_parts("2147483648-1-2").is_err());
}

#[test]
fn leap_years_and_month_lengths() {
    assert!(is_leap_year(2024));
    assert!(!is_leap_year(2026));
    assert!(is_leap_year(2000));
    assert!(!is_leap_year(1900));
    assert!(is_leap_year(-4));
    assert_eq!(days_in_month(2026, 1), 31);
    assert_eq!(days_in_month(2026, 4), 30);
    assert_eq!(days_in_month(2026, 2), 28);
    assert_eq!(days_in_month(2024, 2), 29);
    assert_eq!(days_in_month(2026, 13), 30);
}

#[test]
fn year_and_paths_of_a_date() {
    assert_eq!(year_from_date("2026-03-12").unwrap(), "2026");
    assert_eq!(
        year_from_date("26-03-12").unwrap_err(),
        "日付形式が不正です: 26-03-12"
    );
    assert!(year_from_date("２０-01-01").is_err());
    assert_eq!(
        entry_state_path("2026-03-12"),
        vec![".work-log-state", "entries", "2026", "2026-03-12.json"]
    );
    assert_eq!(
        entry_state_path("bad"),
        vec![".work-log-state", "entries", "unknown", "bad.json"]
    );
    assert_eq!(
        markdown_output_path("2026-03-12").unwrap(),
        vec!["daily", "2026", "2026-03-12.md"]
    );
    assert!(markdown_output_path("bad").is_err());
}

#[test]
fn previous_day_reads_back_as_its_parts() {
    for (date, parts) in [
        ("2026-03-01", (2026, 2, 28)),
        ("2024-01-01", (2023, 12, 31)),
        ("7-5-10", (7, 5, 9)),
    ] {
        let prev = previous_date_string(date).unwrap();
        assert_eq!(date_parts(&prev).unwrap(), parts);
    }
}
