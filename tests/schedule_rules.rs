use pixoo_ctl::config::ScheduleEntry;
use pixoo_ctl::schedule::{day_matches, find_active_entry, minutes_of_day, parse_time};

fn rule(days: &[&str], time: &str, left: Option<&str>, right: Option<&str>) -> ScheduleEntry {
    ScheduleEntry {
        days: days.iter().map(|d| d.to_string()).collect(),
        time: time.to_string(),
        stage_left: left.map(|s| s.to_string()),
        stage_right: right.map(|s| s.to_string()),
    }
}

#[test]
fn parse_time_reads_hours_and_minutes() {
    assert_eq!(parse_time("08:00"), Some(480));
    assert_eq!(parse_time("18:30"), Some(1110));
    assert_eq!(parse_time("8:5"), Some(485));
    assert_eq!(parse_time("00:00"), Some(0));
    assert_eq!(parse_time("23:59"), Some(1439));
    assert_eq!(parse_time("0007:09"), Some(429));
}

#[test]
fn parse_time_rejects_malformed_strings() {
    assert_eq!(parse_time("25:70"), None);
    assert_eq!(parse_time("24:00"), None);
    assert_eq!(parse_time("12:60"), None);
    assert_eq!(parse_time("noon"), None);
    assert_eq!(parse_time(""), None);
    assert_eq!(parse_time(":30"), None);
    assert_eq!(parse_time("08:"), None);
    assert_eq!(parse_time("08:00:00"), None);
    assert_eq!(parse_time("8h:00"), None);
    assert_eq!(parse_time("99999999999999:00"), None);
}

#[test]
fn minutes_of_day_counts_from_midnight() {
    assert_eq!(minutes_of_day(19, 30), 1170);
    assert_eq!(minutes_of_day(0, 0), 0);
    assert_eq!(minutes_of_day(23, 59), 1439);
}

#[test]
fn day_matching_ignores_ascii_case() {
    let days = vec!["mon".to_string(), "Wed".to_string()];
    assert!(day_matches(&days, "Mon"));
    assert!(day_matches(&days, "MON"));
    assert!(day_matches(&days, "mon"));
    assert!(day_matches(&days, "wED"));
    assert!(!day_matches(&days, "Tue"));
    assert!(!day_matches(&days, "Mo"));
    assert!(!day_matches(&days, "Monday"));
}

#[test]
fn lower_case_rule_day_matches_capitalised_query() {
    let rules = vec![rule(&["mon"], "08:00", Some("a.png"), None)];
    assert!(find_active_entry(&rules, "Mon", 600).is_some());
    assert!(find_active_entry(&rules, "MON", 600).is_some());
    assert!(find_active_entry(&rules, "Tue", 600).is_none());
}

#[test]
fn latest_fired_rule_wins() {
    let rules = vec![
        rule(&["Mon"], "08:00", Some("a.png"), None),
        rule(&["Mon"], "18:00", Some("b.png"), None),
    ];
    let e = find_active_entry(&rules, "Mon", 19 * 60).unwrap();
    assert_eq!(e.stage_left.as_deref(), Some("b.png"));
    let e = find_active_entry(&rules, "Mon", 19 * 60 + 30).unwrap();
    assert_eq!(e.stage_left.as_deref(), Some("b.png"));
    let e = find_active_entry(&rules, "Mon", 12 * 60).unwrap();
    assert_eq!(e.stage_left.as_deref(), Some("a.png"));
    let e = find_active_entry(&rules, "Mon", 18 * 60).unwrap();
    assert_eq!(e.stage_left.as_deref(), Some("b.png"));
}

#[test]
fn future_rule_is_never_chosen() {
    let rules = vec![rule(&["Mon"], "18:00", Some("b.png"), None)];
    assert!(find_active_entry(&rules, "Mon", 17 * 60 + 59).is_none());
}

#[test]
fn no_fallback_before_earliest_rule() {
    let rules = vec![
        rule(&["Sun"], "22:00", Some("night.png"), None),
        rule(&["Mon"], "08:00", Some("a.png"), None),
    ];
    assert!(find_active_entry(&rules, "Mon", 7 * 60).is_none());
}

#[test]
fn equal_times_resolve_to_first_declared() {
    let rules = vec![
        rule(&["Tue"], "09:00", Some("first.png"), None),
        rule(&["Tue"], "09:00", Some("second.png"), None),
        rule(&["Tue"], "07:00", Some("early.png"), None),
    ];
    let e = find_active_entry(&rules, "Tue", 10 * 60).unwrap();
    assert_eq!(e.stage_left.as_deref(), Some("first.png"));
}

#[test]
fn malformed_times_are_skipped_silently() {
    let rules = vec![
        rule(&["Mon"], "25:70", Some("bad.png"), None),
        rule(&["Mon"], "noon", Some("worse.png"), None),
        rule(&["Mon"], "06:00", Some("good.png"), None),
    ];
    let e = find_active_entry(&rules, "Mon", 23 * 60 + 59).unwrap();
    assert_eq!(e.stage_left.as_deref(), Some("good.png"));
    let only_bad = vec![rule(&["Mon"], "noon", Some("worse.png"), None)];
    assert!(find_active_entry(&only_bad, "Mon", 23 * 60 + 59).is_none());
}

#[test]
fn empty_rule_set_has_no_match() {
    let rules: Vec<ScheduleEntry> = Vec::new();
    assert!(find_active_entry(&rules, "Mon", 600).is_none());
}
