use i3tracker::engine::{FocusSnapshot, LogRecord};
use i3tracker::line::encode_record;
use i3tracker::logfile::{
    next_log_suffix, parse_u64, record_id_of_line, resume_id, starts_with, LogFileEntry, LOG_BASE_NAME,
    LOG_LIMIT,
};

fn entry(stem: &str, ext: Option<&str>, age: u64) -> LogFileEntry {
    LogFileEntry { stem: Some(stem.to_string()), extension: ext.map(|e| e.to_string()), age_secs: age }
}

#[test]
fn parse_decimal_numbers() {
    assert_eq!(parse_u64("0"), Some(0));
    assert_eq!(parse_u64("+17"), Some(17));
    assert_eq!(parse_u64("0042"), Some(42));
    assert_eq!(parse_u64("18446744073709551615"), Some(u64::MAX));
    assert_eq!(parse_u64("18446744073709551616"), None);
    assert_eq!(parse_u64(""), None);
    assert_eq!(parse_u64("+"), None);
    assert_eq!(parse_u64("-1"), None);
    assert_eq!(parse_u64("1a"), None);
    assert_eq!(parse_u64("log"), None);
}

#[test]
fn prefix_check() {
    assert!(starts_with("i3tracker.log", LOG_BASE_NAME));
    assert!(starts_with("abc", ""));
    assert!(!starts_with("i3track", LOG_BASE_NAME));
    assert!(!starts_with("other.log", LOG_BASE_NAME));
}

#[test]
fn fewer_logs_than_limit_start_fresh_file() {
    let es = vec![
        entry("i3tracker.log", Some("0"), 50),
        entry("notes", Some("txt"), 500),
        entry("i3tracker.log", Some("1"), 20),
    ];
    assert_eq!(next_log_suffix(&es, LOG_LIMIT), 2);
    assert_eq!(next_log_suffix(&Vec::new(), LOG_LIMIT), 0);
}

#[test]
fn at_limit_rotates_after_oldest() {
    let es = vec![
        entry("i3tracker.log", Some("4"), 50),
        entry("i3tracker.log", Some("7"), 90),
        entry("other", Some("3"), 1000),
        entry("i3tracker.log", Some("2"), 90),
    ];
    assert_eq!(next_log_suffix(&es, 3), 8);
    assert_eq!(next_log_suffix(&es, 4), 3);
}

#[test]
fn unreadable_suffix_rotates_to_zero() {
    let es = vec![entry("i3tracker.log", Some("x"), 5), entry("i3tracker.log", None, 1)];
    assert_eq!(next_log_suffix(&es, 2), 0);
    let max = vec![entry("i3tracker.log", Some("18446744073709551615"), 5)];
    assert_eq!(next_log_suffix(&max, 1), 0);
    let none = vec![LogFileEntry { stem: None, extension: Some("1".to_string()), age_secs: 3 }];
    assert_eq!(next_log_suffix(&none, 0), 0);
}

#[test]
fn resume_from_largest_last_id() {
    assert_eq!(resume_id(&vec![]), Some(1));
    assert_eq!(resume_id(&vec![12, 40, 7]), Some(41));
    assert_eq!(resume_id(&vec![u64::MAX]), None);
}

#[test]
fn line_id_read_back() {
    assert_eq!(record_id_of_line("15\t0\t3\t1\tws\ttitle"), Some(15));
    assert_eq!(record_id_of_line("15"), Some(15));
    assert_eq!(record_id_of_line("\t3"), None);
    assert_eq!(record_id_of_line("x\t3"), None);
}

#[test]
fn record_line_fields_and_escapes() {
    let r = LogRecord {
        id: 305,
        snapshot: FocusSnapshot::new(12, "a\tb\\c\nd".to_string(), "web".to_string()),
        start: 0,
        end: 1234,
    };
    let line: String = encode_record(&r).into_iter().collect();
    assert_eq!(line, "305\t0\t1234\t12\tweb\ta\\tb\\\\c\\nd");
    assert_eq!(record_id_of_line(&line), Some(305));
}
