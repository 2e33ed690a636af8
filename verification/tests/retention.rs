use vault_core::date::{parse_iso_date, Date};
use vault_core::files::{
    audit_file_deletable, backup_file_name, is_audit_log_name, is_backup_file_name,
    is_log_file_name, log_file_deletable, log_file_sorts_before, sort_log_files_newest_first,
    str_lex_less,
};

#[test]
fn parses_canonical_dates() {
    assert_eq!(
        parse_iso_date("2024-01-15"),
        Some(Date {
            year: 2024,
            month: 1,
            day: 15
        })
    );
    // February 29th exists only in leap years.
    assert!(parse_iso_date("2024-02-29").is_some());
    assert!(parse_iso_date("2023-02-29").is_none());
    assert!(parse_iso_date("1900-02-29").is_none());
    assert!(parse_iso_date("2000-02-29").is_some());
    assert!(parse_iso_date("2024-02-30").is_none());
    assert!(parse_iso_date("2024-04-31").is_none());
    assert!(parse_iso_date("2024-13-01").is_none());
    assert!(parse_iso_date("2024-00-10").is_none());
    assert!(parse_iso_date("2024-01-00").is_none());
    // Only the canonical zero-padded shape is accepted.
    assert!(parse_iso_date("2024-1-5").is_none());
    assert!(parse_iso_date("2024/01/05").is_none());
    assert!(parse_iso_date("").is_none());
}

#[test]
fn orders_dates() {
    let a = Date {
        year: 2024,
        month: 1,
        day: 9,
    };
    let b = Date {
        year: 2024,
        month: 1,
        day: 10,
    };
    let c = Date {
        year: 2023,
        month: 12,
        day: 31,
    };
    assert!(a.before(&b));
    assert!(!b.before(&a));
    assert!(!a.before(&a));
    assert!(c.before(&a));
}

#[test]
fn log_retention_deletes_only_dated_files_before_the_cutoff() {
    let cutoff = Date {
        year: 2024,
        month: 1,
        day: 10,
    };
    assert!(log_file_deletable("backend-2024-01-09.log", &cutoff));
    assert!(log_file_deletable("frontend-2023-12-31.json", &cutoff));
    // Files dated on or after the cutoff stay.
    assert!(!log_file_deletable("backend-2024-01-10.log", &cutoff));
    assert!(!log_file_deletable("frontend-2024-02-01.log", &cutoff));
    // Names without the expected prefix, extension or a real date stay.
    assert!(!log_file_deletable("other-2020-01-01.log", &cutoff));
    assert!(!log_file_deletable("backend-2020-01-01.txt", &cutoff));
    assert!(!log_file_deletable("backend-not-a-date.log", &cutoff));
}

#[test]
fn audit_retention_and_listing() {
    let cutoff = Date {
        year: 2024,
        month: 1,
        day: 10,
    };
    assert!(audit_file_deletable("audit-2024-01-09.json", &cutoff));
    assert!(!audit_file_deletable("audit-2024-01-10.json", &cutoff));
    assert!(!audit_file_deletable("audit-bad.json", &cutoff));
    assert!(!audit_file_deletable("other-2024-01-01.json", &cutoff));

    assert!(is_audit_log_name("audit-2024-01-15.json"));
    assert!(!is_audit_log_name("audit-2024-01-15.log"));
    assert!(!is_audit_log_name("audit-2024-13-15.json"));
    assert!(!is_audit_log_name("backup-2024-01-15.json"));
}

#[test]
fn file_name_filters() {
    assert!(is_log_file_name("backend-2024-01-15.log"));
    assert!(is_log_file_name("frontend-2024-01-15.json"));
    assert!(!is_log_file_name("notes.txt"));

    assert!(is_backup_file_name("auto_backup_2024-01-15T10-00-00Z.json"));
    assert!(!is_backup_file_name("auto_backup_2024.log"));
    assert!(!is_backup_file_name("manual_backup_2024.json"));
}

#[test]
fn backup_names_sanitize_the_timestamp() {
    assert_eq!(
        backup_file_name("2024-01-15T10:00:00.123Z"),
        "auto_backup_2024-01-15T10-00-00-123Z.json"
    );
    assert_eq!(backup_file_name(""), "auto_backup_.json");
    // Mirrors str::replace over the same two characters.
    let ts = "2025-06-30T23:59:59.999+02:00";
    assert_eq!(
        backup_file_name(ts),
        format!("auto_backup_{}.json", ts.replace(':', "-").replace('.', "-"))
    );
}

#[test]
fn lexicographic_order_on_names_and_dates() {
    assert!(str_lex_less("a", "b"));
    assert!(!str_lex_less("b", "a"));
    assert!(!str_lex_less("a", "a"));
    assert!(str_lex_less("a", "ab"));
    assert!(!str_lex_less("ab", "a"));
    assert!(str_lex_less("2024-01-09", "2024-01-10"));
    assert!(str_lex_less("2023-12-31", "2024-01-01"));
}

#[test]
fn listings_come_newest_first() {
    let names = vec![
        "backend-2024-01-09.log".to_owned(),
        "frontend-2024-02-01.json".to_owned(),
        "backend-2024-01-15.log".to_owned(),
        "frontend-2023-12-31.log".to_owned(),
    ];
    let sorted = sort_log_files_newest_first(names);
    assert_eq!(
        sorted,
        vec![
            "frontend-2024-02-01.json".to_owned(),
            "backend-2024-01-15.log".to_owned(),
            "backend-2024-01-09.log".to_owned(),
            "frontend-2023-12-31.log".to_owned(),
        ]
    );
}

#[test]
fn newer_log_files_sort_first() {
    assert!(log_file_sorts_before(
        "backend-2024-01-10.log",
        "backend-2024-01-09.log"
    ));
    assert!(!log_file_sorts_before(
        "backend-2024-01-09.log",
        "backend-2024-01-10.log"
    ));
    assert!(!log_file_sorts_before(
        "backend-2024-01-10.log",
        "frontend-2024-01-10.json"
    ));
}
