use vault_core::logger::{
    dated_file_name, extract_date_from_filename, format_log_entry, frontend_log_entries,
    get_log_path, log_debug, log_error, log_info, log_warn, remove_all, split_message_lines,
};

#[test]
fn log_lines_carry_timestamp_level_and_message() {
    let ts = "2024-01-15 10:00:00.123";
    assert_eq!(
        format_log_entry(ts, "INFO", "backend started"),
        "[2024-01-15 10:00:00.123] [INFO] backend started\n"
    );
    assert_eq!(log_info(ts, "a"), "[2024-01-15 10:00:00.123] [INFO] a\n");
    assert_eq!(log_warn(ts, "b"), "[2024-01-15 10:00:00.123] [WARN] b\n");
    assert_eq!(log_error(ts, "c"), "[2024-01-15 10:00:00.123] [ERROR] c\n");
    assert_eq!(log_debug(ts, "d"), "[2024-01-15 10:00:00.123] [DEBUG] d\n");
}

#[test]
fn log_path_names_the_daily_backend_file() {
    assert_eq!(get_log_path("2024-01-15"), "backend-2024-01-15.log");
    assert_eq!(
        dated_file_name("frontend", "2024-01-15", "log"),
        "frontend-2024-01-15.log"
    );
    assert_eq!(
        dated_file_name("audit", "2025-12-31", "json"),
        "audit-2025-12-31.json"
    );
}

#[test]
fn extracts_dates_from_log_file_names() {
    assert_eq!(
        extract_date_from_filename("frontend-2024-01-15.log"),
        "2024-01-15"
    );
    assert_eq!(
        extract_date_from_filename("backend-2025-12-31.json"),
        "2025-12-31"
    );
    assert_eq!(extract_date_from_filename("other.txt"), "");
    assert_eq!(extract_date_from_filename(""), "");
    // Every occurrence of the prefix and the extensions is removed.
    assert_eq!(extract_date_from_filename("backend-a.log.log"), "a");
}

#[test]
fn splits_messages_like_std_lines() {
    let cases = [
        "one line",
        "two\nlines",
        "crlf\r\nending",
        "trailing newline\n",
        "trailing crlf\r\n",
        "",
        "\n",
        "\r\n",
        "\n\n",
        "bare\rcarriage",
        "ends with cr\r",
        "a\r\nb\nc\r\n",
    ];
    for message in cases {
        let expected: Vec<String> = message.lines().map(str::to_owned).collect();
        assert_eq!(split_message_lines(message), expected, "case: {:?}", message);
    }
}

#[test]
fn multi_line_messages_become_one_entry_per_nonblank_line() {
    let ts = "2024-01-15 10:00:00.000";
    // A single-line message is one entry carrying the whole message.
    assert_eq!(
        frontend_log_entries(ts, "INFO", "just one line"),
        vec!["[2024-01-15 10:00:00.000] [INFO] just one line\n".to_owned()]
    );
    // An empty message still produces one entry.
    assert_eq!(
        frontend_log_entries(ts, "WARN", ""),
        vec!["[2024-01-15 10:00:00.000] [WARN] \n".to_owned()]
    );
    // Several lines: one entry each, blank lines skipped, same timestamp.
    assert_eq!(
        frontend_log_entries(ts, "ERROR", "first\n \t \nsecond\r\n\nthird"),
        vec![
            "[2024-01-15 10:00:00.000] [ERROR] first\n".to_owned(),
            "[2024-01-15 10:00:00.000] [ERROR] second\n".to_owned(),
            "[2024-01-15 10:00:00.000] [ERROR] third\n".to_owned(),
        ]
    );
}

#[test]
fn remove_all_scans_left_to_right() {
    assert_eq!(remove_all("aaa", "aa"), "a");
    assert_eq!(remove_all("abcabc", "b"), "acac");
    assert_eq!(remove_all("abc", "xyz"), "abc");
    assert_eq!(remove_all("", "x"), "");
    // Matches the behavior of str::replace with an empty replacement.
    assert_eq!(remove_all("aaa", "aa"), "aaa".replace("aa", ""));
    assert_eq!(
        remove_all("backend-a.log.log", ".log"),
        "backend-a.log.log".replace(".log", "")
    );
}
