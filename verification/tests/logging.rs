use exam_monitor_core::logging::{
    csv_escape, event_line, format_utc, frame_file_name, sanitize, session_dir_name,
};

#[test]
fn formats_known_epoch_as_utc() {
    // 1_700_000_000_000 ms == 2023-11-14 22:13:20 UTC
    assert_eq!(format_utc(1_700_000_000_000), "2023-11-14 22:13:20Z");
}

#[test]
fn formats_epoch_start_and_a_leap_day() {
    assert_eq!(format_utc(0), "1970-01-01 00:00:00Z");
    assert_eq!(format_utc(951_782_400_999), "2000-02-29 00:00:00Z");
    assert_eq!(format_utc(1_709_251_199_000), "2024-02-29 23:59:59Z");
}

#[test]
fn century_years_skip_their_leap_day_and_years_roll_over() {
    assert_eq!(format_utc(4_107_542_399_000), "2100-02-28 23:59:59Z");
    assert_eq!(format_utc(4_107_542_400_000), "2100-03-01 00:00:00Z");
    assert_eq!(format_utc(946_684_799_000), "1999-12-31 23:59:59Z");
}

#[test]
fn csv_escape_quotes_commas() {
    assert_eq!(csv_escape("Doe, Jane"), "\"Doe, Jane\"");
    assert_eq!(csv_escape("plain"), "plain");
}

#[test]
fn csv_escape_doubles_quotes_and_quotes_newlines() {
    assert_eq!(csv_escape("say \"hi\""), "\"say \"\"hi\"\"\"");
    assert_eq!(csv_escape("a\nb"), "\"a\nb\"");
}

#[test]
fn sanitize_strips_path_separators() {
    assert_eq!(sanitize("../etc/passwd"), "___etc_passwd");
    assert_eq!(sanitize(""), "unknown");
}

#[test]
fn sanitize_replaces_non_ascii_letters() {
    assert_eq!(sanitize("Zoë 7"), "Zo__7");
}

#[test]
fn event_rows_are_csv_lines() {
    assert_eq!(
        event_line(1_700_000_000_000, "connect", "Doe, Jane", "S1"),
        "2023-11-14 22:13:20Z,1700000000000,connect,\"Doe, Jane\",S1\n"
    );
}

#[test]
fn file_and_folder_names_are_sanitized() {
    assert_eq!(session_dir_name("Room 101", 1_700_000_000), "Room_101_1700000000");
    assert_eq!(frame_file_name("../x", 5), "___x_5.jpg");
    assert_eq!(frame_file_name("", 9), "unknown_9.jpg");
}
