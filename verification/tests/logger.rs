use rserver::logger::{format_timestamp, get_timestamp, log_line, timestamp_of, LogLevel};

#[test]
fn test_log_level_as_str() {
    assert_eq!(LogLevel::Debug.as_str(), "DEBUG");
    assert_eq!(LogLevel::Info.as_str(), "INFO");
    assert_eq!(LogLevel::Warn.as_str(), "WARN");
    assert_eq!(LogLevel::Error.as_str(), "ERROR");
}

#[test]
fn test_log_level_ordering() {
    assert!(LogLevel::Debug < LogLevel::Info);
    assert!(LogLevel::Info < LogLevel::Warn);
    assert!(LogLevel::Warn < LogLevel::Error);
}

#[test]
fn test_format_timestamp_with_millis() {
    let result = format_timestamp(0, 123);

    assert_eq!(result, "1970-01-01 00:00:00.123");
}

#[test]
fn test_format_timestamp_known_date() {
    // 2024-01-01 00:00:00 UTC
    let result = format_timestamp(1704067200, 999);

    assert_eq!(result, "2024-01-01 00:00:00.999");
}

#[test]
fn test_format_timestamp_leap_year() {
    let result = format_timestamp(1709213445, 500);

    assert_eq!(result, "2024-02-29 13:30:45.500");
}

#[test]
fn test_format_timestamp_year_boundary() {
    // 2023-12-31 23:59:59
    let result = format_timestamp(1704067199, 1);

    assert_eq!(result, "2023-12-31 23:59:59.001");
}

#[test]
fn test_format_timestamp_epoch() {
    assert_eq!(format_timestamp(0, 0), "1970-01-01 00:00:00.000");
}

#[test]
fn test_format_timestamp_epoch_millis() {
    assert_eq!(format_timestamp(0, 123), "1970-01-01 00:00:00.123");
}

#[test]
fn test_format_timestamp_millis_padding() {
    assert_eq!(format_timestamp(0, 5), "1970-01-01 00:00:00.005");
}

#[test]
fn test_timestamp_is_reasonable() {
    let timestamp = get_timestamp();

    // YYYY-MM-DD HH:MM:SS.mmm
    assert_eq!(timestamp.len(), 23);

    assert_eq!(&timestamp[4..5], "-");
    assert_eq!(&timestamp[7..8], "-");
    assert_eq!(&timestamp[10..11], " ");
    assert_eq!(&timestamp[13..14], ":");
    assert_eq!(&timestamp[16..17], ":");
    assert_eq!(&timestamp[19..20], ".");
}

#[test]
fn format_timestamp_end_of_century_and_leap_day_2000() {
    assert_eq!(format_timestamp(951782400, 0), "2000-02-29 00:00:00.000");
    assert_eq!(format_timestamp(4102444799, 999), "2099-12-31 23:59:59.999");
}

#[test]
fn format_timestamp_non_leap_century() {
    // 2100-03-01 00:00:00 UTC; 2100 has no February 29th
    assert_eq!(format_timestamp(4107542400, 0), "2100-03-01 00:00:00.000");
}

#[test]
fn log_level_code_roundtrip_and_threshold() {
    for level in [
        LogLevel::Trace,
        LogLevel::Debug,
        LogLevel::Info,
        LogLevel::Warn,
        LogLevel::Error,
        LogLevel::Off,
    ] {
        assert_eq!(LogLevel::from_code(level.code()), level);
    }
    assert_eq!(LogLevel::from_code(42), LogLevel::Info);
    assert!(LogLevel::Error.passes(LogLevel::Info));
    assert!(!LogLevel::Debug.passes(LogLevel::Info));
    assert!(!LogLevel::Error.passes(LogLevel::Off));
    assert_eq!(LogLevel::Trace.as_str(), "TRACE");
    assert_eq!(LogLevel::Off.as_str(), "None");
}

#[test]
fn log_line_layout() {
    assert_eq!(
        log_line("2024-01-01 00:00:00.000", LogLevel::Warn, "app::server", "listening"),
        "[2024-01-01 00:00:00.000] [WARN] [app::server] - listening\n"
    );
    assert_eq!(log_line("t", LogLevel::Off, "m", ""), "[t] [None] [m] - \n");
}

#[test]
fn threshold_codes_round_trip() {
    for level in [
        LogLevel::Trace,
        LogLevel::Debug,
        LogLevel::Info,
        LogLevel::Warn,
        LogLevel::Error,
        LogLevel::Off,
    ] {
        assert_eq!(LogLevel::from_code(level.code()), level);
    }
    assert_eq!(LogLevel::from_code(42), LogLevel::Info);
}

#[test]
fn timestamp_of_reads_the_offset_from_the_epoch() {
    assert_eq!(
        timestamp_of(Some(std::time::Duration::from_millis(1_700_000_000_123))),
        "2023-11-14 22:13:20.123"
    );
    assert_eq!(timestamp_of(None), "1970-01-01 00:00:00.000");
}
