use ttk::time::{
    date_stamp_at, format_date, format_minutes, format_seconds, instant_for, parse_date,
    parse_date_at, parse_datetime, parse_since_date, parse_until_date, resolve_last, resolve_last_at,
    is_in_calendar, local_stamp, DateStamp, LocalMapping, Pick,
};

#[test]
fn test_resolve_last_24h() {
    let (since, until) = resolve_last("24h").unwrap();
    let hours = (until - since) / 3600;
    assert!(hours >= 23 && hours <= 25);
}

#[test]
fn test_resolve_last_7d() {
    let (since, until) = resolve_last("7d").unwrap();
    assert_eq!((until - since) / 86_400, 7);
}

#[test]
fn test_resolve_last_30d() {
    let (since, until) = resolve_last("30d").unwrap();
    assert_eq!((until - since) / 86_400, 30);
}

#[test]
fn test_resolve_last_invalid() {
    assert!(resolve_last("3x").is_err());
    assert!(resolve_last("").is_err());
    assert!(resolve_last("24H").is_err()); // case-sensitive
}

#[test]
fn resolve_last_at_exact() {
    assert_eq!(resolve_last_at("24h", 1_000_000).unwrap(), (913_600, 1_000_000));
    assert_eq!(resolve_last_at("7d", 1_000_000).unwrap(), (395_200, 1_000_000));
    assert_eq!(resolve_last_at("30d", 3_000_000).unwrap(), (408_000, 3_000_000));
    assert_eq!(resolve_last_at("3x", 0).unwrap_err(), "invalid duration '3x', use 24h|7d|30d");
}

fn stamp(year: i32, month: u32, day: u32, hour: u32, minute: u32, second: u32) -> DateStamp {
    DateStamp { year, month, day, hour, minute, second }
}

#[test]
fn formats() {
    let s = stamp(2026, 5, 8, 7, 3, 9);
    assert_eq!(format_date(&s), "2026-05-08");
    assert_eq!(format_minutes(&s), "2026-05-08 07:03");
    assert_eq!(format_seconds(&s), "2026-05-08T07:03:09");
    assert_eq!(format_date(&stamp(33, 1, 1, 0, 0, 0)), "0033-01-01");
    assert_eq!(format_date(&stamp(12345, 1, 1, 0, 0, 0)), "+12345-01-01");
    assert_eq!(format_date(&stamp(-5, 1, 1, 0, 0, 0)), "-0005-01-01");
}

#[test]
fn chrono_parsing() {
    assert_eq!(parse_date("2026-05-01"), Some(stamp(2026, 5, 1, 0, 0, 0)));
    assert_eq!(parse_date("2026-02-30"), None);
    assert_eq!(parse_date("05/01/2026"), None);
    assert_eq!(parse_datetime("2026-05-01T12:34:56"), Some(stamp(2026, 5, 1, 12, 34, 56)));
    assert_eq!(parse_datetime("2026-05-01 12:34:56"), None);
}

#[test]
fn command_line_dates() {
    assert_eq!(parse_since_date("2026-13-01").unwrap_err(), "invalid date '2026-13-01', use YYYY-MM-DD");
    assert_eq!(parse_until_date("soon").unwrap_err(), "invalid date 'soon', use YYYY-MM-DD");
    let since = parse_since_date("2026-05-01").unwrap();
    let until = parse_until_date("2026-05-01").unwrap();
    assert_eq!(until - since, 86_399);
    let later = parse_date_at("2026-05-01", 23, 59, 59, Pick::Latest).unwrap();
    assert!(later >= until);
}

#[test]
fn date_stamps_at_a_time_of_day() {
    assert_eq!(date_stamp_at("2026-05-01", 23, 59, 59), Some(stamp(2026, 5, 1, 23, 59, 59)));
    assert_eq!(date_stamp_at("2026-05-01", 0, 0, 0), Some(stamp(2026, 5, 1, 0, 0, 0)));
    assert_eq!(date_stamp_at("2026-02-29", 0, 0, 0), None);
    assert_eq!(date_stamp_at("2024-02-29", 12, 30, 0), Some(stamp(2024, 2, 29, 12, 30, 0)));
}

#[test]
fn instants_picked_from_the_time_zone() {
    assert_eq!(instant_for("d", &LocalMapping::Single(7), Pick::Single), Ok(7));
    assert_eq!(instant_for("d", &LocalMapping::Single(7), Pick::Latest), Ok(7));
    assert_eq!(instant_for("d", &LocalMapping::Ambiguous(1, 2), Pick::Earliest), Ok(1));
    assert_eq!(instant_for("d", &LocalMapping::Ambiguous(1, 2), Pick::Latest), Ok(2));
    assert_eq!(
        instant_for("2026-03-29", &LocalMapping::Ambiguous(1, 2), Pick::Single),
        Err("ambiguous local time for '2026-03-29'".to_string())
    );
    assert_eq!(
        instant_for("x", &LocalMapping::Missing, Pick::Earliest),
        Err("ambiguous local time for 'x'".to_string())
    );
}

#[test]
fn calendar_bounds() {
    assert!(is_in_calendar(0));
    assert!(is_in_calendar(-8_334_601_228_800));
    assert!(!is_in_calendar(-8_334_601_228_801));
    assert!(is_in_calendar(8_210_266_790_399));
    assert!(!is_in_calendar(8_210_266_790_400));
    assert_eq!(format_seconds(&local_stamp(8_210_266_790_399)).len() >= 19, true);
}
