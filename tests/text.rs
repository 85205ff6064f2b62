use guild_uptime::{
    day_text, gexp_to_uptime_as_string, get_color, parse_day, parse_hex_u32, report_description,
    short_date, uptime_summary,
    Experience, ReportEntry, DEFAULT_COLOR,
};

#[test]
fn uptime_text_is_hours_and_minutes() {
    assert_eq!(gexp_to_uptime_as_string(0), "0h 0m");
    assert_eq!(gexp_to_uptime_as_string(9000), "1h 0m");
    assert_eq!(gexp_to_uptime_as_string(27150), "3h 1m");
    assert_eq!(gexp_to_uptime_as_string(8999), "0h 59m");
    assert_eq!(gexp_to_uptime_as_string(-1), "0h 0m");
    assert_eq!(gexp_to_uptime_as_string(-9150), "-1h -1m");
    assert_eq!(gexp_to_uptime_as_string(i64::MAX), "1024819115206086h 12m");
}

#[test]
fn days_read_and_write_as_dates() {
    assert_eq!(parse_day("1970-01-01"), Some(719_163));
    assert_eq!(parse_day("2024-01-15"), Some(738_900));
    assert_eq!(parse_day("0001-01-01"), Some(1));
    assert_eq!(parse_day("2024-02-30"), None);
    assert_eq!(parse_day("yesterday"), None);
    assert_eq!(day_text(738_900), Some("2024-01-15".to_string()));
    assert_eq!(day_text(1), Some("0001-01-01".to_string()));
    assert_eq!(day_text(i32::MAX), None);
}

#[test]
fn report_text_has_one_line_per_day() {
    let report = vec![
        ReportEntry { day: 738_900, experience: Experience::Known(18_000) },
        ReportEntry { day: 738_899, experience: Experience::Unknown },
        ReportEntry { day: i32::MIN, experience: Experience::Known(150) },
    ];
    assert_eq!(
        report_description(&report),
        "**2024-01-15**: 2h 0m\n**2024-01-14**: Unknown\nUnknown Date: 0h 1m\n"
    );
    assert_eq!(report_description(&vec![]), "");
}

#[test]
fn color_reads_stored_hex() {
    assert_eq!(get_color(None), DEFAULT_COLOR);
    assert_eq!(DEFAULT_COLOR, 0x2b2d31);
    assert_eq!(get_color(Some("0xff0000".to_string())), 0xff0000);
    assert_eq!(get_color(Some("0x0xAb".to_string())), 0xab);
    assert_eq!(get_color(Some("+ff".to_string())), 0xff);
    assert_eq!(get_color(Some("zz".to_string())), DEFAULT_COLOR);
    assert_eq!(get_color(Some("0x".to_string())), DEFAULT_COLOR);
    assert_eq!(get_color(Some("1ffffffff".to_string())), DEFAULT_COLOR);
    assert_eq!(get_color(Some("ffffffff".to_string())), u32::MAX);
}

#[test]
fn hex_parse_matches_from_str_radix() {
    for t in ["", "+", "-1", "0", "00ff", "+A", "g", "100000000", "FFFFFFFF", "1 2"] {
        assert_eq!(parse_hex_u32(t), u32::from_str_radix(t, 16).ok(), "{t}");
    }
}

#[test]
fn short_dates_and_weekly_average() {
    assert_eq!(short_date("2024-01-15"), "15/01/24");
    assert_eq!(short_date("2024-1-5"), "2024-1-5");
    let history = vec![
        ("2024-01-15".to_string(), Some(18_000i64)),
        ("2024-01-14".to_string(), None),
        ("2024-01-13".to_string(), Some(45_000)),
    ];
    let (lines, average) = uptime_summary(&history);
    assert_eq!(
        lines,
        vec![
            ("15/01/24".to_string(), "2h 0m".to_string()),
            ("13/01/24".to_string(), "5h 0m".to_string()),
        ]
    );
    assert_eq!(average, "1h 0m");
    let (lines, average) = uptime_summary(&vec![]);
    assert!(lines.is_empty());
    assert_eq!(average, "0h 0m");
    let big = vec![("2024-01-15".to_string(), Some(i64::MAX)); 8];
    let (_, average) = uptime_summary(&big);
    assert_eq!(average, "1171221845949812h 48m");
}
