use gitpulsar::config::{format_relative_time, format_timestamp, AppConfig, DateFormat};

#[test]
fn default_config() {
    let c = AppConfig::default();
    assert_eq!(c.date_format, DateFormat::European);
    assert_eq!(c.refresh_interval_secs, 15);
}

#[test]
fn labels() {
    assert_eq!(DateFormat::European.label(), "dd.MM.yyyy");
    assert_eq!(DateFormat::Iso.label(), "yyyy-MM-dd");
    assert_eq!(DateFormat::American.label(), "MM/dd/yyyy");
}

#[test]
fn index_round_trip() {
    for f in [DateFormat::European, DateFormat::Iso, DateFormat::American] {
        assert_eq!(DateFormat::from_index(f.index()), f);
    }
    assert_eq!(DateFormat::from_index(7), DateFormat::European);
    assert_eq!(DateFormat::Iso.index(), 1);
}

#[test]
fn dates_in_each_format() {
    // 2024-03-05 14:07:09 UTC
    let t = 1_709_647_629;
    assert_eq!(DateFormat::European.format_date(t).unwrap(), "05.03.2024");
    assert_eq!(DateFormat::Iso.format_date(t).unwrap(), "2024-03-05");
    assert_eq!(DateFormat::American.format_date(t).unwrap(), "03/05/2024");
    assert_eq!(DateFormat::Iso.format_datetime(t).unwrap(), "2024-03-05 14:07:09 UTC");
    assert_eq!(DateFormat::European.format_datetime(0).unwrap(), "01.01.1970 00:00:00 UTC");
}

#[test]
fn unrepresentable_time_gives_none() {
    assert!(DateFormat::Iso.format_date(i64::MAX).is_none());
}

#[test]
fn relative_labels() {
    let now = 1_000_000_000;
    let f = DateFormat::Iso;
    assert_eq!(format_relative_time(now - 30, now, f), "just now");
    assert_eq!(format_relative_time(now + 500, now, f), "just now");
    assert_eq!(format_relative_time(now - 125, now, f), "2 min ago");
    assert_eq!(format_relative_time(now - 7200, now, f), "2h ago");
    assert_eq!(format_relative_time(now - 3 * 86400, now, f), "3d ago");
    assert_eq!(format_relative_time(now - 15 * 86400, now, f), "2w ago");
    assert_eq!(format_relative_time(now - 40 * 86400, now, f), "2001-07-31");
}

#[test]
fn relative_label_of_unrepresentable_time_uses_epoch() {
    assert_eq!(format_relative_time(i64::MAX, 1_000_000_000, DateFormat::Iso), "1970-01-01");
}

#[test]
fn blame_timestamps() {
    assert_eq!(format_timestamp(0), "");
    assert_eq!(format_timestamp(1_709_647_629), "2024-03-05");
    assert_eq!(format_timestamp(i64::MIN), "");
}
