use kyodoku::archive::format_archive_topic;
use kyodoku::clock::{add_seconds, format_instant, sub_seconds, Zone, EARLIEST_MICROS, LATEST_MICROS};

#[test]
fn timestamps_in_zones() {
    assert_eq!(
        format_archive_topic(1_700_000_000_000_000, 1_500_000, &Zone::parse("Asia/Tokyo").unwrap()),
        "Archived on 2023-11-15 07:13:20 JST. Scheduled for deletion on 1970-01-01 09:00:01 JST unless reopened or extended."
    );
}

#[test]
fn instants() {
    assert_eq!(format_instant(0, &Zone::utc()), "1970-01-01 00:00:00 UTC");
    assert_eq!(format_instant(-1, &Zone::utc()), "1969-12-31 23:59:59 UTC");
}

#[test]
fn representable_range_matches_chrono() {
    assert!(chrono::DateTime::from_timestamp_micros(LATEST_MICROS).is_some());
    assert!(chrono::DateTime::from_timestamp_micros(LATEST_MICROS + 1).is_none());
    assert!(chrono::DateTime::from_timestamp_micros(EARLIEST_MICROS).is_some());
    assert!(chrono::DateTime::from_timestamp_micros(EARLIEST_MICROS - 1).is_none());
    assert_eq!(
        chrono::DateTime::from_timestamp_micros(EARLIEST_MICROS).unwrap(),
        chrono::DateTime::<chrono::Utc>::MIN_UTC
    );

}

#[test]
fn second_arithmetic() {
    assert_eq!(add_seconds(5, 2), 2_000_005);
    assert_eq!(sub_seconds(5, 2), -1_999_995);
}
