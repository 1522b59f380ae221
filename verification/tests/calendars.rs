use universal_timestamp::Timestamp;
use universal_timestamp::calendar;
use universal_timestamp::ErrorKind;
use universal_timestamp::get_clock_precision;
use universal_timestamp::japanese_era_name;

#[test]
fn thai_offset() {
    assert_eq!(calendar::gregorian_to_thai(2024), 2567);
    assert_eq!(calendar::thai_to_gregorian(2567), 2024);
}

#[test]
fn minguo_offset() {
    assert_eq!(calendar::gregorian_to_minguo(1912), 1);
    assert_eq!(calendar::minguo_to_gregorian(1), 1912);
}

#[test]
fn dangi_offset() {
    assert_eq!(calendar::gregorian_to_dangi(2024), 4357);
    assert_eq!(calendar::dangi_to_gregorian(4357), 2024);
}

#[test]
fn offset_calendars_wrap_rather_than_overflow() {
    let top = calendar::gregorian_to_thai(i32::MAX);
    assert_eq!(calendar::thai_to_gregorian(top), i32::MAX);
    let bottom = calendar::gregorian_to_minguo(i32::MIN);
    assert_eq!(calendar::minguo_to_gregorian(bottom), i32::MIN);
}

#[test]
fn iso_week_year_boundary_rollover() {
    let t = Timestamp::parse("2024-12-31T12:00:00Z").unwrap();
    assert_eq!(t.to_iso_week(), (2025, 1, 2));
}

#[test]
fn iso_week_early_january_belongs_to_previous_year() {
    let t = Timestamp::parse("2021-01-01T00:00:00Z").unwrap();
    assert_eq!(t.to_iso_week(), (2020, 53, 5));
}

#[test]
fn iso_week_late_december_belongs_to_next_year() {
    let t = Timestamp::parse("2019-12-30T00:00:00Z").unwrap();
    assert_eq!(t.to_iso_week(), (2020, 1, 1));
}

#[test]
fn iso_week_plain_midyear_date() {
    // 2024-06-05 was a Wednesday in week 23.
    let t = Timestamp::parse("2024-06-05T00:00:00Z").unwrap();
    assert_eq!(t.to_iso_week(), (2024, 23, 3));
}

#[test]
fn japanese_era_of_recent_dates() {
    let t = Timestamp::parse("2024-12-14T12:00:00Z").unwrap();
    let (era, year, name) = t.to_japanese_era().unwrap();
    assert_eq!(era, 5);
    assert_eq!(year, 6);
    assert_eq!(name, "Reiwa");
}

#[test]
fn japanese_era_boundaries() {
    let reiwa_first = Timestamp::parse("2019-05-01T00:00:00Z").unwrap();
    assert_eq!(reiwa_first.to_japanese_era().unwrap(), (5, 1, "Reiwa".to_string()));
    let heisei_last = Timestamp::parse("2019-04-30T23:59:59Z").unwrap();
    assert_eq!(heisei_last.to_japanese_era().unwrap(), (4, 31, "Heisei".to_string()));
    let showa = Timestamp::parse("1950-01-01T00:00:00Z").unwrap();
    assert_eq!(showa.to_japanese_era().unwrap(), (3, 25, "Showa".to_string()));
    let meiji_45 = Timestamp::parse("1912-07-29T00:00:00Z").unwrap();
    assert_eq!(meiji_45.to_japanese_era().unwrap(), (1, 45, "Meiji".to_string()));
}

#[test]
fn japanese_era_unknown_before_table() {
    let t = Timestamp::parse("1867-12-31T23:59:59Z").unwrap();
    let e = t.to_japanese_era().unwrap_err();
    assert_eq!(e.kind(), ErrorKind::UnknownEra);
    let far_past = Timestamp::from_nanos(i64::MIN);
    assert!(far_past.to_japanese_era().is_err());
}

#[test]
fn japanese_era_name_lookup() {
    assert_eq!(japanese_era_name(1).unwrap(), "Meiji");
    assert_eq!(japanese_era_name(3).unwrap(), "Showa");
    assert_eq!(japanese_era_name(5).unwrap(), "Reiwa");
    assert_eq!(japanese_era_name(0).unwrap_err().kind(), ErrorKind::UnknownEra);
    assert_eq!(japanese_era_name(6).unwrap_err().kind(), ErrorKind::UnknownEra);
}

#[test]
fn clock_precision_reports_a_class() {
    let p = get_clock_precision();
    let q = p;
    assert_eq!(p, q);
}
