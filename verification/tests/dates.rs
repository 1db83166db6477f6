use garfeo::date::{format_date, parse_date, Date};

#[test]
fn parse_known_christmas() {
    let d = parse_date("2024-12-25").expect("valid date");
    assert_eq!(d.year, 2024);
    assert_eq!(d.month, 12);
    assert_eq!(d.day, 25);
}

#[test]
fn parse_rejects_invalid_calendar_date() {
    assert!(parse_date("2020-13-40").is_none());
    assert!(parse_date("2020-00-10").is_none());
    assert!(parse_date("2020-01-00").is_none());
    assert!(parse_date("0000-01-01").is_none());
}

#[test]
fn parse_rejects_bad_shapes() {
    assert!(parse_date("2020-1-01").is_none());
    assert!(parse_date("20200101").is_none());
    assert!(parse_date("2020/01/01").is_none());
    assert!(parse_date("2020-01-01x").is_none());
    assert!(parse_date("").is_none());
    assert!(parse_date("dato").is_none());
}

#[test]
fn leap_year_rules() {
    assert!(parse_date("2024-02-29").is_some());
    assert!(parse_date("2023-02-29").is_none());
    assert!(parse_date("1900-02-29").is_none());
    assert!(parse_date("2000-02-29").is_some());
    assert!(parse_date("2024-04-31").is_none());
    assert!(parse_date("2024-04-30").is_some());
}

#[test]
fn weekday_known_values() {
    // 2024-12-25 was a Wednesday; 2024-12-22 a Sunday.
    let wed = Date { year: 2024, month: 12, day: 25 };
    assert_eq!(wed.weekday(), 3);
    assert!(!wed.is_sunday());
    let sun = Date { year: 2024, month: 12, day: 22 };
    assert_eq!(sun.weekday(), 0);
    assert!(sun.is_sunday());
    // 2000-01-01 was a Saturday.
    let sat = Date { year: 2000, month: 1, day: 1 };
    assert_eq!(sat.weekday(), 6);
}

#[test]
fn key_orders_like_text() {
    let a = Date { year: 2019, month: 12, day: 31 };
    let b = Date { year: 2020, month: 1, day: 1 };
    let c = Date { year: 2020, month: 1, day: 2 };
    assert!(a.key_value() < b.key_value());
    assert!(b.key_value() < c.key_value());
    assert_eq!(b.key_value(), 20200101);
}

#[test]
fn format_round_trip() {
    for s in ["2024-12-25", "0001-01-01", "9999-12-31", "2024-02-29"] {
        let d = parse_date(s).expect("valid date");
        assert_eq!(format_date(&d), s);
    }
}
