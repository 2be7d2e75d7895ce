use paybar::error::Error;
use paybar::period::{Date, Period};

#[test]
fn parses_and_renders_round_trip() {
    let p = Period::parse("2026-08").unwrap();
    assert_eq!((p.year, p.month), (2026, 8));
    assert_eq!(p.to_string(), "2026-08");
    assert_eq!(Period::parse("2026-8").unwrap().to_string(), "2026-08");
}

#[test]
fn rejects_nonsense() {
    assert!(Period::parse("2026").is_err());
    assert!(Period::parse("2026-13").is_err());
    assert!(Period::parse("2026-00").is_err());
    assert!(Period::parse("august").is_err());
}

#[test]
fn month_lengths_including_leap_years() {
    assert_eq!(Period::new(2026, 2).unwrap().days(), 28);
    assert_eq!(Period::new(2024, 2).unwrap().days(), 29);
    assert_eq!(Period::new(2000, 2).unwrap().days(), 29);
    assert_eq!(Period::new(1900, 2).unwrap().days(), 28);
    assert_eq!(Period::new(2026, 4).unwrap().days(), 30);
    assert_eq!(Period::new(2026, 12).unwrap().days(), 31);
}

#[test]
fn a_due_day_past_the_month_end_is_clamped_not_rolled() {
    let feb = Period::new(2026, 2).unwrap();
    assert_eq!(feb.day(31), Date { year: 2026, month: 2, day: 28 });
    let leap = Period::new(2024, 2).unwrap();
    assert_eq!(leap.day(31), Date { year: 2024, month: 2, day: 29 });
    let aug = Period::new(2026, 8).unwrap();
    assert_eq!(aug.day(5), Date { year: 2026, month: 8, day: 5 });
    assert_eq!(aug.day(0), Date { year: 2026, month: 8, day: 1 });
}

#[test]
fn stepping_crosses_the_year_boundary() {
    let jan = Period::new(2026, 1).unwrap();
    assert_eq!(jan.prev().to_string(), "2025-12");
    let dec = Period::new(2026, 12).unwrap();
    assert_eq!(dec.next().to_string(), "2027-01");
    assert_eq!(jan.next().to_string(), "2026-02");
}

#[test]
fn ordering_is_chronological() {
    assert!(Period::parse("2025-12").unwrap() < Period::parse("2026-01").unwrap());
    assert!(Period::parse("2026-02").unwrap() > Period::parse("2026-01").unwrap());
}

#[test]
fn refusals_say_which_part_was_wrong() {
    assert_eq!(Period::parse("2026-13"), Err(Error::MonthOutOfRange(13)));
    assert_eq!(Period::parse("august"), Err(Error::NotAPeriod("august".to_string())));
    assert_eq!(Period::new(2026, 0), Err(Error::MonthOutOfRange(0)));
    assert_eq!(Period::parse("+2026-+08"), Ok(Period { year: 2026, month: 8 }));
}

#[test]
fn a_label_names_the_month() {
    assert_eq!(Period::new(2026, 8).unwrap().label(), "August 2026");
    assert_eq!(Period::new(-44, 3).unwrap().label(), "March -44");
}

#[test]
fn dates_and_years_are_written_as_iso_does() {
    assert_eq!(Date { year: 2026, month: 8, day: 5 }.to_string(), "2026-08-05");
    assert_eq!(Date { year: 12, month: 1, day: 9 }.to_string(), "0012-01-09");
    assert_eq!(Date { year: -5, month: 3, day: 1 }.to_string(), "-0005-03-01");
    assert_eq!(Date { year: 10000, month: 3, day: 1 }.to_string(), "+10000-03-01");
    assert_eq!(Period { year: 7, month: 11 }.to_string(), "0007-11");
}

#[test]
fn stepping_back_and_forth_returns_to_the_same_month() {
    let p = Period::new(2026, 1).unwrap();
    assert_eq!(p.prev().next(), p);
    assert_eq!(p.next().prev(), p);
    assert!(p.prev() < p && p < p.next());
}

#[test]
fn a_day_before_another_compares_as_before() {
    let a = Date { year: 2026, month: 8, day: 5 };
    let b = Date { year: 2026, month: 8, day: 22 };
    assert!(a.is_before(&b));
    assert!(!b.is_before(&a));
    assert!(!a.is_before(&a));
    assert_eq!(Period::of(b), Period { year: 2026, month: 8 });
}
