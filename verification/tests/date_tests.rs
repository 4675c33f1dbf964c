use mensa_menu::date::{make_date, Date};

fn d(y: u32, m: u32, day: u32) -> Date {
    make_date(y, m, day).unwrap()
}

#[test]
fn known_weekdays() {
    // 1970-01-01 was a Thursday.
    assert_eq!(d(1970, 1, 1).weekday(), 3);
    // 2024-03-05 was a Tuesday.
    assert_eq!(d(2024, 3, 5).weekday(), 1);
    // 2024-03-09 was a Saturday, 2024-03-10 a Sunday, 2024-03-11 a Monday.
    assert_eq!(d(2024, 3, 9).weekday(), 5);
    assert_eq!(d(2024, 3, 10).weekday(), 6);
    assert_eq!(d(2024, 3, 11).weekday(), 0);
}

#[test]
fn day_numbers() {
    assert_eq!(d(1970, 1, 1).day_number(), 0);
    assert_eq!(d(1970, 1, 2).day_number(), 1);
    assert_eq!(d(1970, 2, 1).day_number(), 31);
    assert_eq!(d(1971, 1, 1).day_number(), 365);
    // 1972 was a leap year.
    assert_eq!(d(1973, 1, 1).day_number(), 365 + 366 + 365);
}

#[test]
fn add_days_rolls_over_months_and_years() {
    // 2024 is a leap year: February has 29 days.
    assert_eq!(d(2024, 2, 28).add_days(1), d(2024, 2, 29));
    assert_eq!(d(2024, 2, 28).add_days(2), d(2024, 3, 1));
    // 2023 is not.
    assert_eq!(d(2023, 2, 28).add_days(1), d(2023, 3, 1));
    assert_eq!(d(2023, 12, 31).add_days(1), d(2024, 1, 1));
    assert_eq!(d(2024, 3, 9).add_days(2), d(2024, 3, 11));
}

#[test]
fn make_date_rejects_unreal_dates() {
    assert!(make_date(2024, 2, 30).is_none());
    assert!(make_date(2023, 2, 29).is_none());
    assert!(make_date(2024, 13, 1).is_none());
    assert!(make_date(2024, 0, 1).is_none());
    assert!(make_date(2024, 1, 0).is_none());
    assert!(make_date(1969, 12, 31).is_none());
    assert!(make_date(10000, 1, 1).is_none());
    assert!(make_date(2024, 2, 29).is_some());
}

#[test]
fn iso_strings() {
    assert_eq!(d(2024, 3, 5).iso_string(), "2024-03-05");
    assert_eq!(d(1970, 1, 1).iso_string(), "1970-01-01");
    assert_eq!(d(9999, 12, 31).iso_string(), "9999-12-31");
}

#[test]
fn saturday_resolves_to_monday() {
    // A request for "today" on a Saturday lands on the following Monday,
    // shifted by two days.
    let sat = d(2024, 3, 9);
    let r = sat.resolve(0);
    assert_eq!(r.date, d(2024, 3, 11));
    assert_eq!(r.shifted_by, 2);
    assert_eq!(r.date.weekday(), 0);
}

#[test]
fn sunday_resolves_to_monday() {
    let sun = d(2024, 3, 10);
    let r = sun.resolve(0);
    assert_eq!(r.date, d(2024, 3, 11));
    assert_eq!(r.shifted_by, 1);
    assert_eq!(r.date.weekday(), 0);
}

#[test]
fn weekday_resolution_does_not_shift() {
    let tue = d(2024, 3, 5);
    let r = tue.resolve(0);
    assert_eq!(r.date, tue);
    assert_eq!(r.shifted_by, 0);
    // Tuesday + 2 is Thursday: still no shift.
    let r2 = tue.resolve(2);
    assert_eq!(r2.date, d(2024, 3, 7));
    assert_eq!(r2.shifted_by, 0);
    // Thursday + 2 lands on Saturday and shifts to Monday.
    let thu = d(2024, 3, 7);
    let r3 = thu.resolve(2);
    assert_eq!(r3.date, d(2024, 3, 11));
    assert_eq!(r3.shifted_by, 2);
}

#[test]
fn prefetch_sets_by_weekday() {
    // Monday through Wednesday: three consecutive dates.
    let mon = d(2024, 3, 4);
    assert_eq!(
        mon.prefetch_dates(),
        vec![d(2024, 3, 4), d(2024, 3, 5), d(2024, 3, 6)]
    );
    // Thursday: today, +1, +4.
    let thu = d(2024, 3, 7);
    assert_eq!(
        thu.prefetch_dates(),
        vec![d(2024, 3, 7), d(2024, 3, 8), d(2024, 3, 11)]
    );
    // Friday: today and next Monday, deduplicated to two.
    let fri = d(2024, 3, 8);
    assert_eq!(fri.prefetch_dates(), vec![d(2024, 3, 8), d(2024, 3, 11)]);
    // Saturday: next Monday only.
    let sat = d(2024, 3, 9);
    assert_eq!(sat.prefetch_dates(), vec![d(2024, 3, 11)]);
    // Sunday: next Monday and next Tuesday.
    let sun = d(2024, 3, 10);
    assert_eq!(sun.prefetch_dates(), vec![d(2024, 3, 11), d(2024, 3, 12)]);
}

#[test]
fn today_is_a_real_date() {
    let t = mensa_menu::date::today();
    assert!(t.is_some());
}
