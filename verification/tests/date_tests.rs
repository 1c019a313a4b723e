use chrono::{Datelike, NaiveDate};
use icemodoro::date::{Date, FIRST_DAY, LAST_DAY};

#[test]
fn date_keeps_its_number() {
    assert_eq!(Date::from_days(738_946).days(), 738_946);
    assert_eq!(Date::from_days(-5).days(), -5);
}

#[test]
fn date_numbers_are_those_of_the_calendar() {
    let march_first = NaiveDate::from_ymd_opt(2024, 3, 1).unwrap();
    assert_eq!(march_first.num_days_from_ce(), 738_946);
    assert_eq!(NaiveDate::from_ymd_opt(1, 1, 1).unwrap().num_days_from_ce(), 1);
}

#[test]
fn date_range_is_that_of_the_calendar() {
    assert_eq!(NaiveDate::MIN.num_days_from_ce(), FIRST_DAY);
    assert_eq!(NaiveDate::MAX.num_days_from_ce(), LAST_DAY);
    assert_eq!(NaiveDate::from_num_days_from_ce_opt(FIRST_DAY), Some(NaiveDate::MIN));
    assert_eq!(NaiveDate::from_num_days_from_ce_opt(LAST_DAY), Some(NaiveDate::MAX));
    assert_eq!(NaiveDate::from_num_days_from_ce_opt(FIRST_DAY - 1), None);
    assert_eq!(NaiveDate::from_num_days_from_ce_opt(LAST_DAY + 1), None);
}

#[test]
fn date_previous_is_one_day_earlier() {
    let march_first = Date::from_days(738_946);
    let leap_day = march_first.previous().unwrap();
    assert_eq!(leap_day.days(), 738_945);
    assert_eq!(
        NaiveDate::from_num_days_from_ce_opt(leap_day.days()),
        NaiveDate::from_ymd_opt(2024, 2, 29)
    );
    assert_eq!(Date::from_days(1).previous(), Some(Date::from_days(0)));
    assert_eq!(Date::from_days(0).previous(), Some(Date::from_days(-1)));
}

#[test]
fn date_previous_ends_with_the_calendar() {
    assert_eq!(Date::from_days(FIRST_DAY).previous(), None);
    assert_eq!(Date::from_days(FIRST_DAY + 1).previous(), Some(Date::from_days(FIRST_DAY)));
    assert_eq!(Date::from_days(LAST_DAY).previous(), Some(Date::from_days(LAST_DAY - 1)));
    assert_eq!(Date::from_days(LAST_DAY + 1).previous(), None);
    assert_eq!(Date::from_days(FIRST_DAY - 1).previous(), None);
    assert_eq!(Date::from_days(i32::MAX).previous(), None);
    assert_eq!(Date::from_days(i32::MIN).previous(), None);
}

#[test]
fn date_is_before_goes_by_number() {
    assert!(Date::from_days(3).is_before(&Date::from_days(4)));
    assert!(!Date::from_days(4).is_before(&Date::from_days(4)));
    assert!(!Date::from_days(5).is_before(&Date::from_days(4)));
}
