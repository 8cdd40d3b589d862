use airac::calendar::{MAX_DAY, MIN_DAY};
use airac::cycle::{ANCHOR_DAY, CYCLE_DAYS};
use airac::decimal::push_zero_padded;
use airac::{Date, AIRAC};
use chrono::{Datelike, NaiveDate, Utc};

#[test]
fn test_ord() {
    let today = Utc::now().date_naive();
    let current = AIRAC::from_ymd(today.year(), today.month(), today.day());
    let prev = current.previous();
    assert!(prev < current);
    let next = current.next();
    assert!(next > current);
}

#[test]
fn test_leap_years() {
    let airac = AIRAC::from_ymd(2020, 12, 31);
    assert_eq!("2014", airac.identifier());
}

#[test]
fn test_started_and_ends_correct_pre_2020() {
    let airac = AIRAC::from_ymd(2018, 02, 17);
    assert_eq!(airac.starts(), Date::from_ymd(2018, 02, 01));
    assert_eq!(airac.ends(), Date::from_ymd(2018, 03, 01));
}

#[test]
fn test_started_and_ends_correct_post_2020() {
    let airac = AIRAC::from_ymd(2022, 05, 23);
    assert_eq!(airac.starts(), Date::from_ymd(2022, 05, 19));
    assert_eq!(airac.ends(), Date::from_ymd(2022, 06, 16));
}

#[test]
fn test_airac_pre2020() {
    let airac = AIRAC::from_ymd(2019, 05, 13);
    assert_eq!("1905", airac.identifier());
}

#[test]
fn test_airac_post2020() {
    let airac = AIRAC::from_ymd(2022, 05, 23);
    assert_eq!("2205", airac.identifier());
}

#[test]
fn anchor_is_2020_01_02() {
    assert_eq!(Date::from_ymd(2020, 1, 2).num_days_from_ce(), ANCHOR_DAY);
    assert_eq!(AIRAC::from_ymd(2020, 1, 2).starts(), Date::from_ymd(2020, 1, 2));
}

#[test]
fn day_numbers_follow_chrono() {
    assert_eq!(Date::from_ymd(1999, 9, 3).num_days_from_ce(), 730_000);
    assert_eq!(Date::from_ymd(1, 1, 1).num_days_from_ce(), 1);
    assert_eq!(Date::from_ymd(0, 12, 31).num_days_from_ce(), 0);
    assert_eq!(NaiveDate::MIN.num_days_from_ce(), MIN_DAY);
    assert_eq!(NaiveDate::MAX.num_days_from_ce(), MAX_DAY);
}

#[test]
fn cycle_start_belongs_to_its_own_cycle() {
    let before = AIRAC::from_ymd(2018, 2, 1);
    assert_eq!(before.starts(), Date::from_ymd(2018, 2, 1));
    let after = AIRAC::from_ymd(2022, 5, 19);
    assert_eq!(after.starts(), Date::from_ymd(2022, 5, 19));
}

#[test]
fn cycle_end_belongs_to_the_next_cycle() {
    let a = AIRAC::from_ymd(2018, 3, 1);
    assert_eq!(a.starts(), Date::from_ymd(2018, 3, 1));
    let b = AIRAC::from_ymd(2022, 6, 16);
    assert_eq!(b.starts(), Date::from_ymd(2022, 6, 16));
    assert_eq!(AIRAC::from_ymd(2022, 6, 15).starts(), Date::from_ymd(2022, 5, 19));
}

#[test]
fn day_before_anchor_is_in_the_previous_cycle() {
    let a = AIRAC::from_ymd(2020, 1, 1);
    assert_eq!(a.starts(), Date::from_ymd(2019, 12, 5));
    assert_eq!(a.ends(), Date::from_ymd(2020, 1, 2));
}

#[test]
fn located_cycle_contains_the_date() {
    let dates = [(1850, 7, 4), (1999, 12, 31), (2000, 2, 29), (2024, 2, 29), (2101, 1, 1)];
    for (y, m, d) in dates {
        let day = Date::from_ymd(y, m, d);
        let a = AIRAC::from_ymd(y, m, d);
        assert!(a.starts() <= day);
        assert!(day < a.ends());
        let offset = a.starts().num_days_from_ce() - ANCHOR_DAY;
        assert_eq!(offset.rem_euclid(CYCLE_DAYS), 0);
    }
}

#[test]
fn ends_is_start_plus_cycle_length() {
    let a = AIRAC::from_ymd(1987, 3, 14);
    assert_eq!(a.ends().num_days_from_ce(), a.starts().num_days_from_ce() + 28);
}

#[test]
fn previous_and_next_are_inverse() {
    let a = AIRAC::from_ymd(2021, 8, 30);
    assert_eq!(a.previous().next(), a);
    assert_eq!(a.next().previous(), a);
    assert!(a.previous() < a);
    assert!(a < a.next());
    assert_eq!(a.next().starts(), a.ends());
}

#[test]
fn sequence_numbers_run_through_a_year() {
    let mut a = AIRAC::from_ymd(2020, 1, 2);
    let expected = [
        "2001", "2002", "2003", "2004", "2005", "2006", "2007", "2008", "2009", "2010", "2011",
        "2012", "2013", "2014", "2101", "2102",
    ];
    for id in expected {
        assert_eq!(a.identifier(), id);
        a = a.next();
    }
}

#[test]
fn identifier_of_last_cycle_of_1999() {
    assert_eq!(AIRAC::from_ymd(1999, 12, 31).identifier(), "9913");
    assert_eq!(AIRAC::from_ymd(2000, 1, 1).identifier(), "9913");
}

#[test]
fn identifier_of_a_year_before_the_common_era() {
    let id = AIRAC::from_ymd(-1, 6, 15).identifier();
    assert!(id.starts_with("99"));
    assert_eq!(id.len(), 4);
}

#[test]
fn zero_padding() {
    let mut s = String::new();
    push_zero_padded(&mut s, 5);
    push_zero_padded(&mut s, 42);
    push_zero_padded(&mut s, 123);
    assert_eq!(s, "0542123");
}

#[test]
fn dates_order_by_day() {
    assert!(Date::from_ymd(2018, 2, 1) < Date::from_ymd(2018, 3, 1));
    assert!(Date::from_ymd(-5, 12, 31) < Date::from_ymd(-4, 1, 1));
}
