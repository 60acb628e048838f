//! Unit checks on the small verified pieces: minor-unit money
//! conversions, calendar-day arithmetic, trimming, and the stored text of
//! transaction types.

use fintrack::dates::day_of;
use fintrack::money::{minor_units, price_parts};
use fintrack::text::{is_blank_str, str_eq, str_lt, trim_str};
use fintrack::transactions::TransactionType;

#[test]
fn prices_round_trip_through_minor_units() {
    assert_eq!(minor_units(12, 34), 1234);
    assert_eq!(price_parts(1234), (12, 34));
    assert_eq!(minor_units(0, 0), 0);
    assert_eq!(price_parts(0), (0, 0));
    assert_eq!(minor_units(2, 99), 299);
    assert_eq!(price_parts(299), (2, 99));
    // The floating-point boundary: two-decimal dollars survive the trip.
    assert_eq!((12.34f64 * 100.0).round() as i64, 1234);
    assert_eq!(1234 as f64 / 100.0, 12.34);
    assert_eq!((2.99f64 * 100.0).round() as i64, 299);
    assert_eq!(299 as f64 / 100.0, 2.99);
}

#[test]
fn calendar_days_floor_their_timestamps() {
    assert_eq!(day_of(0), 0);
    assert_eq!(day_of(86_399), 0);
    assert_eq!(day_of(86_400), 1);
    assert_eq!(day_of(-1), -1);
    assert_eq!(day_of(-86_400), -1);
    assert_eq!(day_of(-86_401), -2);
    // 2025-01-08T12:00:00Z and midnight of the same date share a day.
    assert_eq!(day_of(1_736_337_600), day_of(1_736_294_400));
}

#[test]
fn trimming_and_blankness() {
    assert_eq!(trim_str("  hello \t"), "hello");
    assert_eq!(trim_str(""), "");
    assert_eq!(trim_str(" \n "), "");
    assert!(is_blank_str("   "));
    assert!(!is_blank_str(" a "));
    assert!(str_eq("abc", "abc"));
    assert!(!str_eq("abc", "abd"));
    assert!(str_lt("abc", "abd"));
    assert!(str_lt("ab", "abc"));
    assert!(!str_lt("abc", "abc"));
}

#[test]
fn transaction_types_round_trip_their_stored_text() {
    assert_eq!(TransactionType::Expense.as_db_text(), "expense");
    assert_eq!(TransactionType::Income.as_db_text(), "income");
    assert_eq!(
        TransactionType::from_db_text("expense"),
        Some(TransactionType::Expense)
    );
    assert_eq!(
        TransactionType::from_db_text("income"),
        Some(TransactionType::Income)
    );
    assert_eq!(TransactionType::from_db_text("out"), None);
}
