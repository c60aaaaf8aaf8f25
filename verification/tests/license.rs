//! License-validity checks against the live clock, at instant and at date
//! resolution.

use chrono::Datelike;
use chrono::{DateTime, Days, Utc};
use fsproto::credentials::{Date, LicenseValidity, Timestamp};

fn instant(dt: DateTime<Utc>) -> Timestamp {
    Timestamp { nanos: dt.timestamp_nanos_opt().unwrap() }
}

fn date(d: chrono::NaiveDate) -> Date {
    Date { days_from_ce: d.num_days_from_ce() }
}

#[test]
fn license_validity_valid() {
    let today: DateTime<Utc> = Utc::now();
    let expiration_date = today.checked_add_days(Days::new(7)).unwrap();

    assert!(instant(expiration_date).is_good());
}

#[test]
fn license_validity_expired() {
    let today: DateTime<Utc> = Utc::now();
    let expiration_date = today.checked_sub_days(Days::new(7)).unwrap();

    assert!(!instant(expiration_date).is_good());
}

#[test]
fn license_validity_close_to_expiring() {
    let today: DateTime<Utc> = Utc::now();
    let expiration_date = today.checked_add_days(Days::new(3)).unwrap();

    assert_eq!(instant(expiration_date).days_until_expiration(), Some(2));
}

#[test]
fn license_validity_valid_naive() {
    let today = Utc::now().naive_utc().date();
    let expiration_date = today.checked_add_days(Days::new(7)).unwrap();

    assert!(date(expiration_date).is_good())
}

#[test]
fn license_validity_expired_naive() {
    let today = Utc::now().naive_utc().date();
    let expiration_date = today.checked_sub_days(Days::new(7)).unwrap();

    assert!(!date(expiration_date).is_good());
}

#[test]
fn license_validity_close_to_expiring_naive() {
    let today = Utc::now().naive_utc().date();
    let expiration_date = today.checked_add_days(Days::new(3)).unwrap();

    assert_eq!(date(expiration_date).days_until_expiration(), Some(3));
}

#[test]
fn license_validity_same_day_naive() {
    let today = Utc::now().naive_utc().date();
    let expiration_date = today;

    assert!(date(expiration_date).is_good());
    assert_eq!(date(expiration_date).days_until_expiration(), Some(0));
}
