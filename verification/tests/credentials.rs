//! Credential validity windows and the credentials container.

use fsproto::credentials::{Certificate, Credentials, Date, KeyPair, Timestamp, Validity};

const T0: i64 = 1_000_000_000_000_000_000;
const T1: i64 = 2_000_000_000_000_000_000;
const NANOS_PER_DAY: i64 = 86_400_000_000_000;

fn window() -> Validity {
    Validity { not_before: Timestamp { nanos: T0 }, not_after: Timestamp { nanos: T1 } }
}

#[test]
fn validity_strictly_between_bounds() {
    let v = window();
    assert!(v.is_date_valid(Timestamp { nanos: T0 + 1 }));
    assert!(v.is_date_valid(Timestamp { nanos: (T0 + T1) / 2 }));
    assert!(v.is_date_valid(Timestamp { nanos: T1 - 1 }));
}

#[test]
fn validity_false_at_and_outside_bounds() {
    let v = window();
    assert!(!v.is_date_valid(Timestamp { nanos: T0 }));
    assert!(!v.is_date_valid(Timestamp { nanos: T1 }));
    assert!(!v.is_date_valid(Timestamp { nanos: T0 - 1 }));
    assert!(!v.is_date_valid(Timestamp { nanos: T1 + 1 }));
}

#[test]
fn days_until_expiration_truncates_below_day_resolution() {
    // An expiry exactly three days ahead, measured one nanosecond later,
    // leaves two whole days.
    let expiry = Timestamp { nanos: 3 * NANOS_PER_DAY };
    assert_eq!(expiry.days_until_expiration_from(0), Some(3));
    assert_eq!(expiry.days_until_expiration_from(1), Some(2));
}

#[test]
fn days_until_expiration_at_date_resolution() {
    let expiry = Date { days_from_ce: 738_000 };
    assert_eq!(expiry.days_until_expiration_from(738_000), Some(0));
    assert_eq!(expiry.days_until_expiration_from(737_997), Some(3));
    assert_eq!(expiry.days_until_expiration_from(738_001), None);
}

#[test]
fn days_until_expiration_past_expiry() {
    let expiry = Timestamp { nanos: 0 };
    // Less than one day past the expiry still reports zero days.
    assert_eq!(expiry.days_until_expiration_from(NANOS_PER_DAY - 1), Some(0));
    // A full day or more past the expiry reports nothing.
    assert_eq!(expiry.days_until_expiration_from(NANOS_PER_DAY), None);
}

#[test]
fn credentials_validity_follows_certificate_window() {
    let credentials = Credentials::new(
        Certificate { validity: window() },
        KeyPair { document: "key document".to_string() },
    );
    assert!(credentials.is_valid_at(T0 + 1));
    assert!(!credentials.is_valid_at(T0));
    assert!(!credentials.is_valid_at(T1));
}

#[test]
fn replace_certificate_keeps_key_pair() {
    let mut credentials = Credentials::new(
        Certificate { validity: window() },
        KeyPair { document: "key document".to_string() },
    );
    let renewed = Validity {
        not_before: Timestamp { nanos: T1 },
        not_after: Timestamp { nanos: T1 + 1_000 },
    };
    credentials.replace_certificate(Certificate { validity: renewed });
    assert_eq!(credentials.certificate(), Certificate { validity: renewed });
    assert_eq!(credentials.key_pair().document, "key document");
    assert!(credentials.is_valid_at(T1 + 500));
    assert!(!credentials.is_valid_at(T0 + 1));
}
