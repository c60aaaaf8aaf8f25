//! Credential validity for the authenticated channel: a local identity made
//! of a key pair and a certificate, and the checks that refuse to treat an
//! expired certificate as trustworthy. The cryptographic exchange that
//! obtains or renews a certificate belongs to an external collaborator; this
//! module only models the validity window and the license-expiry arithmetic.

use vstd::prelude::*;

use chrono::Datelike;

verus! {

/// Nanoseconds in one day.
pub const NANOS_PER_DAY: u64 = 86_400_000_000_000;

/// How many days we consider a license is close to expiring.
pub const CLOSE_TO_EXPIRATION_DAYS: u64 = 2;

/// Relies on chrono's `Utc::now` and `DateTime::timestamp_nanos_opt`: the
/// current UTC instant as nanoseconds since the Unix epoch, or `None` when
/// that count does not fit in an `i64` (roughly before 1677 or after 2262).
#[verifier::external_body]
fn now_unix_nanos() -> Option<i64> {
    chrono::Utc::now().timestamp_nanos_opt()
}

/// Relies on chrono's `Utc::now`, `DateTime::naive_utc` and
/// `Datelike::num_days_from_ce`: the current UTC date as a signed day count
/// from the common era.
#[verifier::external_body]
fn today_days_from_ce() -> i32 {
    chrono::Utc::now().naive_utc().date().num_days_from_ce()
}

/// An expiry date, at instant resolution: nanoseconds since the Unix epoch,
/// signed to admit pre-epoch instants.
#[derive(Debug, PartialEq, Eq, Clone, Copy, Structural)]
pub struct Timestamp {
    pub nanos: i64,
}

/// An expiry date, at whole-day resolution: a signed day count from the
/// common era, as an operator status reports it.
#[derive(Debug, PartialEq, Eq, Clone, Copy, Structural)]
pub struct Date {
    pub days_from_ce: i32,
}

/// Extends a date type to help us when checking for a license's certificate
/// validity: [`Timestamp`] for instant-resolution expiries, [`Date`] for the
/// day-resolution dates an operator status carries. Both methods consult the
/// clock; their outcome for a known clock reading is fixed by `is_good_at`
/// and `days_until_expiration_from` on each implementing type.
pub trait LicenseValidity {
    /// This date's validity is good.
    fn is_good(&self) -> bool;

    /// How many days until expiration from this date counting from _now_,
    /// which means that an expiration date of `today + 3` means we have 2
    /// days left until expiry when the clock is past the start of today.
    fn days_until_expiration(&self) -> Option<u64>;
}

impl Timestamp {
    /// An instant-resolution expiry is good strictly after the clock reading.
    pub open spec fn spec_is_good_at(&self, now_nanos: i64) -> bool {
        now_nanos < self.nanos
    }

    /// Whole days from the clock reading until this expiry, truncated toward
    /// zero; `None` once a full day or more past the expiry. An expiry less
    /// than one day away (or less than one day past) counts as 0 days.
    pub open spec fn spec_days_until_expiration_from(&self, now_nanos: i64) -> Option<u64> {
        if now_nanos <= self.nanos {
            Some((((self.nanos - now_nanos) / (NANOS_PER_DAY as int)) as u64))
        } else if now_nanos - self.nanos < NANOS_PER_DAY {
            Some(0u64)
        } else {
            None
        }
    }

    /// Validity of this expiry against an explicit clock reading.
    pub fn is_good_at(&self, now_nanos: i64) -> (good: bool)
        ensures
            good == self.spec_is_good_at(now_nanos),
    {
        now_nanos < self.nanos
    }

    /// Days left until this expiry against an explicit clock reading.
    pub fn days_until_expiration_from(&self, now_nanos: i64) -> (days: Option<u64>)
        ensures
            days == self.spec_days_until_expiration_from(now_nanos),
    {
        let diff: i128 = self.nanos as i128 - now_nanos as i128;
        if diff >= 0 {
            let days_whole: u128 = (diff as u128) / (NANOS_PER_DAY as u128);
            assert(days_whole == (self.nanos - now_nanos) / (NANOS_PER_DAY as int));
            Some(days_whole as u64)
        } else if -diff < NANOS_PER_DAY as i128 {
            Some(0)
        } else {
            None
        }
    }
}

impl LicenseValidity for Timestamp {
    fn is_good(&self) -> bool {
        match now_unix_nanos() {
            Some(now_nanos) => self.is_good_at(now_nanos),
            None => false,
        }
    }

    fn days_until_expiration(&self) -> Option<u64> {
        match now_unix_nanos() {
            Some(now_nanos) => self.days_until_expiration_from(now_nanos),
            None => None,
        }
    }
}

impl Date {
    /// A day-resolution expiry is good on its own day and later: expiry on
    /// today itself still counts as good.
    pub open spec fn spec_is_good_at(&self, today: i32) -> bool {
        today <= self.days_from_ce
    }

    /// Whole days from today until this expiry; `None` once the day is past.
    /// At day resolution the count is exact: `today + 3` gives 3.
    pub open spec fn spec_days_until_expiration_from(&self, today: i32) -> Option<u64> {
        if today <= self.days_from_ce {
            Some((self.days_from_ce - today) as u64)
        } else {
            None
        }
    }

    /// Validity of this expiry date against an explicit current date.
    pub fn is_good_at(&self, today: i32) -> (good: bool)
        ensures
            good == self.spec_is_good_at(today),
    {
        today <= self.days_from_ce
    }

    /// Days left until this expiry date against an explicit current date.
    pub fn days_until_expiration_from(&self, today: i32) -> (days: Option<u64>)
        ensures
            days == self.spec_days_until_expiration_from(today),
    {
        if today <= self.days_from_ce {
            Some((self.days_from_ce as i64 - today as i64) as u64)
        } else {
            None
        }
    }
}

impl LicenseValidity for Date {
    fn is_good(&self) -> bool {
        let today = today_days_from_ce();
        self.is_good_at(today)
    }

    fn days_until_expiration(&self) -> Option<u64> {
        let today = today_days_from_ce();
        self.days_until_expiration_from(today)
    }
}

/// The validity window of a certificate: the instants strictly between which
/// the certificate may be trusted.
#[derive(Debug, PartialEq, Eq, Clone, Copy, Structural)]
pub struct Validity {
    pub not_before: Timestamp,
    pub not_after: Timestamp,
}

impl Validity {
    /// An instant is inside the window iff it lies strictly between the two
    /// bounds: the check is false at the bounds themselves and outside them.
    pub open spec fn spec_is_date_valid(&self, other_nanos: i64) -> bool {
        self.not_before.nanos < other_nanos && other_nanos < self.not_after.nanos
    }

    /// Check `other` is in between `not_before` and `not_after`.
    pub fn is_date_valid(&self, other: Timestamp) -> (valid: bool)
        ensures
            valid == self.spec_is_date_valid(other.nanos),
    {
        self.not_before.nanos < other.nanos && other.nanos < self.not_after.nanos
    }
}

/// A certificate as this layer reads it: only its validity window. The DER
/// document itself, and every cryptographic property of it, stays with the
/// collaborator that issued and checks signatures.
#[derive(Debug, PartialEq, Eq, Clone, Copy, Structural)]
pub struct Certificate {
    pub validity: Validity,
}

/// Local key pair for creating certification requests: the PEM document of
/// the signing key. The key material is opaque data here; signing happens in
/// the collaborator that performs the exchange.
#[derive(Debug, PartialEq, Eq, Clone)]
pub struct KeyPair {
    pub document: String,
}

/// Client credentials container for authentication with the operator:
/// a certificate generated by the operator, and the local key pair used to
/// sign certification requests. The key pair does not change when a new
/// certificate replaces the old one.
#[derive(Debug, PartialEq, Eq, Clone)]
pub struct Credentials {
    pub certificate: Certificate,
    pub key_pair: KeyPair,
}

impl Credentials {
    /// Bundles a freshly obtained certificate with the key pair that
    /// requested it.
    pub fn new(certificate: Certificate, key_pair: KeyPair) -> (credentials: Self)
        ensures
            credentials.certificate == certificate,
            credentials.key_pair == key_pair,
    {
        Credentials { certificate, key_pair }
    }

    /// Returns the key pair used to sign certification requests.
    pub fn key_pair(&self) -> (key_pair: &KeyPair)
        ensures
            *key_pair == self.key_pair,
    {
        &self.key_pair
    }

    /// The certificate currently held.
    pub fn certificate(&self) -> (certificate: Certificate)
        ensures
            certificate == self.certificate,
    {
        self.certificate
    }

    /// Validity of the held certificate against an explicit clock reading.
    pub fn is_valid_at(&self, now_nanos: i64) -> (valid: bool)
        ensures
            valid == self.certificate.validity.spec_is_date_valid(now_nanos),
    {
        self.certificate.validity.is_date_valid(Timestamp { nanos: now_nanos })
    }

    /// Checks if the certificate in this struct is valid in terms of
    /// expiration, against the clock; an instant outside the range a
    /// nanosecond count can hold is never treated as valid.
    pub fn is_valid(&self) -> bool {
        match now_unix_nanos() {
            Some(now_nanos) => self.is_valid_at(now_nanos),
            None => false,
        }
    }

    /// Installs a certificate returned by the operator in place of the one
    /// held, keeping the key pair.
    pub fn replace_certificate(&mut self, certificate: Certificate)
        ensures
            final(self).certificate == certificate,
            final(self).key_pair == old(self).key_pair,
    {
        self.certificate = certificate;
    }
}

} // verus!
