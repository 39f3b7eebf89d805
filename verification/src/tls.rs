//! The decisions in TLS configuration: which crypto provider this build
//! names, whether a configuration passes the FIPS assertion, and whether a
//! certificate is inside its validity window.
//!
//! Building a FIPS binary swaps in the validated `aws-lc-rs` module, and
//! [`assert_fips`] checks that the resulting configuration reports FIPS mode;
//! the process refuses to start if it does not. A binary that claims FIPS and
//! silently runs non-validated crypto is worse than no FIPS binary at all.
//!
//! Reading files and building `rustls` configurations is the caller's I/O.
use vstd::prelude::*;

verus! {

/// Whether this build uses the FIPS validated provider. This crate has no
/// FIPS feature, so it never does.
pub const FIPS_BUILD: bool = false;

/// How often the certificate files are re-read, in seconds.
///
/// A rotation is noticed within a minute, for the cost of two small file reads
/// a minute; a value in the seconds would read a monthly-changing file every
/// second on every node.
pub const RELOAD_INTERVAL: u64 = 60;

/// Why TLS could not be configured.
#[derive(Debug, Clone)]
pub enum TlsError {
    /// A certificate or key file could not be read.
    Io {
        /// The file involved.
        path: String,
        /// The underlying failure.
        reason: String,
    },
    /// A PEM file held no certificate.
    NoCertificates {
        /// The file involved.
        path: String,
    },
    /// A PEM file held no private key.
    NoPrivateKey {
        /// The file involved.
        path: String,
    },
    /// rustls rejected the configuration.
    Rustls {
        /// What rustls said.
        reason: String,
    },
    /// A FIPS build produced a configuration that is not FIPS. Refusing to
    /// start is deliberate.
    NotFips {
        /// Which configuration failed the check.
        which: &'static str,
    },
    /// A certificate is dated in the future.
    CertificateNotYetValid {
        /// The file involved.
        path: String,
        /// What the certificate itself says, as the parser renders it.
        not_before: String,
    },
    /// A certificate's validity window has already ended.
    CertificateExpired {
        /// The file involved.
        path: String,
        /// What the certificate itself says, as the parser renders it.
        not_after: String,
    },
    /// The certificate's validity window could not be read at all. Refused
    /// rather than served unchecked.
    CertificateValidityUnreadable {
        /// The file involved.
        path: String,
        /// What the X.509 parser said.
        reason: String,
    },
}

/// The provider name for a build with or without FIPS.
pub open spec fn spec_provider_for(fips_build: bool) -> &'static str {
    if fips_build {
        "aws-lc-rs-fips"
    } else {
        "aws-lc-rs"
    }
}

/// The provider name, with the build flag passed in rather than read, so both
/// answers are reachable in one build.
pub fn provider_for(fips_build: bool) -> (r: &'static str)
    ensures
        r == spec_provider_for(fips_build),
{
    if fips_build {
        "aws-lc-rs-fips"
    } else {
        "aws-lc-rs"
    }
}

/// The name of this build's crypto provider, for the startup log.
///
/// An operator holding a running pod has no other way to tell the FIPS image
/// from the default one.
pub fn provider() -> (r: &'static str)
    ensures
        r == spec_provider_for(FIPS_BUILD),
{
    provider_for(FIPS_BUILD)
}

/// The FIPS decision, with the build flag passed in rather than read, so the
/// failure branch is testable in a default build.
pub fn check_fips(fips_build: bool, is_fips: bool, which: &'static str) -> (r: Result<(), TlsError>)
    ensures
        (fips_build && !is_fips) ==> (r matches Err(TlsError::NotFips { which: w }) && w == which),
        !(fips_build && !is_fips) ==> r is Ok,
{
    if fips_build && !is_fips {
        return Err(TlsError::NotFips { which });
    }
    Ok(())
}

/// Checks a configuration reports FIPS mode when this is a FIPS build. A
/// no-op in a default build, so the same code path serves both.
pub fn assert_fips(is_fips: bool, which: &'static str) -> (r: Result<(), TlsError>)
    ensures
        (FIPS_BUILD && !is_fips) ==> (r matches Err(TlsError::NotFips { which: w }) && w == which),
        !(FIPS_BUILD && !is_fips) ==> r is Ok,
{
    check_fips(FIPS_BUILD, is_fips, which)
}

// ---------------------------------------------------------------------------
// Certificate validity
// ---------------------------------------------------------------------------

/// A certificate time as `x509_parser` orders it: the instant, as whole
/// seconds since the UNIX epoch and nanoseconds past them, then whether it
/// is encoded as GeneralizedTime, and the text its `Display` renders.
pub type CertTime = (i64, u32, bool, Seq<char>);

/// What `x509_parser::parse_x509_certificate` makes of a DER certificate, as
/// plain values: on success its validity window's `not_before` and
/// `not_after`, and on failure the parser's error text.
pub uninterp spec fn x509_validity(der: Seq<u8>) -> Result<(CertTime, CertTime), Seq<char>>;

/// What `x509_parser::time::ASN1Time::from_timestamp` makes of a timestamp:
/// nothing outside the years -9999 to 9999 that the date library represents,
/// and otherwise whether the time it builds counts as GeneralizedTime, which
/// it does from the first second of 2050.
pub open spec fn asn1_from_timestamp(secs: i64) -> Option<bool> {
    if -377_705_116_800 <= secs && secs <= 253_402_300_799 {
        Some(secs >= 2_524_608_000)
    } else {
        None
    }
}

/// Parses a DER certificate and reads its validity window.
///
/// Calls `x509_parser::parse_x509_certificate` and reads `validity()`. Each
/// end is taken apart with `timestamp`, the `nanosecond` of `to_datetime`,
/// `is_generalizedtime`, and its `Display`; the parser's error, if any, is
/// rendered with its `Display`. Claimed: the result is [`x509_validity`] of
/// the bytes.
#[verifier::external_body]
fn read_validity(der: &[u8]) -> (r: Result<((i64, u32, bool, String), (i64, u32, bool, String)), String>)
    ensures
        match r {
            Ok((nb, na)) => x509_validity(der@) == Ok::<(CertTime, CertTime), Seq<char>>(
                ((nb.0, nb.1, nb.2, nb.3@), (na.0, na.1, na.2, na.3@)),
            ),
            Err(e) => x509_validity(der@) == Err::<(CertTime, CertTime), Seq<char>>(e@),
        },
{
    match x509_parser::parse_x509_certificate(der) {
        Ok((_, parsed)) => {
            let v = parsed.validity();
            let (b, a) = (&v.not_before, &v.not_after);
            Ok((
                (b.timestamp(), b.to_datetime().nanosecond(), b.is_generalizedtime(), b.to_string()),
                (a.timestamp(), a.to_datetime().nanosecond(), a.is_generalizedtime(), a.to_string()),
            ))
        },
        Err(err) => Err(err.to_string()),
    }
}

/// Builds a certificate time from a timestamp with
/// `ASN1Time::from_timestamp`.
///
/// Claimed: it succeeds exactly when [`asn1_from_timestamp`] says so, with
/// the GeneralizedTime flag it gives. It calls
/// `OffsetDateTime::from_unix_timestamp`, which accepts the timestamps from
/// -9999-01-01 to 9999-12-31 (the `time` crate's range without its
/// `large-dates` feature, which nothing here enables), and marks a date
/// GeneralizedTime when its year is after 2049; its only error is
/// `X509Error::InvalidDate`, whose text is `invalid date`.
#[verifier::external_body]
fn asn1_time_check(secs: i64) -> (r: Result<bool, String>)
    ensures
        match asn1_from_timestamp(secs) {
            Some(generalized) => r == Ok::<bool, String>(generalized),
            None => r matches Err(e) && e@ == "invalid date"@,
        },
{
    match x509_parser::time::ASN1Time::from_timestamp(secs) {
        Ok(t) => Ok(t.is_generalizedtime()),
        Err(err) => Err(err.to_string()),
    }
}

/// Seconds since the UNIX epoch as a signed timestamp: zero for a time before
/// the epoch, saturating at the largest timestamp.
pub open spec fn timestamp_of(now: Option<u64>) -> i64 {
    match now {
        None => 0,
        Some(s) => if s > i64::MAX as u64 {
            i64::MAX
        } else {
            s as i64
        },
    }
}

/// Whether one certificate time comes before another, in `x509_parser`'s
/// order: by instant, then a UTCTime before a GeneralizedTime.
pub open spec fn earlier(a: (i64, u32, bool), b: (i64, u32, bool)) -> bool {
    a.0 < b.0 || (a.0 == b.0 && (a.1 < b.1 || (a.1 == b.1 && !a.2 && b.2)))
}

/// What checking a certificate at `now` concludes, with the error as its
/// variant and its text.
pub enum ValidityVerdict {
    /// Inside its window.
    Valid,
    /// Before `not_before`, rendered as given.
    NotYetValid(Seq<char>),
    /// After `not_after`, rendered as given.
    Expired(Seq<char>),
    /// The window could not be read, for this reason.
    Unreadable(Seq<char>),
}

/// The verdict on a certificate at a time: unreadable if the parser fails or
/// the time cannot be represented; otherwise not yet valid strictly before its
/// window, expired strictly after it, and valid inside it, ends included.
pub open spec fn spec_validity(der: Seq<u8>, now: Option<u64>) -> ValidityVerdict {
    let secs = timestamp_of(now);
    match x509_validity(der) {
        Err(e) => ValidityVerdict::Unreadable(e),
        Ok((nb, na)) => match asn1_from_timestamp(secs) {
            None => ValidityVerdict::Unreadable("invalid date"@),
            Some(generalized) => {
                let at = (secs, 0u32, generalized);
                if earlier(at, (nb.0, nb.1, nb.2)) {
                    ValidityVerdict::NotYetValid(nb.3)
                } else if earlier((na.0, na.1, na.2), at) {
                    ValidityVerdict::Expired(na.3)
                } else {
                    ValidityVerdict::Valid
                }
            },
        },
    }
}

/// Whether one certificate time comes before another, computed.
fn is_earlier(a: (i64, u32, bool), b: (i64, u32, bool)) -> (r: bool)
    ensures
        r == earlier(a, b),
{
    a.0 < b.0 || (a.0 == b.0 && (a.1 < b.1 || (a.1 == b.1 && !a.2 && b.2)))
}

/// Refuses a leaf certificate outside its validity window.
///
/// `now` is the current time as seconds since the UNIX epoch, `None` if the
/// clock reads before it. Only the leaf is checked: an intermediate's window
/// is the issuing CA's problem.
pub fn check_validity(leaf: &[u8], path: &str, now: Option<u64>) -> (r: Result<(), TlsError>)
    ensures
        match spec_validity(leaf@, now) {
            ValidityVerdict::Valid => r is Ok,
            ValidityVerdict::NotYetValid(t) => r matches Err(TlsError::CertificateNotYetValid { path: p, not_before }) && p@ == path@ && not_before@ == t,
            ValidityVerdict::Expired(t) => r matches Err(TlsError::CertificateExpired { path: p, not_after }) && p@ == path@ && not_after@ == t,
            ValidityVerdict::Unreadable(t) => r matches Err(TlsError::CertificateValidityUnreadable { path: p, reason }) && p@ == path@ && reason@ == t,
        },
{
    let (not_before, not_after) = match read_validity(leaf) {
        Ok(v) => v,
        Err(reason) => {
            return Err(TlsError::CertificateValidityUnreadable { path: path.to_owned(), reason });
        },
    };
    let secs: i64 = match now {
        None => 0,
        Some(s) => if s > 9223372036854775807u64 {
            9223372036854775807i64
        } else {
            s as i64
        },
    };
    let generalized = match asn1_time_check(secs) {
        Ok(g) => g,
        Err(reason) => {
            return Err(TlsError::CertificateValidityUnreadable { path: path.to_owned(), reason });
        },
    };
    let at = (secs, 0u32, generalized);
    if is_earlier(at, (not_before.0, not_before.1, not_before.2)) {
        return Err(TlsError::CertificateNotYetValid { path: path.to_owned(), not_before: not_before.3 });
    }
    if is_earlier((not_after.0, not_after.1, not_after.2), at) {
        return Err(TlsError::CertificateExpired { path: path.to_owned(), not_after: not_after.3 });
    }
    Ok(())
}

} // verus!
