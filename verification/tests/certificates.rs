use pgprox::tls::{TlsError, check_validity};

/// A self-signed certificate valid over a chosen window, as DER.
fn certificate(not_before: time::OffsetDateTime, not_after: time::OffsetDateTime) -> Vec<u8> {
    let key = rcgen::KeyPair::generate().unwrap();
    let mut params = rcgen::CertificateParams::new(vec!["localhost".to_owned()]).unwrap();
    params.not_before = not_before;
    params.not_after = not_after;
    params.self_signed(&key).unwrap().der().to_vec()
}

fn seconds(at: time::OffsetDateTime) -> u64 {
    u64::try_from(at.unix_timestamp()).unwrap()
}

fn day(year: i32, month: u8, day: u8) -> time::OffsetDateTime {
    rcgen::date_time_ymd(year, month, day)
}

const PATH: &str = "/etc/pgprox/tls.crt";

#[test]
fn a_certificate_inside_its_window_passes() {
    let der = certificate(day(2024, 1, 1), day(2025, 1, 1));
    assert!(check_validity(&der, PATH, Some(seconds(day(2024, 6, 1)))).is_ok());
}

#[test]
fn an_expired_certificate_is_refused_and_says_when_it_expired() {
    let der = certificate(day(2023, 1, 1), day(2024, 5, 31));
    match check_validity(&der, PATH, Some(seconds(day(2024, 6, 1)))) {
        Err(TlsError::CertificateExpired { path, not_after }) => {
            assert_eq!(path, PATH);
            assert!(not_after.contains("2024"), "{not_after}");
        }
        other => panic!("an expired certificate was accepted: {other:?}"),
    }
}

#[test]
fn a_certificate_dated_in_the_future_is_refused_and_says_when_it_starts() {
    let der = certificate(day(2024, 6, 2), day(2025, 6, 2));
    match check_validity(&der, PATH, Some(seconds(day(2024, 6, 1)))) {
        Err(TlsError::CertificateNotYetValid { path, not_before }) => {
            assert_eq!(path, PATH);
            assert!(not_before.contains("2024"), "{not_before}");
        }
        other => panic!("a certificate dated in the future was accepted: {other:?}"),
    }
}

#[test]
fn the_ends_of_the_window_are_inside_it() {
    let der = certificate(day(2024, 1, 1), day(2025, 1, 1));
    assert!(check_validity(&der, PATH, Some(seconds(day(2024, 1, 1)))).is_ok());
    assert!(check_validity(&der, PATH, Some(seconds(day(2025, 1, 1)))).is_ok());
    assert!(check_validity(&der, PATH, Some(seconds(day(2024, 1, 1)) - 1)).is_err());
    assert!(check_validity(&der, PATH, Some(seconds(day(2025, 1, 1)) + 1)).is_err());
}

#[test]
fn a_clock_before_the_epoch_is_before_every_window() {
    let der = certificate(day(2024, 1, 1), day(2025, 1, 1));
    assert!(matches!(
        check_validity(&der, PATH, None),
        Err(TlsError::CertificateNotYetValid { .. })
    ));
}

#[test]
fn a_time_past_what_the_date_library_holds_is_unreadable_rather_than_valid() {
    let der = certificate(day(2024, 1, 1), day(2025, 1, 1));
    match check_validity(&der, PATH, Some(u64::MAX)) {
        Err(TlsError::CertificateValidityUnreadable { reason, .. }) => {
            assert_eq!(reason, "invalid date");
        }
        other => panic!("an unrepresentable time was judged: {other:?}"),
    }
}

#[test]
fn the_last_second_the_date_library_holds_is_still_judged() {
    // 9999-12-31T23:59:59Z is the last instant the date library represents;
    // one second later cannot be turned into a certificate time at all.
    let der = certificate(day(2024, 1, 1), day(2025, 1, 1));
    assert!(matches!(
        check_validity(&der, PATH, Some(253_402_300_799)),
        Err(TlsError::CertificateExpired { .. })
    ));
    assert!(matches!(
        check_validity(&der, PATH, Some(253_402_300_800)),
        Err(TlsError::CertificateValidityUnreadable { .. })
    ));
}

#[test]
fn a_window_that_ends_at_2050_includes_its_last_instant() {
    // From 2050 a certificate time is GeneralizedTime; the instant itself is
    // still inside a window that ends on it.
    let der = certificate(day(2049, 1, 1), day(2050, 1, 1));
    assert_eq!(seconds(day(2050, 1, 1)), 2_524_608_000);
    assert!(check_validity(&der, PATH, Some(2_524_608_000)).is_ok());
    assert!(check_validity(&der, PATH, Some(2_524_608_001)).is_err());
}
