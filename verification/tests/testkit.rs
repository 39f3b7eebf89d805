use pgprox::testkit::{Readiness, STARTING_UP, classify_startup_reply, find_error_code};

/// Builds an `ErrorResponse` body carrying `code`.
fn error_body(code: &str) -> Vec<u8> {
    let mut body = vec![b'S'];
    body.extend_from_slice(b"FATAL\0");
    body.push(b'C');
    body.extend_from_slice(code.as_bytes());
    body.push(0);
    body.push(b'M');
    body.extend_from_slice(b"a message\0");
    body.push(0);
    body
}

#[test]
fn an_authentication_message_means_ready() {
    assert_eq!(classify_startup_reply(b'R', &[0; 4]), Readiness::Ready);
}

#[test]
fn the_starting_up_error_means_retry_not_failure() {
    // The exact bug this crate exists to stop recurring. A probe treating
    // this as ready passes on a fast machine and fails under load; one
    // treating it as failure gives up on a container that was about to
    // work.
    assert_eq!(
        classify_startup_reply(b'E', &error_body(STARTING_UP)),
        Readiness::NotYet
    );
}

#[test]
fn a_real_error_is_not_papered_over() {
    // Retrying forever on a genuine failure turns a clear error into a
    // timeout, which is a worse thing to debug.
    for code in ["28000", "3D000", "53300"] {
        assert_eq!(
            classify_startup_reply(b'E', &error_body(code)),
            Readiness::Failed,
            "{code} was treated as transient"
        );
    }
}

#[test]
fn an_error_with_no_code_is_a_failure() {
    let mut body = vec![b'M'];
    body.extend_from_slice(b"no code here\0");
    body.push(0);
    assert_eq!(classify_startup_reply(b'E', &body), Readiness::Failed);
}

#[test]
fn an_unexpected_tag_is_retried_rather_than_failed() {
    // A partial or surprising read during startup is common, and retrying
    // costs nothing.
    for tag in [b'Z', b'S', b'K', 0_u8] {
        assert_eq!(classify_startup_reply(tag, &[]), Readiness::NotYet);
    }
}

#[test]
fn a_truncated_error_body_does_not_panic() {
    // Probe input comes off a socket mid-startup, so it is routinely
    // incomplete.
    for len in 0..12 {
        let body = vec![b'C'; len];
        let _ = classify_startup_reply(b'E', &body);
    }
    assert_eq!(classify_startup_reply(b'E', b"C"), Readiness::Failed);
}

#[test]
fn the_code_is_found_wherever_it_stands() {
    assert_eq!(find_error_code(&error_body("57P03")), Some("57P03"));
    assert_eq!(find_error_code(b"Mfirst\0C42883\0\0"), Some("42883"));
    assert_eq!(find_error_code(b"Mno code\0\0"), None);
    assert_eq!(find_error_code(b""), None);
    assert_eq!(find_error_code(b"C57P0"), None);
}
