use pgprox::backend::TxStatus;
use pgprox::connect::{Need, PoolError, ServerId, UpstreamHandshake};
use pgprox::encode;
use pgprox::proto::{ConnId, NodeId, Tag};

fn server() -> ServerId {
    ServerId::new("db-1", 5432)
}

/// Splits an encoded backend message into the tag and body the machine
/// takes, which is what a driver reading frames would hand it.
fn framed(bytes: &[u8]) -> (Tag, Vec<u8>) {
    assert!(bytes.len() >= 5, "the test built a message that does not decode");
    let len = u32::from_be_bytes([bytes[1], bytes[2], bytes[3], bytes[4]]) as usize;
    assert_eq!(len + 1, bytes.len(), "the test built a message that does not decode");
    (Tag(bytes[0]), bytes[5..].to_vec())
}

fn message(build: impl FnOnce(&mut Vec<u8>)) -> (Tag, Vec<u8>) {
    let mut out = Vec::new();
    build(&mut out);
    framed(&out)
}

fn feed(handshake: &mut UpstreamHandshake, built: &(Tag, Vec<u8>)) -> Need {
    handshake.on_frame(built.0, &built.1)
}

fn auth_ok() -> (Tag, Vec<u8>) {
    message(encode::authentication_ok)
}

fn ready() -> (Tag, Vec<u8>) {
    message(|out| encode::ready_for_query(out, TxStatus::Idle))
}

#[test]
fn a_trust_connection_reaches_ready_and_harvests_its_parameters() {
    let mut handshake = UpstreamHandshake::new(server());
    assert_eq!(handshake.begin(), Need::Startup);
    assert_eq!(feed(&mut handshake, &auth_ok()), Need::Read);

    for (name, value) in [("server_version", "17.2"), ("client_encoding", "UTF8")] {
        assert_eq!(
            feed(
                &mut handshake,
                &message(|out| encode::parameter_status(out, name, value))
            ),
            Need::Read
        );
    }
    assert_eq!(feed(&mut handshake, &ready()), Need::Ready);

    assert!(handshake.is_ready());
    assert_eq!(
        handshake.parameters(),
        [
            ("server_version".to_owned(), "17.2".to_owned()),
            ("client_encoding".to_owned(), "UTF8".to_owned()),
        ]
    );
}

#[test]
fn a_cleartext_password_is_asked_for_and_then_the_connection_settles() {
    let mut handshake = UpstreamHandshake::new(server());
    handshake.begin();

    assert_eq!(
        feed(
            &mut handshake,
            &message(encode::authentication_cleartext_password)
        ),
        Need::Password
    );
    assert_eq!(feed(&mut handshake, &auth_ok()), Need::Read);
    assert_eq!(feed(&mut handshake, &ready()), Need::Ready);
}

#[test]
fn a_scram_exchange_routes_each_payload_without_computing_any_of_it() {
    let mut handshake = UpstreamHandshake::new(server());
    handshake.begin();

    assert_eq!(
        feed(
            &mut handshake,
            &message(|out| encode::authentication_sasl(out, &["SCRAM-SHA-256"]))
        ),
        Need::SaslStart
    );
    assert_eq!(
        feed(
            &mut handshake,
            &message(|out| encode::authentication_sasl_continue(
                out,
                "r=NONCE,s=U0FMVA==,i=4096"
            ))
        ),
        Need::SaslContinue("r=NONCE,s=U0FMVA==,i=4096".to_owned())
    );
    assert_eq!(
        feed(
            &mut handshake,
            &message(|out| encode::authentication_sasl_final(out, "v=U0lHTg=="))
        ),
        Need::SaslVerify("v=U0lHTg==".to_owned())
    );
    assert_eq!(feed(&mut handshake, &auth_ok()), Need::Read);
    assert_eq!(feed(&mut handshake, &ready()), Need::Ready);
}

#[test]
fn the_servers_own_cancel_key_is_kept() {
    // Cancelling a query means sending this key, not the one the proxy
    // handed its client. Losing it means cancellation silently stops
    // working against the one thing it has to work against.
    let mut handshake = UpstreamHandshake::new(server());
    handshake.begin();
    feed(&mut handshake, &auth_ok());

    let conn = ConnId::new(NodeId::new(1), 9);
    let (hi, lo) = encode::conn_key(conn);
    let (process_id, secret) = (hi as i32, lo as i32);
    feed(
        &mut handshake,
        &message(|out| encode::backend_key_data(out, process_id, secret)),
    );

    assert_eq!(handshake.backend_key(), Some((process_id, secret)));
}

#[test]
fn md5_is_refused_by_name_rather_than_as_a_generic_failure() {
    // Supportable and deliberately not supported. An operator who sees
    // this knows to change password_encryption; one who sees "connection
    // failed" goes looking at the network.
    let mut handshake = UpstreamHandshake::new(server());
    handshake.begin();

    let mut out = Vec::new();
    // Subtype 5 with a four-byte salt, which is what a real server sends.
    out.push(Tag::AUTHENTICATION);
    out.extend_from_slice(&12_u32.to_be_bytes());
    out.extend_from_slice(&5_i32.to_be_bytes());
    out.extend_from_slice(&[1, 2, 3, 4]);

    let Need::Fail(PoolError::ConnectFailed { reason, .. }) =
        feed(&mut handshake, &framed(&out))
    else {
        panic!("an md5 request did not fail the connection");
    };
    assert!(reason.contains("md5"), "{reason}");
}

#[test]
fn an_unknown_authentication_method_names_its_number() {
    // The number is what an operator will search for, and GSSAPI, SSPI and
    // the rest all arrive this way.
    let mut handshake = UpstreamHandshake::new(server());
    handshake.begin();

    let mut out = Vec::new();
    out.push(Tag::AUTHENTICATION);
    out.extend_from_slice(&8_u32.to_be_bytes());
    out.extend_from_slice(&7_i32.to_be_bytes());

    let Need::Fail(PoolError::ConnectFailed { reason, .. }) =
        feed(&mut handshake, &framed(&out))
    else {
        panic!("an unknown method did not fail the connection");
    };
    assert!(reason.contains('7'), "{reason}");
}

#[test]
fn a_refusal_carries_the_servers_own_words() {
    // "password authentication failed" and "database does not exist" need
    // different fixes, and this is the only place either is visible.
    let mut handshake = UpstreamHandshake::new(server());
    handshake.begin();

    let mut out = Vec::new();
    out.push(Tag::ERROR_RESPONSE);
    let body = b"SFATAL\0C3D000\0Mdatabase \"nope\" does not exist\0\0";
    out.extend_from_slice(&u32::try_from(body.len() + 4).unwrap().to_be_bytes());
    out.extend_from_slice(body);

    let Need::Fail(PoolError::ConnectFailed { reason, .. }) =
        feed(&mut handshake, &framed(&out))
    else {
        panic!("an ErrorResponse did not fail the connection");
    };
    assert!(reason.contains("does not exist"), "{reason}");
    assert!(reason.contains("3D000"), "{reason}");
}

#[test]
fn a_notice_during_startup_does_not_fail_the_connection() {
    let mut handshake = UpstreamHandshake::new(server());
    handshake.begin();

    let mut out = Vec::new();
    out.push(Tag::NOTICE_RESPONSE);
    let body = b"SNOTICE\0C00000\0Msomething informative\0\0";
    out.extend_from_slice(&u32::try_from(body.len() + 4).unwrap().to_be_bytes());
    out.extend_from_slice(body);

    assert_eq!(feed(&mut handshake, &framed(&out)), Need::Read);
}

#[test]
fn a_server_that_is_ready_before_it_authenticates_is_refused() {
    // Not a real Postgres, then. Trusting it would mean handing a tenant's
    // queries to whatever answered the socket.
    let mut handshake = UpstreamHandshake::new(server());
    handshake.begin();

    assert!(matches!(feed(&mut handshake, &ready()), Need::Fail(_)));
    assert!(!handshake.is_ready());
}

#[test]
fn a_message_after_the_handshake_finished_is_refused() {
    let mut handshake = UpstreamHandshake::new(server());
    handshake.begin();
    feed(&mut handshake, &auth_ok());
    feed(&mut handshake, &ready());

    assert!(matches!(feed(&mut handshake, &auth_ok()), Need::Fail(_)));
}

#[test]
fn an_undecodable_message_fails_the_connection_rather_than_panicking() {
    // These bytes come from the network. A malformed one must not take
    // down a node serving a hundred thousand other connections.
    let mut handshake = UpstreamHandshake::new(server());
    handshake.begin();

    assert!(matches!(
        handshake.on_frame(Tag(Tag::READY_FOR_QUERY), &[]),
        Need::Fail(_)
    ));
}

#[test]
fn a_data_row_during_startup_is_refused_rather_than_ignored() {
    let mut handshake = UpstreamHandshake::new(server());
    handshake.begin();

    let mut out = Vec::new();
    out.push(Tag::DATA_ROW);
    out.extend_from_slice(&6_u32.to_be_bytes());
    out.extend_from_slice(&0_i16.to_be_bytes());

    assert!(matches!(feed(&mut handshake, &framed(&out)), Need::Fail(_)));
}

fn failed_because(need: Need) -> String {
    match need {
        Need::Fail(PoolError::ConnectFailed { server: s, reason }) => {
            assert_eq!(s, server());
            reason
        }
        other => panic!("expected a failure, got {other:?}"),
    }
}

/// A frame through the machine and then through the SASL order check, as
/// the driver runs them.
fn step(handshake: &mut UpstreamHandshake, built: &(Tag, Vec<u8>)) -> Need {
    let asked = feed(handshake, built);
    handshake.check_sasl_order(asked)
}

#[test]
fn a_sasl_exchange_is_started_once() {
    let mut handshake = UpstreamHandshake::new(server());
    handshake.begin();
    let start = message(|out| encode::authentication_sasl(out, &["SCRAM-SHA-256"]));
    assert_eq!(step(&mut handshake, &start), Need::SaslStart);
    // The machine itself hands the second start on; the order check fails it.
    assert_eq!(feed(&mut handshake, &start), Need::SaslStart);
    assert_eq!(
        failed_because(step(&mut handshake, &start)),
        "the server asked for SASL twice"
    );
}

#[test]
fn a_sasl_challenge_before_the_start_fails_the_connection() {
    let mut handshake = UpstreamHandshake::new(server());
    handshake.begin();
    let challenge = message(|out| encode::authentication_sasl_continue(out, "r=NONCE,s=U0FMVA==,i=4096"));
    assert_eq!(
        failed_because(step(&mut handshake, &challenge)),
        "a SASL challenge arrived first"
    );
}

#[test]
fn a_sasl_result_before_the_start_fails_the_connection() {
    let mut handshake = UpstreamHandshake::new(server());
    handshake.begin();
    let result = message(|out| encode::authentication_sasl_final(out, "v=U0lHTg=="));
    assert_eq!(
        failed_because(step(&mut handshake, &result)),
        "a SASL result arrived first"
    );
}

#[test]
fn an_exchange_in_order_passes_the_check_unchanged() {
    let mut handshake = UpstreamHandshake::new(server());
    handshake.begin();
    let start = message(|out| encode::authentication_sasl(out, &["SCRAM-SHA-256"]));
    let challenge = message(|out| encode::authentication_sasl_continue(out, "r=N,s=S,i=1"));
    let result = message(|out| encode::authentication_sasl_final(out, "v=V"));
    assert_eq!(step(&mut handshake, &start), Need::SaslStart);
    assert_eq!(step(&mut handshake, &challenge), Need::SaslContinue("r=N,s=S,i=1".to_owned()));
    assert_eq!(step(&mut handshake, &result), Need::SaslVerify("v=V".to_owned()));
    assert_eq!(step(&mut handshake, &auth_ok()), Need::Read);
    assert_eq!(step(&mut handshake, &ready()), Need::Ready);
}
