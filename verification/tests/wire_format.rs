use pgprox::backend::TxStatus;
use pgprox::encode;
use pgprox::error::{AuthRejection, ClientError};
use pgprox::frontend::decode_frontend;
use pgprox::proto::{ConnId, FrontendMessage, NodeId, Startup, Tag, Target};
use pgprox::startup::{StartupError, decode_startup};

#[test]
fn server_messages_are_written_as_the_protocol_frames_them() {
    let mut out = Vec::new();
    encode::authentication_ok(&mut out);
    assert_eq!(out, [b'R', 0, 0, 0, 8, 0, 0, 0, 0]);

    let mut out = Vec::new();
    encode::authentication_cleartext_password(&mut out);
    assert_eq!(out, [b'R', 0, 0, 0, 8, 0, 0, 0, 3]);

    let mut out = Vec::new();
    encode::ready_for_query(&mut out, TxStatus::Idle);
    encode::ready_for_query(&mut out, TxStatus::InTransaction);
    encode::ready_for_query(&mut out, TxStatus::Failed);
    assert_eq!(
        out,
        [b'Z', 0, 0, 0, 5, b'I', b'Z', 0, 0, 0, 5, b'T', b'Z', 0, 0, 0, 5, b'E']
    );

    let mut out = Vec::new();
    encode::parameter_status(&mut out, "a", "b");
    assert_eq!(out, [b'S', 0, 0, 0, 8, b'a', 0, b'b', 0]);

    let mut out = Vec::new();
    encode::authentication_sasl(&mut out, &["SCRAM-SHA-256"]);
    let mut want = vec![b'R', 0, 0, 0, 23, 0, 0, 0, 10];
    want.extend_from_slice(b"SCRAM-SHA-256\0\0");
    assert_eq!(out, want);

    let mut out = Vec::new();
    encode::backend_key_data(&mut out, -1, 2);
    assert_eq!(out, [b'K', 0, 0, 0, 12, 255, 255, 255, 255, 0, 0, 0, 2]);

    let mut out = Vec::new();
    encode::error_response(&mut out, "FATAL", "28000", "no");
    let mut want = vec![b'E', 0, 0, 0, 23];
    want.extend_from_slice(b"SFATAL\0C28000\0Mno\0\0");
    assert_eq!(out, want);

    let mut out = Vec::new();
    encode::negotiate_protocol_version(&mut out, 0, &[]);
    assert_eq!(out, [b'v', 0, 0, 0, 12, 0, 0, 0, 0, 0, 0, 0, 0]);
}

#[test]
fn client_messages_are_written_as_the_protocol_frames_them() {
    let mut out = Vec::new();
    encode::startup_message(&mut out, &[("user", "u")]);
    let mut want = vec![0, 0, 0, 16, 0, 3, 0, 0];
    want.extend_from_slice(b"user\0u\0\0");
    assert_eq!(out, want);

    let mut out = Vec::new();
    encode::ssl_request(&mut out);
    assert_eq!(out, [0, 0, 0, 8, 4, 210, 22, 47]);

    let mut out = Vec::new();
    encode::cancel_request(&mut out, 4242, 7);
    assert_eq!(out, [0, 0, 0, 16, 4, 210, 22, 46, 0, 0, 16, 146, 0, 0, 0, 7]);

    let mut out = Vec::new();
    encode::password_message(&mut out, "pw");
    assert_eq!(out, [b'p', 0, 0, 0, 7, b'p', b'w', 0]);

    let mut out = Vec::new();
    encode::sasl_initial_response(&mut out, "M", "xy");
    assert_eq!(out, [b'p', 0, 0, 0, 12, b'M', 0, 0, 0, 0, 2, b'x', b'y']);

    let mut out = Vec::new();
    encode::sasl_response(&mut out, "xy");
    assert_eq!(out, [b'p', 0, 0, 0, 6, b'x', b'y']);

    let mut out = Vec::new();
    encode::query(&mut out, "SELECT 1");
    let mut want = vec![b'Q', 0, 0, 0, 13];
    want.extend_from_slice(b"SELECT 1\0");
    assert_eq!(out, want);

    let mut out = Vec::new();
    encode::terminate(&mut out);
    assert_eq!(out, [b'X', 0, 0, 0, 4]);
}

#[test]
fn a_cancel_key_comes_back_as_the_connection_it_was_issued_for() {
    for (node, secret) in [(0_u16, 0_u64), (1, 9), (7, 99), (u16::MAX, 0xffff_ffff_ffff), (300, 0x1234_5678_9abc)] {
        let conn = ConnId::new(NodeId::new(node), secret);
        let (hi, lo) = encode::conn_key(conn);
        assert_eq!(encode::conn_of_key(hi, lo), conn, "{node} {secret}");
    }
    let (hi, lo) = encode::conn_key(ConnId::new(NodeId::new(3), 0x0001_0000_0002));
    assert_eq!((hi, lo), (0x0003_0001, 2));
}

#[test]
fn a_startup_packet_is_read_back_with_its_parameters() {
    let mut out = Vec::new();
    encode::startup_message(&mut out, &[("user", "acme_app"), ("database", "acme")]);
    let Ok(Startup::StartupMessage { version, params }) = decode_startup(&out[4..]) else {
        panic!("a startup packet did not decode");
    };
    assert_eq!(version, 196_608);
    assert_eq!(params.len(), 2);
    assert_eq!((params[0].name, params[0].value), ("user", "acme_app"));
    assert_eq!((params[1].name, params[1].value), ("database", "acme"));
}

#[test]
fn the_requests_are_told_apart_by_their_codes() {
    let mut out = Vec::new();
    encode::ssl_request(&mut out);
    assert!(matches!(decode_startup(&out[4..]), Ok(Startup::SslRequest)));

    assert!(matches!(decode_startup(&[4, 210, 22, 48]), Ok(Startup::GssEncRequest)));

    let conn = ConnId::new(NodeId::new(7), 99);
    let (hi, lo) = encode::conn_key(conn);
    let mut out = Vec::new();
    encode::cancel_request(&mut out, hi as i32, lo as i32);
    let Ok(Startup::CancelRequest { conn: read }) = decode_startup(&out[4..]) else {
        panic!("a cancel request did not decode");
    };
    assert_eq!(read, conn);
}

#[test]
fn a_malformed_first_message_is_refused_rather_than_guessed_at() {
    assert_eq!(decode_startup(&[0, 3]).err(), Some(StartupError::TooShort));
    assert_eq!(decode_startup(&[4, 210, 22, 47, 0]).err(), Some(StartupError::WrongLength));
    assert_eq!(decode_startup(&[4, 210, 22, 46, 0, 0]).err(), Some(StartupError::WrongLength));
    for body in [
        &[0, 3, 0, 0][..],
        &[0, 3, 0, 0, b'u', 0][..],
        &[0, 3, 0, 0, b'u', 0, b'v', 0][..],
        &[0, 3, 0, 0, b'u', 0, b'v', 0, 0, 0][..],
        &[0, 3, 0, 0, 0xff, 0, b'v', 0, 0][..],
    ] {
        assert_eq!(
            decode_startup(body).err(),
            Some(StartupError::MalformedParameters),
            "{body:?}"
        );
    }
    assert!(decode_startup(&[0, 3, 0, 0, 0]).is_ok());
}

#[test]
fn client_frames_decode_to_their_messages() {
    assert!(matches!(
        decode_frontend(Tag(Tag::QUERY), b"SELECT 1\0"),
        Some(FrontendMessage::Query { sql: "SELECT 1" })
    ));
    assert!(matches!(
        decode_frontend(Tag(Tag::PARSE), b"s1\0SELECT $1\0\0\0"),
        Some(FrontendMessage::Parse { statement: "s1", sql: "SELECT $1" })
    ));
    assert!(matches!(
        decode_frontend(Tag(Tag::BIND), b"p\0s1\0\0\0\0\0\0\0"),
        Some(FrontendMessage::Bind { portal: "p", statement: "s1" })
    ));
    assert!(matches!(
        decode_frontend(Tag(Tag::DESCRIBE), b"Pp\0"),
        Some(FrontendMessage::Describe { target: Target::Portal, name: "p" })
    ));
    assert!(matches!(
        decode_frontend(Tag(Tag::CLOSE), b"Ss1\0"),
        Some(FrontendMessage::Close { target: Target::Statement, name: "s1" })
    ));
    assert!(matches!(
        decode_frontend(Tag(Tag::EXECUTE), b"\0\0\0\0\x0a"),
        Some(FrontendMessage::Execute { portal: "", max_rows: 10 })
    ));
    assert!(matches!(decode_frontend(Tag(Tag::SYNC), b""), Some(FrontendMessage::Sync)));
    assert!(matches!(decode_frontend(Tag(Tag::FLUSH), b""), Some(FrontendMessage::Flush)));
    assert!(matches!(decode_frontend(Tag(Tag::TERMINATE), b""), Some(FrontendMessage::Terminate)));
    assert!(matches!(
        decode_frontend(Tag(Tag::COPY_DATA), b"abc"),
        Some(FrontendMessage::CopyData(b"abc"))
    ));
}

#[test]
fn a_malformed_client_frame_decodes_to_nothing() {
    assert!(decode_frontend(Tag(Tag::QUERY), b"SELECT 1").is_none());
    assert!(decode_frontend(Tag(Tag::PARSE), b"s1\0").is_none());
    assert!(decode_frontend(Tag(Tag::DESCRIBE), b"Xp\0").is_none());
    assert!(decode_frontend(Tag(Tag::DESCRIBE), b"").is_none());
    assert!(decode_frontend(Tag(Tag::EXECUTE), b"\0\0\0").is_none());
    assert!(decode_frontend(Tag(Tag::QUERY), &[0xff, 0]).is_none());
    assert!(decode_frontend(Tag(b'!'), b"").is_none());
}

#[test]
fn a_protocol_extension_is_named_back_to_the_client() {
    let mut out = Vec::new();
    encode::startup_message(
        &mut out,
        &[("user", "acme_app"), ("_pq_.compression", "on"), ("database", "acme"), ("_pq_.x", "1")],
    );
    let message = decode_startup(&out[4..]).unwrap();
    assert_eq!(
        pgprox::startup::unrecognised_options(&message),
        vec!["_pq_.compression", "_pq_.x"]
    );
    assert!(pgprox::startup::unrecognised_options(&Startup::SslRequest).is_empty());
}

#[test]
fn each_refusal_has_its_sqlstate() {
    assert_eq!(ClientError::ProtocolViolation("x").code(), "08P01");
    assert_eq!(ClientError::TlsRequired.code(), "28000");
    assert_eq!(ClientError::AuthRefused(AuthRejection::TokenExpired).code(), "28P01");
    assert_eq!(ClientError::SidecarUnavailable.code(), "57P03");
    assert_eq!(ClientError::TlsRequired.client_message(), "this listener requires TLS");
}

#[test]
fn a_query_as_written_reads_back_as_its_sql() {
    for sql in ["", "SELECT 1", "SELECT 'é' FROM t; DELETE FROM t"] {
        let mut out = Vec::new();
        encode::query(&mut out, sql);
        assert_eq!(out[0], Tag::QUERY);
        match decode_frontend(Tag(out[0]), &out[5..]) {
            Some(FrontendMessage::Query { sql: read }) => assert_eq!(read, sql),
            _ => panic!("{sql:?} did not read back as a query"),
        }
    }
}
