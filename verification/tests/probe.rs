use pgprox::connect::ServerId;
use pgprox::probe::{AnswerReader, ParameterCache, Reading, parse_lsn, text_row};
use pgprox::proto::Tag;
use pgprox::route::Lsn;

fn server() -> ServerId {
    ServerId::new("db-1", 5432)
}

fn data_row(values: &[Option<&str>]) -> Vec<u8> {
    let mut body = i16::try_from(values.len()).unwrap().to_be_bytes().to_vec();
    for value in values {
        match value {
            None => body.extend_from_slice(&(-1_i32).to_be_bytes()),
            Some(text) => {
                body.extend_from_slice(&i32::try_from(text.len()).unwrap().to_be_bytes());
                body.extend_from_slice(text.as_bytes());
            }
        }
    }
    let mut out = vec![Tag::DATA_ROW];
    out.extend_from_slice(&u32::try_from(body.len() + 4).unwrap().to_be_bytes());
    out.extend_from_slice(&body);
    out
}

/// The body of an `ErrorResponse` a replica still starting up sends.
const STARTING_UP: &[u8] = b"SERROR\0C57P03\0Mthe database system is starting up\0\0";

/// Feeds a replica's answer, frame by frame, the way a driver reads it.
fn replica_answering(frames: &[(u8, Vec<u8>)]) -> Result<pgprox::replica::Probe, String> {
    let mut reader = AnswerReader::new();
    for (tag, body) in frames {
        match reader.on_replica_frame(Tag(*tag), body) {
            Reading::Continue => {}
            Reading::Finished => return reader.replica_probe(),
            Reading::Failed(why) => return Err(why),
        }
    }
    Err("the answer never finished".to_owned())
}

/// The same for the primary's answer to the position query.
fn primary_answering(frames: &[(u8, Vec<u8>)]) -> Result<Lsn, String> {
    let mut reader = AnswerReader::new();
    for (tag, body) in frames {
        match reader.on_primary_frame(Tag(*tag), body) {
            Reading::Continue => {}
            Reading::Finished => return reader.primary_lsn(),
            Reading::Failed(why) => return Err(why),
        }
    }
    Err("the answer never finished".to_owned())
}

fn row(values: &[Option<&str>]) -> (u8, Vec<u8>) {
    (Tag::DATA_ROW, data_row(values)[5..].to_vec())
}

fn ready() -> (u8, Vec<u8>) {
    (Tag::READY_FOR_QUERY, vec![b'I'])
}

#[test]
fn recording_the_same_database_twice_replaces_rather_than_grows() {
    // A server can be upgraded under a running proxy, and the newer answer
    // is the true one.
    let mut cache = ParameterCache::new();
    cache.record(
        &server(),
        "acme",
        &[("server_version".into(), "17.2".into())],
    );
    cache.record(
        &server(),
        "acme",
        &[("server_version".into(), "18.0".into())],
    );

    let parameters = cache.get(&server(), "acme").unwrap();
    assert_eq!(parameters.len(), 1);
    assert_eq!(parameters[0].1, "18.0");
    assert_eq!(cache.len(), 1);
}

#[test]
fn the_proxys_own_application_name_is_not_recorded_for_the_client() {
    let mut cache = ParameterCache::new();
    cache.record(
        &server(),
        "acme",
        &[
            ("server_version".into(), "17.2".into()),
            ("application_name".into(), "pgprox".into()),
            ("client_encoding".into(), "UTF8".into()),
        ],
    );
    let parameters = cache.get(&server(), "acme").unwrap();
    assert_eq!(
        parameters,
        vec![
            ("server_version".to_owned(), "17.2".to_owned()),
            ("client_encoding".to_owned(), "UTF8".to_owned()),
        ]
    );
}

#[test]
fn a_different_database_on_the_same_server_is_kept_separately() {
    let mut cache = ParameterCache::new();
    assert!(cache.is_empty());
    assert_eq!(cache.get(&server(), "acme"), None);
    cache.record(&server(), "acme", &[("server_version".into(), "17.2".into())]);
    cache.record(&server(), "other", &[("server_version".into(), "16.4".into())]);
    cache.record(
        &ServerId::new("db-2", 5432),
        "acme",
        &[("server_version".into(), "15.0".into())],
    );
    assert_eq!(cache.len(), 3);
    assert!(!cache.is_empty());
    assert_eq!(cache.get(&server(), "other").unwrap()[0].1, "16.4");
    assert_eq!(cache.get(&ServerId::new("db-2", 5432), "acme").unwrap()[0].1, "15.0");
    assert_eq!(cache.get(&ServerId::new("db-1", 5433), "acme"), None);
}

#[test]
fn the_probe_counter_counts() {
    let mut cache = ParameterCache::new();
    assert_eq!(cache.probes(), 0);
    cache.note_probe();
    cache.note_probe();
    assert_eq!(cache.probes(), 2);
}

#[test]
fn a_null_field_is_not_an_empty_one() {
    // The wire encodes NULL as a length of -1. Reading it as an empty string
    // would make a NULL replay position parse as LSN zero.
    let row = data_row(&[None, Some("t")]);
    let fields = text_row(&row[5..]).unwrap();

    assert_eq!(fields, vec![None, Some("t".to_owned())]);
}

#[test]
fn an_empty_field_is_not_a_null_one() {
    let row = data_row(&[Some(""), Some("t")]);
    let fields = text_row(&row[5..]).unwrap();

    assert_eq!(fields, vec![Some(String::new()), Some("t".to_owned())]);
}

#[test]
fn a_truncated_row_is_rejected_rather_than_panicking() {
    // These bytes come from the network like any others.
    let row = data_row(&[Some("16/B374D848"), Some("t")]);
    for cut in 5..row.len() {
        assert!(
            text_row(&row[5..cut]).is_none(),
            "a row truncated at {cut} was read as complete"
        );
    }
}

#[test]
fn a_row_with_no_fields_reads_as_no_fields() {
    assert_eq!(text_row(&[0, 0]), Some(Vec::new()));
}

#[test]
fn a_count_with_nothing_behind_it_is_refused_rather_than_reserved() {
    let mut body = i16::MAX.to_be_bytes().to_vec();
    assert_eq!(text_row(&body), None, "a count with no columns was accepted");

    // One column short of what it claims.
    body.extend_from_slice(&4_i32.to_be_bytes());
    body.extend_from_slice(b"16/B");
    assert_eq!(text_row(&body), None);

    // And an honest row of the shape a probe actually gets still reads.
    let row = data_row(&[Some("16/B374D848"), Some("t")]);
    assert_eq!(
        text_row(&row[5..]),
        Some(vec![Some("16/B374D848".to_owned()), Some("t".to_owned())])
    );
}

#[test]
fn a_negative_count_reads_as_no_fields() {
    assert_eq!(text_row(&(-1_i16).to_be_bytes()), Some(Vec::new()));
}

#[test]
fn a_non_utf8_field_is_refused() {
    let mut body = 1_i16.to_be_bytes().to_vec();
    body.extend_from_slice(&2_i32.to_be_bytes());
    body.extend_from_slice(&[0xff, 0xfe]);
    assert_eq!(text_row(&body), None);
}

#[test]
fn lsns_read_as_postgres_prints_them() {
    assert_eq!(parse_lsn("16/B374D848"), Some(Lsn(0x16_B374_D848)));
    assert_eq!(parse_lsn("0/0"), Some(Lsn(0)));
    assert_eq!(parse_lsn("0/10"), Some(Lsn(0x10)));
    assert_eq!(parse_lsn("FFFFFFFF/FFFFFFFF"), Some(Lsn(u64::MAX)));
    assert_eq!(parse_lsn("ab/cd"), Some(Lsn(0xab_0000_00cd)));
    for bad in ["", "/", "16", "16/", "/1", "1/2/3", "not an lsn", "123456789/0", "0/123456789", "g/0", " 0/0"] {
        assert_eq!(parse_lsn(bad), None, "{bad:?}");
    }
}

#[test]
fn a_replica_reports_its_replay_position() {
    let probe = replica_answering(&[row(&[Some("16/B374D848"), Some("t")]), ready()]).unwrap();
    assert_eq!(probe.replayed, parse_lsn("16/B374D848").unwrap());
    assert!(probe.in_recovery);
}

#[test]
fn a_promoted_replica_reports_that_it_is_no_longer_one() {
    // A promoted replica keeps answering and its replay position stops
    // moving, which is a stale read that never recovers.
    let probe = replica_answering(&[row(&[None, Some("f")]), ready()]).unwrap();
    assert!(!probe.in_recovery);
    assert_eq!(probe.replayed, Lsn(0));
}

#[test]
fn a_replica_that_refuses_the_query_is_a_failure_rather_than_a_reading() {
    let err = replica_answering(&[(Tag::ERROR_RESPONSE, STARTING_UP.to_vec()), ready()]).unwrap_err();
    assert!(err.contains("57P03"), "{err}");
    assert_eq!(err, "the database system is starting up (57P03)");
}

#[test]
fn a_replica_answer_with_no_row_is_an_error() {
    let err = replica_answering(&[ready()]).unwrap_err();
    assert_eq!(err, "the replica answered with no rows");
}

#[test]
fn a_replica_position_that_does_not_parse_is_an_error() {
    let err = replica_answering(&[row(&[Some("soon"), Some("t")]), ready()]).unwrap_err();
    assert_eq!(err, "the replica reported an unparseable LSN: soon");
}

#[test]
fn frames_around_the_row_are_read_past() {
    let probe = replica_answering(&[
        (Tag::ROW_DESCRIPTION, b"anything".to_vec()),
        row(&[Some("0/10"), Some("t")]),
        (Tag::COMMAND_COMPLETE, b"SELECT 1\0".to_vec()),
        ready(),
    ])
    .unwrap();
    assert_eq!(probe.replayed, Lsn(0x10));
}

#[test]
fn the_primary_s_position_is_read_back() {
    assert_eq!(
        primary_answering(&[row(&[Some("16/B374D848")]), ready()]),
        Ok(parse_lsn("16/B374D848").unwrap())
    );
}

#[test]
fn a_null_position_is_unknown_rather_than_zero() {
    // A watermark of zero admits every replica.
    assert!(primary_answering(&[row(&[None]), ready()]).is_err());
}

#[test]
fn a_position_that_does_not_parse_is_an_error() {
    let err = primary_answering(&[row(&[Some("not an lsn")]), ready()]).unwrap_err();
    assert!(err.contains("not an lsn"), "{err}");
}

#[test]
fn a_refused_position_query_is_an_error_rather_than_a_hang() {
    let fields = b"SERROR\0C42883\0Mfunction does not exist\0\0";
    assert!(primary_answering(&[(Tag::ERROR_RESPONSE, fields.to_vec()), ready()]).is_err());
}

#[test]
fn an_answer_with_no_row_is_an_error() {
    assert!(primary_answering(&[ready()]).is_err());
}

#[test]
fn the_last_row_before_the_end_is_the_answer_and_nothing_after_it_is_read() {
    let probe = replica_answering(&[
        row(&[Some("0/1"), Some("f")]),
        (b'N', b"SNOTICE\0Mhello\0\0".to_vec()),
        row(&[Some("16/B374D848"), Some("t")]),
        ready(),
        (Tag::ERROR_RESPONSE, STARTING_UP.to_vec()),
    ])
    .unwrap();
    assert_eq!(probe.replayed, parse_lsn("16/B374D848").unwrap());
    assert!(probe.in_recovery);
}

#[test]
fn an_unreadable_row_ends_the_answer() {
    let err = replica_answering(&[(Tag::DATA_ROW, vec![0, 1]), ready()]).unwrap_err();
    assert_eq!(err, "the replica sent an unreadable row");
}
