use pgprox::encode;
use pgprox::frontend::decode_frontend;
use pgprox::proto::Tag;
use pgprox::sequence::{Facts, Frames, Held, HeldSequence, MAX_HELD_BYTES, Unservable};

/// `ParseComplete`, as a client is owed it.
const PARSE_COMPLETE: [u8; 5] = [b'1', 0, 0, 0, 4];

/// `BindComplete`, as a client is owed it.
const BIND_COMPLETE: [u8; 5] = [b'2', 0, 0, 0, 4];

/// The frame a client would send, split into what `feed` takes.
fn framed(encoded: &[u8]) -> (Tag, Vec<u8>) {
    (Tag(encoded[0]), encoded[5..].to_vec())
}

fn cstr(out: &mut Vec<u8>, text: &str) {
    out.extend_from_slice(text.as_bytes());
    out.push(0);
}

fn parse(statement: &str, sql: &str) -> (Tag, Vec<u8>) {
    let mut body = Vec::new();
    cstr(&mut body, statement);
    cstr(&mut body, sql);
    body.extend_from_slice(&0_i16.to_be_bytes());
    (Tag(Tag::PARSE), body)
}

fn bound(portal: &str, statement: &str, values: &[Option<&[u8]>]) -> (Tag, Vec<u8>) {
    let mut body = Vec::new();
    cstr(&mut body, portal);
    cstr(&mut body, statement);
    body.extend_from_slice(&0_i16.to_be_bytes());
    body.extend_from_slice(&i16::try_from(values.len()).unwrap().to_be_bytes());
    for value in values {
        match value {
            None => body.extend_from_slice(&(-1_i32).to_be_bytes()),
            Some(bytes) => {
                body.extend_from_slice(&i32::try_from(bytes.len()).unwrap().to_be_bytes());
                body.extend_from_slice(bytes);
            }
        }
    }
    body.extend_from_slice(&0_i16.to_be_bytes());
    (Tag(Tag::BIND), body)
}

fn bind(portal: &str, statement: &str) -> (Tag, Vec<u8>) {
    bound(portal, statement, &[])
}

/// Built by hand, with the row limit that is one of the things this machine
/// refuses on.
fn execute(portal: &str, max_rows: i32) -> (Tag, Vec<u8>) {
    let mut body = portal.as_bytes().to_vec();
    body.push(0);
    body.extend_from_slice(&max_rows.to_be_bytes());
    (Tag(Tag::EXECUTE), body)
}

/// Feeds one frame in, decoding it the way the relay does.
fn feed(held: &mut HeldSequence, frame: &(Tag, Vec<u8>), facts: Facts<'_>) -> Held {
    let decoded = decode_frontend(frame.0, &frame.1).unwrap();
    held.feed(&decoded, frame.0, &frame.1, facts)
}

/// The tags of the held frames, in the order a miss replays them.
fn replay_tags(held: &HeldSequence) -> Vec<Tag> {
    let mut walk = held.replay();
    let mut tags = Vec::new();
    while let Some((tag, _)) = walk.next() {
        tags.push(tag);
    }
    tags
}

/// The facts a caller offers for a statement it is happy to cache.
fn ok(sql: &str) -> Facts<'_> {
    Facts {
        sql: Some(sql),
        may_begin: true,
    }
}

/// The facts for a frame that carries no statement of its own.
const NONE: Facts<'static> = Facts {
    sql: None,
    may_begin: true,
};

/// `S` for a statement and `P` for a portal, per the protocol.
fn describe(target: u8, name: &str) -> (Tag, Vec<u8>) {
    let mut body = vec![target];
    body.extend_from_slice(name.as_bytes());
    body.push(0);
    (Tag(Tag::DESCRIBE), body)
}

fn describe_portal(name: &str) -> (Tag, Vec<u8>) {
    describe(b'P', name)
}

#[test]
fn a_whole_sequence_is_held_and_completes_at_the_sync() {
    let mut held = HeldSequence::new();
    let sql = "SELECT $1";

    assert_eq!(
        feed(&mut held, &parse("s1", sql), ok(sql)),
        Held::Withheld,
        "the parse went upstream"
    );
    assert_eq!(
        feed(&mut held, &bound("", "s1", &[Some(b"7")]), ok(sql)),
        Held::Withheld
    );
    assert_eq!(feed(&mut held, &describe_portal(""), NONE), Held::Withheld);
    assert_eq!(feed(&mut held, &execute("", 0), NONE), Held::Withheld);

    let sync = (Tag(Tag::SYNC), Vec::new());
    assert_eq!(feed(&mut held, &sync, NONE), Held::Complete);

    assert_eq!(held.sql(), Some(sql));
    assert_eq!(held.params(), &[0, 0, 0, 1, b'7']);
    assert!(held.wants_row_description());

    // Four frames held, and the `Sync` is not one of them: a miss sends it
    // through the caller's usual path after the replay.
    let tags: Vec<Tag> = replay_tags(&held);
    assert_eq!(
        tags,
        vec![Tag(Tag::PARSE), Tag(Tag::BIND), Tag(Tag::DESCRIBE), Tag(Tag::EXECUTE)]
    );
}

#[test]
fn two_bindings_of_one_statement_are_two_keys() {
    // The parameters are part of the key: otherwise `SELECT $1` with 1 and
    // with 2 would share an entry.
    let sql = "SELECT $1";
    let mut first = HeldSequence::new();
    feed(&mut first, &bound("", "s1", &[Some(b"1")]), ok(sql));
    let mut second = HeldSequence::new();
    feed(&mut second, &bound("", "s1", &[Some(b"2")]), ok(sql));

    assert_ne!(first.params(), second.params());
}

#[test]
fn a_null_and_an_empty_binding_are_two_keys() {
    let sql = "SELECT $1";
    let mut null = HeldSequence::new();
    feed(&mut null, &bound("", "s1", &[None]), ok(sql));
    let mut empty = HeldSequence::new();
    feed(&mut empty, &bound("", "s1", &[Some(b"")]), ok(sql));

    assert_ne!(null.params(), empty.params());
}

#[test]
fn a_bind_alone_opens_a_sequence() {
    // What every driver with a statement cache sends: the `Parse` was a
    // round trip of its own, possibly against another connection.
    let mut held = HeldSequence::new();
    assert_eq!(
        feed(&mut held, &bind("", "s1"), ok("SELECT 1")),
        Held::Withheld
    );
    assert_eq!(feed(&mut held, &execute("", 0), NONE), Held::Withheld);
    assert_eq!(
        feed(&mut held, &(Tag(Tag::SYNC), Vec::new()), NONE),
        Held::Complete
    );
    assert!(
        !held.wants_row_description(),
        "a client that sent no describe is owed one"
    );
}

#[test]
fn nothing_is_held_from_a_session_the_caller_will_not_have_it_from() {
    // The entry condition, which is entirely the caller's: an opted-in
    // tenant, a cacheable statement, no connection held, no transaction
    // open.
    let mut held = HeldSequence::new();
    let facts = Facts {
        sql: Some("SELECT 1"),
        may_begin: false,
    };
    assert_eq!(feed(&mut held, &parse("s1", "SELECT 1"), facts), Held::Send);
    assert!(held.is_empty());
}

#[test]
fn a_frame_with_no_statement_behind_it_opens_nothing() {
    // A `Bind` for something this session never parsed reaches the caller
    // with no SQL to offer, and a sequence keyed on nothing would be keyed
    // on the last statement to pass through.
    let mut held = HeldSequence::new();
    assert_eq!(feed(&mut held, &bind("", "s1"), NONE), Held::Send);
    assert!(held.is_empty());
}

#[test]
fn a_flush_gives_the_sequence_up() {
    // The client is waiting for an answer now, which is the whole reason
    // the message exists. Holding on is the deadlock M8 found.
    let mut held = HeldSequence::new();
    feed(&mut held, &bind("", "s1"), ok("SELECT 1"));
    feed(&mut held, &execute("", 0), NONE);

    assert_eq!(feed(&mut held, &(Tag(Tag::FLUSH), Vec::new()), NONE), Held::Send);
    assert_eq!(replay_tags(&held).len(), 2, "the held frames were dropped");
}

#[test]
fn a_row_limit_gives_the_sequence_up() {
    // An `Execute` with a limit is answered with `PortalSuspended` and
    // leaves the portal open, which is not an answer to store or to serve.
    let mut held = HeldSequence::new();
    feed(&mut held, &bind("", "s1"), ok("SELECT 1"));

    assert_eq!(feed(&mut held, &execute("", 10), NONE), Held::Send);
}

#[test]
fn a_statement_describe_gives_the_sequence_up() {
    // Its answer carries a `ParameterDescription`, which the stored payload
    // does not hold. No mainstream driver sends one in the same sequence as
    // an `Execute`.
    let mut held = HeldSequence::new();
    feed(&mut held, &bind("", "s1"), ok("SELECT 1"));

    assert_eq!(feed(&mut held, &describe(b'S', "s1"), NONE), Held::Send);
}

#[test]
fn a_describe_of_another_portal_gives_the_sequence_up() {
    let mut held = HeldSequence::new();
    feed(&mut held, &bind("p1", "s1"), ok("SELECT 1"));

    assert_eq!(feed(&mut held, &describe_portal("p2"), NONE), Held::Send);
}

#[test]
fn an_execute_of_another_portal_gives_the_sequence_up() {
    // A portal bound in an earlier round trip, which this sequence holds
    // neither the SQL nor the parameters of.
    let mut held = HeldSequence::new();
    feed(&mut held, &bind("p1", "s1"), ok("SELECT 1"));

    assert_eq!(feed(&mut held, &execute("p2", 0), NONE), Held::Send);
}

#[test]
fn a_second_bind_or_execute_gives_the_sequence_up() {
    // A pipeline of two statements. Its answer is two result sets, and this
    // holds one key.
    let mut twice_bound = HeldSequence::new();
    feed(&mut twice_bound, &bind("", "s1"), ok("SELECT 1"));
    assert_eq!(
        feed(&mut twice_bound, &bind("", "s1"), ok("SELECT 1")),
        Held::Send
    );

    let mut twice_run = HeldSequence::new();
    feed(&mut twice_run, &bind("", "s1"), ok("SELECT 1"));
    feed(&mut twice_run, &execute("", 0), NONE);
    assert_eq!(feed(&mut twice_run, &execute("", 0), NONE), Held::Send);
}

#[test]
fn a_parse_after_a_bind_gives_the_sequence_up() {
    let mut held = HeldSequence::new();
    feed(&mut held, &bind("", "s1"), ok("SELECT 1"));

    assert_eq!(
        feed(&mut held, &parse("s2", "SELECT 2"), ok("SELECT 2")),
        Held::Send
    );
}

#[test]
fn a_bind_of_a_different_statement_gives_the_sequence_up() {
    // `Parse s1` then `Bind s2` is two questions, and this holds one key.
    let mut held = HeldSequence::new();
    feed(&mut held, &parse("s1", "SELECT 1"), ok("SELECT 1"));

    assert_eq!(feed(&mut held, &bind("", "s2"), ok("SELECT 2")), Held::Send);
}

#[test]
fn a_describe_before_a_bind_gives_the_sequence_up() {
    let mut held = HeldSequence::new();
    feed(&mut held, &parse("s1", "SELECT 1"), ok("SELECT 1"));

    assert_eq!(feed(&mut held, &describe_portal(""), NONE), Held::Send);
}

#[test]
fn a_describe_after_the_execute_gives_the_sequence_up() {
    // Legal, and it means the client wants the description of a portal
    // that has already run. The stored payload's description belongs
    // before the rows.
    let mut held = HeldSequence::new();
    feed(&mut held, &bind("", "s1"), ok("SELECT 1"));
    feed(&mut held, &execute("", 0), NONE);

    assert_eq!(feed(&mut held, &describe_portal(""), NONE), Held::Send);
}

#[test]
fn a_sync_with_nothing_run_gives_the_sequence_up() {
    // The prepare round trip every driver with a statement cache makes:
    // `Parse`, then a `Sync` to hear that it worked. There is no answer to
    // serve, so the `Parse` goes upstream where it was always going.
    let mut held = HeldSequence::new();
    feed(&mut held, &parse("s1", "SELECT 1"), ok("SELECT 1"));

    assert_eq!(feed(&mut held, &(Tag(Tag::SYNC), Vec::new()), NONE), Held::Send);
    assert_eq!(replay_tags(&held).len(), 1);
}

#[test]
fn a_simple_query_mid_sequence_gives_it_up() {
    // Legal from a client that changed its mind, and nothing this machine
    // can reason about.
    let mut held = HeldSequence::new();
    feed(&mut held, &bind("", "s1"), ok("SELECT 1"));

    let mut out = Vec::new();
    encode::query(&mut out, "SELECT 2");
    assert_eq!(feed(&mut held, &framed(&out), ok("SELECT 2")), Held::Send);
}

#[test]
fn a_terminate_mid_sequence_gives_it_up() {
    let mut held = HeldSequence::new();
    feed(&mut held, &bind("", "s1"), ok("SELECT 1"));

    assert_eq!(
        feed(&mut held, &(Tag(Tag::TERMINATE), Vec::new()), NONE),
        Held::Send
    );
}

#[test]
fn a_sequence_too_large_to_hold_goes_upstream() {
    // The bound on what one session will hold. The bytes were the client's
    // own, so this is not an amplification, but a session is a
    // per-connection cost in a process designed around 100k of them.
    let mut held = HeldSequence::new();
    let big = vec![b'x'; MAX_HELD_BYTES];
    assert_eq!(
        feed(&mut held, &bound("", "s1", &[Some(&big)]), ok("SELECT $1")),
        Held::Send
    );
    assert!(held.is_empty());
}

#[test]
fn clearing_forgets_the_portal_and_keeps_the_buffer() {
    // Forgetting is what happens at the end of every sequence rather than
    // a rule about which portal names outlive which message. A map that
    // only grew would be a leak for the length of a session, which here is
    // measured in days.
    let mut held = HeldSequence::new();
    feed(&mut held, &parse("s1", "SELECT $1"), ok("SELECT $1"));
    feed(
        &mut held,
        &bound("p1", "s1", &[Some(b"1")]),
        ok("SELECT $1"),
    );
    feed(&mut held, &describe_portal("p1"), NONE);
    feed(&mut held, &execute("p1", 0), NONE);

    held.clear();

    assert!(held.is_empty());
    assert_eq!(held.sql(), None);
    assert!(held.params().is_empty());
    assert!(!held.wants_row_description());
    assert_eq!(replay_tags(&held).len(), 0);

    // And the same machine takes the next sequence, which is why it is
    // cleared rather than dropped.
    assert_eq!(
        feed(&mut held, &bind("", "s1"), ok("SELECT 1")),
        Held::Withheld
    );
}

/// One frame, built the way a payload's frames are.
fn backend(tag: Tag, body: &[u8]) -> Vec<u8> {
    let mut out = vec![tag.get()];
    out.extend_from_slice(&u32::try_from(body.len() + 4).unwrap().to_be_bytes());
    out.extend_from_slice(body);
    out
}

/// A stored payload: a description, one row, and a completion.
fn payload(with_description: bool) -> Vec<u8> {
    let mut out = Vec::new();
    if with_description {
        out.extend_from_slice(&backend(Tag(Tag::ROW_DESCRIPTION), b"desc"));
    }
    out.extend_from_slice(&backend(Tag(Tag::DATA_ROW), b"row"));
    out.extend_from_slice(&backend(Tag(Tag::COMMAND_COMPLETE), b"SELECT 1\0"));
    out
}

/// A sequence the whole way through, optionally asking for a description.
fn ran(describing: bool) -> HeldSequence {
    let mut held = HeldSequence::new();
    let sql = "SELECT $1";
    feed(&mut held, &parse("s1", sql), ok(sql));
    feed(&mut held, &bound("", "s1", &[Some(b"7")]), ok(sql));
    if describing {
        feed(&mut held, &describe_portal(""), NONE);
    }
    feed(&mut held, &execute("", 0), NONE);
    held
}

#[test]
fn a_hit_is_assembled_from_the_frames_the_client_sent() {
    // Byte for byte, because this is the whole of what the client sees and
    // an ordering mistake here is a driver that desynchronises rather than
    // one that reports an error.
    let mut out = Vec::new();
    ran(true).assemble(&payload(true), &mut out).unwrap();

    let mut want = Vec::new();
    want.extend_from_slice(&PARSE_COMPLETE);
    want.extend_from_slice(&BIND_COMPLETE);
    want.extend_from_slice(&backend(Tag(Tag::ROW_DESCRIPTION), b"desc"));
    want.extend_from_slice(&backend(Tag(Tag::DATA_ROW), b"row"));
    want.extend_from_slice(&backend(Tag(Tag::COMMAND_COMPLETE), b"SELECT 1\0"));
    want.extend_from_slice(&[b'Z', 0, 0, 0, 5, b'I']);

    assert_eq!(out, want);
}

#[test]
fn a_client_that_asked_for_no_description_is_not_sent_one() {
    // The reason the payload keeps the description apart from the rows. One
    // entry answers a driver that describes its portal and one that does
    // not, and handing a `RowDescription` to the second is a frame it has
    // no state to receive.
    let mut out = Vec::new();
    let mut held = HeldSequence::new();
    feed(&mut held, &bind("", "s1"), ok("SELECT 1"));
    feed(&mut held, &execute("", 0), NONE);
    held.assemble(&payload(true), &mut out).unwrap();

    let mut want = Vec::new();
    want.extend_from_slice(&BIND_COMPLETE);
    want.extend_from_slice(&backend(Tag(Tag::DATA_ROW), b"row"));
    want.extend_from_slice(&backend(Tag(Tag::COMMAND_COMPLETE), b"SELECT 1\0"));
    want.extend_from_slice(&[b'Z', 0, 0, 0, 5, b'I']);

    assert_eq!(out, want);
}

#[test]
fn a_payload_with_no_description_cannot_answer_a_client_that_asked() {
    // Reachable across an upgrade rather than in steady state, and a miss
    // rather than an assembled answer with a frame missing from the middle.
    let mut out = Vec::new();
    assert_eq!(
        ran(true).assemble(&payload(false), &mut out),
        Err(Unservable::NoRowDescription)
    );
    assert!(
        out.is_empty(),
        "a refusal left half an answer in the buffer"
    );
}

#[test]
fn a_sequence_that_ran_nothing_has_no_answer_to_assemble() {
    let mut out = Vec::new();
    let mut held = HeldSequence::new();
    feed(&mut held, &bind("", "s1"), ok("SELECT 1"));

    assert_eq!(
        held.assemble(&payload(true), &mut out),
        Err(Unservable::NothingRan)
    );
}

#[test]
fn a_payload_that_is_not_an_answer_is_refused_rather_than_replayed() {
    let held = ran(false);
    let mut out = Vec::new();

    for (case, bytes) in [
        ("empty", Vec::new()),
        ("no completion", backend(Tag(Tag::DATA_ROW), b"row")),
        ("a short header", vec![b'D', 0, 0]),
        ("a length under its own header", vec![b'D', 0, 0, 0, 3]),
        ("a length past the end", vec![b'D', 0, 0, 0, 99]),
        ("a frame that is not part of an answer", {
            let mut out = backend(Tag(Tag::PARSE_COMPLETE), b"");
            out.extend_from_slice(&backend(Tag(Tag::COMMAND_COMPLETE), b"SELECT 1\0"));
            out
        }),
        ("a description after the rows", {
            let mut out = backend(Tag(Tag::DATA_ROW), b"row");
            out.extend_from_slice(&backend(Tag(Tag::ROW_DESCRIPTION), b"desc"));
            out.extend_from_slice(&backend(Tag(Tag::COMMAND_COMPLETE), b"SELECT 1\0"));
            out
        }),
        ("anything after the completion", {
            let mut out = payload(true);
            out.extend_from_slice(&backend(Tag(Tag::DATA_ROW), b"late"));
            out
        }),
    ] {
        assert_eq!(
            held.assemble(&bytes, &mut out),
            Err(Unservable::Malformed),
            "{case} was accepted as a stored answer"
        );
    }
}

#[test]
fn an_empty_query_response_ends_a_payload_as_a_completion_does() {
    let mut out = Vec::new();
    let mut bytes = Vec::new();
    bytes.extend_from_slice(&backend(Tag(Tag::EMPTY_QUERY_RESPONSE), b""));
    ran(false).assemble(&bytes, &mut out).unwrap();

    assert!(out.ends_with(&[b'Z', 0, 0, 0, 5, b'I']));
}

#[test]
fn a_truncated_buffer_ends_the_walk_rather_than_panicking() {
    // A short frame in a held buffer is a bug rather than an input, and still
    // must not be a panic on a node serving 100k other connections.
    let mut out = Vec::new();
    let (tag, body) = bind("", "s1");
    out.push(tag.get());
    out.extend_from_slice(&u32::try_from(body.len() + 4).unwrap().to_be_bytes());
    out.extend_from_slice(&body);
    out.truncate(3);
    assert!(Frames::over(&out).next().is_none());

    assert!(
        Frames::over(&[b'B', 0, 0, 0, 200]).next().is_none(),
        "a length past the end was read"
    );
    assert!(
        Frames::over(&[b'B', 0, 0, 0, 0]).next().is_none(),
        "a length under the header was read"
    );
}

fn stored(tag: u8, body: &[u8]) -> Vec<u8> {
    let mut out = vec![tag];
    out.extend_from_slice(&u32::try_from(body.len() + 4).unwrap().to_be_bytes());
    out.extend_from_slice(body);
    out
}

#[test]
fn a_stored_answer_splits_as_it_was_written() {
    let description = stored(b'T', b"\0\0");
    let mut rows = stored(b'D', b"\0\x01\0\0\0\x011");
    rows.extend(stored(b'C', b"SELECT 1\0"));
    let mut payload = description.clone();
    payload.extend_from_slice(&rows);
    let (d, r) = pgprox::sequence::split(&payload).unwrap();
    assert_eq!(d, Some(description.as_slice()));
    assert_eq!(r, rows.as_slice());

    let (d, r) = pgprox::sequence::split(&rows).unwrap();
    assert_eq!(d, None);
    assert_eq!(r, rows.as_slice());
}
