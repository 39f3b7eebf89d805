//! The bytes of the messages this proxy writes: to clients as a server, and
//! to servers as a client. Each encoder appends one whole message.
use vstd::prelude::*;
use vstd::string::*;

use crate::backend::TxStatus;
use crate::proto::{ConnId, NodeId, PROTOCOL_3_0, Tag, be32_bytes, push_be32};

verus! {

/// A string as the protocol writes one: its bytes and a terminating null.
pub open spec fn cstr(s: Seq<u8>) -> Seq<u8> {
    s.push(0)
}

/// A tagged message: the tag, a length that counts itself, the body.
pub open spec fn framed(tag: u8, body: Seq<u8>) -> Seq<u8> {
    seq![tag] + be32_bytes((body.len() + 4) as u32) + body
}

/// An untagged message, as the first one of a connection is written.
pub open spec fn untagged(body: Seq<u8>) -> Seq<u8> {
    be32_bytes((body.len() + 4) as u32) + body
}

/// A signed 32-bit integer, big-endian.
pub open spec fn i32_bytes(n: i32) -> Seq<u8> {
    be32_bytes(n as u32)
}

/// Whether a body fits a message: the length, counting itself, is a positive
/// 32-bit signed integer.
pub open spec fn fits(body: Seq<u8>) -> bool {
    body.len() + 4 <= 0x7fff_ffff
}

/// The bytes of each text.
pub open spec fn bytes_of(texts: Seq<&str>) -> Seq<Seq<u8>> {
    texts.map_values(|t: &str| t.spec_bytes())
}

/// Texts one after another, each null-terminated.
pub open spec fn cstrs(texts: Seq<Seq<u8>>) -> Seq<u8>
    decreases texts.len(),
{
    if texts.len() == 0 {
        Seq::empty()
    } else {
        cstrs(texts.drop_last()) + cstr(texts.last())
    }
}

/// Name and value pairs one after another, each null-terminated.
pub open spec fn pairs(params: Seq<(&str, &str)>) -> Seq<u8>
    decreases params.len(),
{
    if params.len() == 0 {
        Seq::empty()
    } else {
        pairs(params.drop_last()) + cstr(params.last().0.spec_bytes()) + cstr(params.last().1.spec_bytes())
    }
}

fn push_bytes(out: &mut Vec<u8>, bytes: &[u8])
    ensures
        final(out)@ == old(out)@ + bytes@,
{
    let mut i: usize = 0;
    while i < bytes.len()
        invariant
            i <= bytes@.len(),
            out@ == old(out)@ + bytes@.subrange(0, i as int),
        decreases bytes@.len() - i,
    {
        out.push(bytes[i]);
        i = i + 1;
        assert(out@ =~= old(out)@ + bytes@.subrange(0, i as int));
    }
    assert(bytes@.subrange(0, bytes@.len() as int) =~= bytes@);
}

fn push_cstr(out: &mut Vec<u8>, text: &str)
    ensures
        final(out)@ == old(out)@ + cstr(text.spec_bytes()),
{
    push_bytes(out, text.as_bytes());
    out.push(0);
    assert(out@ =~= old(out)@ + cstr(text.spec_bytes()));
}

fn push_frame(out: &mut Vec<u8>, tag: u8, body: &[u8])
    requires
        fits(body@),
    ensures
        final(out)@ == old(out)@ + framed(tag, body@),
{
    out.push(tag);
    push_be32(out, (body.len() + 4) as u32);
    push_bytes(out, body);
    assert(out@ =~= old(out)@ + framed(tag, body@));
}

fn push_untagged(out: &mut Vec<u8>, body: &[u8])
    requires
        fits(body@),
    ensures
        final(out)@ == old(out)@ + untagged(body@),
{
    push_be32(out, (body.len() + 4) as u32);
    push_bytes(out, body);
    assert(out@ =~= old(out)@ + untagged(body@));
}

fn push_cstrs(out: &mut Vec<u8>, texts: &[&str])
    ensures
        final(out)@ == old(out)@ + cstrs(bytes_of(texts@)),
{
    let mut i: usize = 0;
    proof {
        assert(bytes_of(texts@).subrange(0, 0) =~= Seq::<Seq<u8>>::empty());
        assert(out@ =~= old(out)@ + cstrs(bytes_of(texts@).subrange(0, 0)));
    }
    while i < texts.len()
        invariant
            i <= texts@.len(),
            out@ == old(out)@ + cstrs(bytes_of(texts@).subrange(0, i as int)),
        decreases texts@.len() - i,
    {
        let ghost before = out@;
        push_cstr(out, texts[i]);
        proof {
            let next = bytes_of(texts@).subrange(0, i + 1);
            assert(next.drop_last() =~= bytes_of(texts@).subrange(0, i as int));
            assert(next.last() == texts@[i as int].spec_bytes());
        }
        i = i + 1;
        assert(out@ =~= old(out)@ + cstrs(bytes_of(texts@).subrange(0, i as int)));
    }
    assert(bytes_of(texts@).subrange(0, texts@.len() as int) =~= bytes_of(texts@));
}

// ---------------------------------------------------------------------------
// As a server, to a client
// ---------------------------------------------------------------------------

/// `AuthenticationOk`.
pub fn authentication_ok(out: &mut Vec<u8>)
    ensures
        final(out)@ == old(out)@ + framed(Tag::AUTHENTICATION, be32_bytes(0)),
{
    let mut body: Vec<u8> = Vec::new();
    push_be32(&mut body, 0);
    push_frame(out, Tag::AUTHENTICATION, body.as_slice());
}

/// `AuthenticationCleartextPassword`, which is how a token is asked for.
pub fn authentication_cleartext_password(out: &mut Vec<u8>)
    ensures
        final(out)@ == old(out)@ + framed(Tag::AUTHENTICATION, be32_bytes(3)),
{
    let mut body: Vec<u8> = Vec::new();
    push_be32(&mut body, 3);
    push_frame(out, Tag::AUTHENTICATION, body.as_slice());
}

/// The body of `AuthenticationSASL` offering these mechanisms.
pub open spec fn sasl_body(mechanisms: Seq<&str>) -> Seq<u8> {
    be32_bytes(10) + cstrs(bytes_of(mechanisms)) + seq![0u8]
}

/// `AuthenticationSASL`, offering these mechanisms.
pub fn authentication_sasl(out: &mut Vec<u8>, mechanisms: &[&str])
    requires
        fits(sasl_body(mechanisms@)),
    ensures
        final(out)@ == old(out)@ + framed(Tag::AUTHENTICATION, sasl_body(mechanisms@)),
{
    let mut body: Vec<u8> = Vec::new();
    push_be32(&mut body, 10);
    push_cstrs(&mut body, mechanisms);
    body.push(0);
    assert(body@ =~= sasl_body(mechanisms@));
    push_frame(out, Tag::AUTHENTICATION, body.as_slice());
}

/// `AuthenticationSASLContinue` carrying `data`.
pub fn authentication_sasl_continue(out: &mut Vec<u8>, data: &str)
    requires
        fits(be32_bytes(11) + data.spec_bytes()),
    ensures
        final(out)@ == old(out)@ + framed(Tag::AUTHENTICATION, be32_bytes(11) + data.spec_bytes()),
{
    let mut body: Vec<u8> = Vec::new();
    push_be32(&mut body, 11);
    push_bytes(&mut body, data.as_bytes());
    push_frame(out, Tag::AUTHENTICATION, body.as_slice());
}

/// `AuthenticationSASLFinal` carrying `data`.
pub fn authentication_sasl_final(out: &mut Vec<u8>, data: &str)
    requires
        fits(be32_bytes(12) + data.spec_bytes()),
    ensures
        final(out)@ == old(out)@ + framed(Tag::AUTHENTICATION, be32_bytes(12) + data.spec_bytes()),
{
    let mut body: Vec<u8> = Vec::new();
    push_be32(&mut body, 12);
    push_bytes(&mut body, data.as_bytes());
    push_frame(out, Tag::AUTHENTICATION, body.as_slice());
}

/// `ParameterStatus`.
pub fn parameter_status(out: &mut Vec<u8>, name: &str, value: &str)
    requires
        fits(cstr(name.spec_bytes()) + cstr(value.spec_bytes())),
    ensures
        final(out)@ == old(out)@ + framed(
            Tag::PARAMETER_STATUS,
            cstr(name.spec_bytes()) + cstr(value.spec_bytes()),
        ),
{
    let mut body: Vec<u8> = Vec::new();
    push_cstr(&mut body, name);
    push_cstr(&mut body, value);
    push_frame(out, Tag::PARAMETER_STATUS, body.as_slice());
}

/// `BackendKeyData`.
pub fn backend_key_data(out: &mut Vec<u8>, process_id: i32, secret: i32)
    ensures
        final(out)@ == old(out)@ + framed(Tag::BACKEND_KEY_DATA, i32_bytes(process_id) + i32_bytes(secret)),
{
    let mut body: Vec<u8> = Vec::new();
    push_be32(&mut body, process_id as u32);
    push_be32(&mut body, secret as u32);
    push_frame(out, Tag::BACKEND_KEY_DATA, body.as_slice());
}

/// The byte `ReadyForQuery` reports a status with.
pub open spec fn status_byte(status: TxStatus) -> u8 {
    match status {
        TxStatus::Idle => 0x49,
        TxStatus::InTransaction => 0x54,
        TxStatus::Failed => 0x45,
    }
}

/// `ReadyForQuery`.
pub fn ready_for_query(out: &mut Vec<u8>, status: TxStatus)
    ensures
        final(out)@ == old(out)@ + framed(Tag::READY_FOR_QUERY, seq![status_byte(status)]),
{
    let byte: u8 = match status {
        TxStatus::Idle => 0x49,
        TxStatus::InTransaction => 0x54,
        TxStatus::Failed => 0x45,
    };
    let mut body: Vec<u8> = Vec::new();
    body.push(byte);
    assert(body@ =~= seq![status_byte(status)]);
    push_frame(out, Tag::READY_FOR_QUERY, body.as_slice());
}

/// The body of an `ErrorResponse`: severity, SQLSTATE and message.
pub open spec fn error_body(severity: Seq<u8>, code: Seq<u8>, message: Seq<u8>) -> Seq<u8> {
    seq![0x53u8] + cstr(severity) + seq![0x43u8] + cstr(code) + seq![0x4du8] + cstr(message) + seq![0u8]
}

/// `ErrorResponse`.
pub fn error_response(out: &mut Vec<u8>, severity: &str, code: &str, message: &str)
    requires
        fits(error_body(severity.spec_bytes(), code.spec_bytes(), message.spec_bytes())),
    ensures
        final(out)@ == old(out)@ + framed(
            Tag::ERROR_RESPONSE,
            error_body(severity.spec_bytes(), code.spec_bytes(), message.spec_bytes()),
        ),
{
    let mut body: Vec<u8> = Vec::new();
    body.push(0x53);
    push_cstr(&mut body, severity);
    body.push(0x43);
    push_cstr(&mut body, code);
    body.push(0x4d);
    push_cstr(&mut body, message);
    body.push(0);
    assert(body@ =~= error_body(severity.spec_bytes(), code.spec_bytes(), message.spec_bytes()));
    push_frame(out, Tag::ERROR_RESPONSE, body.as_slice());
}

/// The body of `NegotiateProtocolVersion`.
pub open spec fn negotiate_body(minor: i32, unrecognised: Seq<&str>) -> Seq<u8> {
    i32_bytes(minor) + be32_bytes(unrecognised.len() as u32) + cstrs(bytes_of(unrecognised))
}

/// `NegotiateProtocolVersion`: the newest minor version this side speaks,
/// and the options it did not recognise.
pub fn negotiate_protocol_version(out: &mut Vec<u8>, minor: i32, unrecognised: &[&str])
    requires
        fits(negotiate_body(minor, unrecognised@)),
    ensures
        final(out)@ == old(out)@ + framed(Tag::NEGOTIATE_PROTOCOL_VERSION, negotiate_body(minor, unrecognised@)),
{
    let mut body: Vec<u8> = Vec::new();
    push_be32(&mut body, minor as u32);
    push_be32(&mut body, unrecognised.len() as u32);
    push_cstrs(&mut body, unrecognised);
    assert(body@ =~= negotiate_body(minor, unrecognised@));
    push_frame(out, Tag::NEGOTIATE_PROTOCOL_VERSION, body.as_slice());
}

// ---------------------------------------------------------------------------
// As a client, to a server
// ---------------------------------------------------------------------------

/// The body of a startup packet for protocol 3.0 with these parameters.
pub open spec fn startup_body(params: Seq<(&str, &str)>) -> Seq<u8> {
    be32_bytes(PROTOCOL_3_0 as u32) + pairs(params) + seq![0u8]
}

/// A startup packet.
pub fn startup_message(out: &mut Vec<u8>, params: &[(&str, &str)])
    requires
        fits(startup_body(params@)),
    ensures
        final(out)@ == old(out)@ + untagged(startup_body(params@)),
{
    let mut body: Vec<u8> = Vec::new();
    push_be32(&mut body, PROTOCOL_3_0 as u32);
    let mut i: usize = 0;
    proof {
        assert(params@.subrange(0, 0) =~= Seq::<(&str, &str)>::empty());
        assert(body@ =~= be32_bytes(PROTOCOL_3_0 as u32) + pairs(params@.subrange(0, 0)));
    }
    while i < params.len()
        invariant
            i <= params@.len(),
            body@ == be32_bytes(PROTOCOL_3_0 as u32) + pairs(params@.subrange(0, i as int)),
        decreases params@.len() - i,
    {
        let (name, value) = params[i];
        push_cstr(&mut body, name);
        push_cstr(&mut body, value);
        proof {
            let next = params@.subrange(0, i + 1);
            assert(next.drop_last() =~= params@.subrange(0, i as int));
            assert(next.last() == params@[i as int]);
        }
        i = i + 1;
        assert(body@ =~= be32_bytes(PROTOCOL_3_0 as u32) + pairs(params@.subrange(0, i as int)));
    }
    body.push(0);
    assert(params@.subrange(0, params@.len() as int) =~= params@);
    assert(body@ =~= startup_body(params@));
    push_untagged(out, body.as_slice());
}

/// The code an `SSLRequest` carries.
pub const SSL_REQUEST_CODE: u32 = 80877103;

/// The code a `CancelRequest` carries.
pub const CANCEL_REQUEST_CODE: u32 = 80877102;

/// The code a `GSSENCRequest` carries.
pub const GSSENC_REQUEST_CODE: u32 = 80877104;

/// An `SSLRequest`.
pub fn ssl_request(out: &mut Vec<u8>)
    ensures
        final(out)@ == old(out)@ + untagged(be32_bytes(SSL_REQUEST_CODE)),
{
    let mut body: Vec<u8> = Vec::new();
    push_be32(&mut body, SSL_REQUEST_CODE);
    push_untagged(out, body.as_slice());
}

/// A `CancelRequest` carrying a server's cancel key.
pub fn cancel_request(out: &mut Vec<u8>, process_id: i32, secret: i32)
    ensures
        final(out)@ == old(out)@ + untagged(be32_bytes(CANCEL_REQUEST_CODE) + i32_bytes(process_id) + i32_bytes(secret)),
{
    let mut body: Vec<u8> = Vec::new();
    push_be32(&mut body, CANCEL_REQUEST_CODE);
    push_be32(&mut body, process_id as u32);
    push_be32(&mut body, secret as u32);
    push_untagged(out, body.as_slice());
}

/// `PasswordMessage`.
pub fn password_message(out: &mut Vec<u8>, password: &str)
    requires
        fits(cstr(password.spec_bytes())),
    ensures
        final(out)@ == old(out)@ + framed(Tag::PASSWORD, cstr(password.spec_bytes())),
{
    let mut body: Vec<u8> = Vec::new();
    push_cstr(&mut body, password);
    push_frame(out, Tag::PASSWORD, body.as_slice());
}

/// The body of a `SASLInitialResponse`.
pub open spec fn sasl_initial_body(mechanism: Seq<u8>, data: Seq<u8>) -> Seq<u8> {
    cstr(mechanism) + be32_bytes(data.len() as u32) + data
}

/// `SASLInitialResponse`.
pub fn sasl_initial_response(out: &mut Vec<u8>, mechanism: &str, data: &str)
    requires
        fits(sasl_initial_body(mechanism.spec_bytes(), data.spec_bytes())),
    ensures
        final(out)@ == old(out)@ + framed(Tag::PASSWORD, sasl_initial_body(mechanism.spec_bytes(), data.spec_bytes())),
{
    let mut body: Vec<u8> = Vec::new();
    push_cstr(&mut body, mechanism);
    push_be32(&mut body, data.as_bytes().len() as u32);
    push_bytes(&mut body, data.as_bytes());
    assert(body@ =~= sasl_initial_body(mechanism.spec_bytes(), data.spec_bytes()));
    push_frame(out, Tag::PASSWORD, body.as_slice());
}

/// `SASLResponse`.
pub fn sasl_response(out: &mut Vec<u8>, data: &str)
    requires
        fits(data.spec_bytes()),
    ensures
        final(out)@ == old(out)@ + framed(Tag::PASSWORD, data.spec_bytes()),
{
    push_frame(out, Tag::PASSWORD, data.as_bytes());
}

/// `Query`.
pub fn query(out: &mut Vec<u8>, sql: &str)
    requires
        fits(cstr(sql.spec_bytes())),
    ensures
        final(out)@ == old(out)@ + framed(Tag::QUERY, cstr(sql.spec_bytes())),
{
    let mut body: Vec<u8> = Vec::new();
    push_cstr(&mut body, sql);
    push_frame(out, Tag::QUERY, body.as_slice());
}

/// `Terminate`.
pub fn terminate(out: &mut Vec<u8>)
    ensures
        final(out)@ == old(out)@ + framed(Tag::TERMINATE, Seq::empty()),
{
    let body: Vec<u8> = Vec::new();
    push_frame(out, Tag::TERMINATE, body.as_slice());
}

// ---------------------------------------------------------------------------
// Cancel keys
// ---------------------------------------------------------------------------

/// The two 32-bit halves a client is handed for a connection: the node in the
/// top 16 bits of the first, the 48-bit secret in the rest.
pub open spec fn key_halves(conn: ConnId) -> (u32, u32) {
    (
        (conn.spec_node().0 * 0x1_0000 + conn.spec_secret() / 0x1_0000_0000) as u32,
        (conn.spec_secret() % 0x1_0000_0000) as u32,
    )
}

/// The connection a key names.
pub open spec fn conn_named(hi: u32, lo: u32) -> (NodeId, u64) {
    (NodeId((hi / 0x1_0000) as u16), ((hi % 0x1_0000) * 0x1_0000_0000 + lo) as u64)
}

/// The key a client is handed for a connection, as `BackendKeyData` carries it.
pub fn conn_key(conn: ConnId) -> (r: (u32, u32))
    ensures
        r == key_halves(conn),
{
    let node = conn.node().0 as u64;
    let secret = conn.secret();
    let hi = node * 0x1_0000 + secret / 0x1_0000_0000;
    (hi as u32, (secret % 0x1_0000_0000) as u32)
}

/// The connection a cancel key names.
pub fn conn_of_key(hi: u32, lo: u32) -> (r: ConnId)
    ensures
        r.spec_node() == conn_named(hi, lo).0,
        r.spec_secret() == conn_named(hi, lo).1,
{
    let node = NodeId((hi / 0x1_0000) as u16);
    let secret: u64 = ((hi % 0x1_0000) as u64) * 0x1_0000_0000 + lo as u64;
    proof {
        assert(secret < 0x1_0000_0000_0000);
        assert(secret < 0x1_0000_0000_0000 ==> secret & 0xffff_ffff_ffff == secret) by (bit_vector);
    }
    ConnId::new(node, secret)
}

/// A key handed to a client names the connection it was handed for.
pub proof fn law_a_cancel_key_names_its_connection(conn: ConnId)
    requires
        conn.spec_secret() < 0x1_0000_0000_0000,
    ensures
        conn_named(key_halves(conn).0, key_halves(conn).1) == (conn.spec_node(), conn.spec_secret()),
{
    let s = conn.spec_secret();
    let n = conn.spec_node().0;
    let hi = n * 0x1_0000 + s / 0x1_0000_0000;
    assert(s / 0x1_0000_0000 < 0x1_0000);
    assert(hi < 0x1_0000_0000);
    assert(hi / 0x1_0000 == n);
    assert(hi % 0x1_0000 == s / 0x1_0000_0000);
    assert((s / 0x1_0000_0000) * 0x1_0000_0000 + s % 0x1_0000_0000 == s);
}

/// The four bytes of a number read back are the number.
pub proof fn lemma_be32_round_trip(n: u32)
    ensures
        crate::proto::be32(be32_bytes(n), 0) == n,
{
    let b = be32_bytes(n);
    assert(b[0] == n / 16777216);
    assert(b[1] == (n / 65536) % 256);
    assert(b[2] == (n / 256) % 256);
    assert(b[3] == n % 256);
    assert(n / 16777216 * 16777216 + (n / 65536) % 256 * 65536 + (n / 256) % 256 * 256 + n % 256 == n)
        by (nonlinear_arith);
}

} // verus!
