//! Reading the first message of a connection: a request for TLS or GSSAPI,
//! a cancellation, or a startup packet with its parameters.
use vstd::prelude::*;
use vstd::string::*;

use crate::encode::{
    CANCEL_REQUEST_CODE, GSSENC_REQUEST_CODE, SSL_REQUEST_CODE, conn_named, conn_of_key, cstr, i32_bytes,
    lemma_be32_round_trip, pairs, startup_body,
};
use crate::frontend::{cstr_at, read_cstr};
use crate::proto::{ConnId, PROTOCOL_3_0, Startup, StartupParam, be32, be32_bytes, read_be32};

verus! {

/// Why a first message could not be read.
#[derive(Debug, Clone, Copy, PartialEq, Eq, Structural)]
pub enum StartupError {
    /// Shorter than the four bytes of its code.
    TooShort,
    /// A request whose body is not the size its code gives it.
    WrongLength,
    /// Parameters that are not null-terminated UTF-8 pairs ended by a null.
    MalformedParameters,
}

/// The parameters from `at` on: name and value pairs, each null-terminated
/// UTF-8, ended by a lone null that is the last byte.
pub open spec fn params_from(b: Seq<u8>, at: int) -> Option<Seq<(Seq<u8>, Seq<u8>)>>
    decreases b.len() - at,
{
    if at < 0 || at >= b.len() {
        None
    } else if b[at] == 0 {
        if at + 1 == b.len() {
            Some(Seq::empty())
        } else {
            None
        }
    } else {
        match cstr_at(b, at) {
            None => None,
            Some((name, n1)) => match cstr_at(b, n1) {
                None => None,
                Some((value, n2)) => if n2 <= at || n2 > b.len() {
                    None
                } else {
                    match params_from(b, n2) {
                        None => None,
                        Some(rest) => Some(seq![(name, value)] + rest),
                    }
                },
            },
        }
    }
}

/// A first message, by its fields as bytes.
pub enum StartupShape {
    Ssl,
    GssEnc,
    Cancel(u32, u32),
    Message(i32, Seq<(Seq<u8>, Seq<u8>)>),
}

/// What a first message's body is.
pub open spec fn spec_decode_startup(b: Seq<u8>) -> Result<StartupShape, StartupError> {
    if b.len() < 4 {
        Err(StartupError::TooShort)
    } else if be32(b, 0) == SSL_REQUEST_CODE {
        if b.len() == 4 {
            Ok(StartupShape::Ssl)
        } else {
            Err(StartupError::WrongLength)
        }
    } else if be32(b, 0) == GSSENC_REQUEST_CODE {
        if b.len() == 4 {
            Ok(StartupShape::GssEnc)
        } else {
            Err(StartupError::WrongLength)
        }
    } else if be32(b, 0) == CANCEL_REQUEST_CODE {
        if b.len() == 12 {
            Ok(StartupShape::Cancel(be32(b, 4) as u32, be32(b, 8) as u32))
        } else {
            Err(StartupError::WrongLength)
        }
    } else {
        match params_from(b, 4) {
            Some(ps) => Ok(StartupShape::Message(be32(b, 0) as i32, ps)),
            None => Err(StartupError::MalformedParameters),
        }
    }
}

/// The parameters of a decoded startup packet, as bytes.
pub open spec fn param_bytes(ps: Seq<StartupParam>) -> Seq<(Seq<u8>, Seq<u8>)> {
    ps.map_values(|p: StartupParam| (p.name.spec_bytes(), p.value.spec_bytes()))
}

/// Whether a decoded first message is the one a shape describes.
pub open spec fn startup_matches(m: Startup, shape: StartupShape) -> bool {
    match (m, shape) {
        (Startup::SslRequest, StartupShape::Ssl) => true,
        (Startup::GssEncRequest, StartupShape::GssEnc) => true,
        (Startup::CancelRequest { conn }, StartupShape::Cancel(hi, lo)) =>
            (conn.spec_node(), conn.spec_secret()) == conn_named(hi, lo),
        (Startup::StartupMessage { version, params }, StartupShape::Message(v, ps)) =>
            version == v && param_bytes(params@) == ps,
        _ => false,
    }
}

/// Decodes the body of a first message: everything after its length.
pub fn decode_startup<'a>(body: &'a [u8]) -> (r: Result<Startup<'a>, StartupError>)
    ensures
        match spec_decode_startup(body@) {
            Ok(shape) => r matches Ok(m) && startup_matches(m, shape),
            Err(e) => r == Err::<Startup<'a>, StartupError>(e),
        },
{
    let n = body.len();
    if n < 4 {
        return Err(StartupError::TooShort);
    }
    let code = read_be32(body, 0);
    if code == SSL_REQUEST_CODE {
        return if n == 4 {
            Ok(Startup::SslRequest)
        } else {
            Err(StartupError::WrongLength)
        };
    }
    if code == GSSENC_REQUEST_CODE {
        return if n == 4 {
            Ok(Startup::GssEncRequest)
        } else {
            Err(StartupError::WrongLength)
        };
    }
    if code == CANCEL_REQUEST_CODE {
        if n != 12 {
            return Err(StartupError::WrongLength);
        }
        let hi = read_be32(body, 4);
        let lo = read_be32(body, 8);
        let conn = conn_of_key(hi, lo);
        return Ok(Startup::CancelRequest { conn });
    }
    let mut params: Vec<StartupParam<'a>> = Vec::new();
    let mut at: usize = 4;
    proof {
        assert(param_bytes(params@) + params_from(body@, 4)->0 =~= params_from(body@, 4)->0);
    }
    loop
        invariant
            4 <= at <= n,
            n == body@.len(),
            spec_decode_startup(body@) == match params_from(body@, at as int) {
                Some(rest) => Ok::<StartupShape, StartupError>(StartupShape::Message(code as i32, param_bytes(params@) + rest)),
                None => Err::<StartupShape, StartupError>(StartupError::MalformedParameters),
            },
            code != SSL_REQUEST_CODE && code != GSSENC_REQUEST_CODE && code != CANCEL_REQUEST_CODE,
            code == be32(body@, 0),
        ensures
            match spec_decode_startup(body@) {
                Ok(shape) => shape == StartupShape::Message(code as i32, param_bytes(params@)) && at < n
                    && body@[at as int] == 0 && at + 1 == n,
                Err(e) => e == StartupError::MalformedParameters && (at >= n || body@[at as int] != 0 || at + 1 != n),
            },
        decreases n - at,
    {
        if at >= n {
            break;
        }
        if body[at] == 0 {
            proof {
                if at + 1 == n {
                    assert(param_bytes(params@) + Seq::<(Seq<u8>, Seq<u8>)>::empty() =~= param_bytes(params@));
                }
            }
            break;
        }
        let (name, n1) = match read_cstr(body, at) {
            Some(p) => p,
            None => return Err(StartupError::MalformedParameters),
        };
        let (value, n2) = match read_cstr(body, n1) {
            Some(p) => p,
            None => return Err(StartupError::MalformedParameters),
        };
        if n2 <= at || n2 > n {
            return Err(StartupError::MalformedParameters);
        }
        proof {
            crate::text::lemma_find_byte(body@, 0, n1 as int);
        }
        let ghost before = param_bytes(params@);
        params.push(StartupParam { name, value });
        proof {
            assert(param_bytes(params@) =~= before.push((name.spec_bytes(), value.spec_bytes())));
            match params_from(body@, n2 as int) {
                Some(rest) => {
                    assert(before + (seq![(name.spec_bytes(), value.spec_bytes())] + rest) =~= param_bytes(params@) + rest);
                },
                None => {},
            }
        }
        at = n2;
    }
    if at < n && body[at] == 0 && at + 1 == n {
        Ok(Startup::StartupMessage { version: code as i32, params })
    } else {
        Err(StartupError::MalformedParameters)
    }
}

/// The prefix of a protocol option, which a server that does not know it
/// names back in `NegotiateProtocolVersion`.
pub const PROTOCOL_OPTION_PREFIX: &'static str = "_pq_.";

/// Whether a parameter name is a protocol option.
pub open spec fn is_protocol_option(name: Seq<u8>) -> bool {
    name.len() >= 5 && name.subrange(0, 5) == PROTOCOL_OPTION_PREFIX.spec_bytes()
}

/// The names, in order, of the parameters that are protocol options.
pub open spec fn protocol_options(ps: Seq<StartupParam>) -> Seq<Seq<u8>>
    decreases ps.len(),
{
    if ps.len() == 0 {
        Seq::empty()
    } else if is_protocol_option(ps.last().name.spec_bytes()) {
        protocol_options(ps.drop_last()).push(ps.last().name.spec_bytes())
    } else {
        protocol_options(ps.drop_last())
    }
}

/// The protocol options a startup packet asked for, none of which this proxy
/// supports: each is named back to the client when the version is
/// negotiated, since saying nothing is how the protocol says yes.
pub fn unrecognised_options<'a>(message: &Startup<'a>) -> (r: Vec<&'a str>)
    ensures
        match message {
            Startup::StartupMessage { params, .. } => r@.map_values(|n: &str| n.spec_bytes()) == protocol_options(params@),
            _ => r@.len() == 0,
        },
{
    let mut names: Vec<&'a str> = Vec::new();
    let params = match message {
        Startup::StartupMessage { params, .. } => params,
        _ => return names,
    };
    let prefix = PROTOCOL_OPTION_PREFIX.as_bytes();
    proof {
        reveal_strlit("_pq_.");
        vstd::string::is_ascii_spec_bytes("_pq_.");
        assert(vstd::string::is_ascii("_pq_."));
        assert(prefix@.len() == 5);
        assert(params@.subrange(0, 0) =~= Seq::<StartupParam>::empty());
        assert(names@.map_values(|n: &str| n.spec_bytes()) =~= Seq::<Seq<u8>>::empty());
    }
    let mut i: usize = 0;
    while i < params.len()
        invariant
            i <= params@.len(),
            prefix@ == PROTOCOL_OPTION_PREFIX.spec_bytes(),
            prefix@.len() == 5,
            names@.map_values(|n: &str| n.spec_bytes()) == protocol_options(params@.subrange(0, i as int)),
        decreases params@.len() - i,
    {
        let name = params[i].name;
        let bytes = name.as_bytes();
        let ghost before = names@;
        let matches = bytes.len() >= 5 && crate::text::bytes_eq(
            vstd::slice::slice_subrange(bytes, 0, 5),
            prefix,
        );
        proof {
            let next = params@.subrange(0, i + 1);
            assert(next.drop_last() =~= params@.subrange(0, i as int));
            assert(next.last() == params@[i as int]);
        }
        if matches {
            names.push(name);
            proof {
                assert(names@.map_values(|n: &str| n.spec_bytes()) =~= before.map_values(|n: &str| n.spec_bytes()).push(name.spec_bytes()));
            }
        }
        i = i + 1;
    }
    proof {
        assert(params@.subrange(0, params@.len() as int) =~= params@);
    }
    names
}

/// A cancel request as this proxy writes one reads back as the key it
/// carries.
pub proof fn law_a_cancel_request_reads_back_as_its_key(process_id: i32, secret: i32)
    ensures
        spec_decode_startup(be32_bytes(CANCEL_REQUEST_CODE) + i32_bytes(process_id) + i32_bytes(secret))
            == Ok::<StartupShape, StartupError>(StartupShape::Cancel(process_id as u32, secret as u32)),
{
    let b = be32_bytes(CANCEL_REQUEST_CODE) + i32_bytes(process_id) + i32_bytes(secret);
    let p = i32_bytes(process_id);
    let q = i32_bytes(secret);
    lemma_be32_round_trip(CANCEL_REQUEST_CODE);
    lemma_be32_round_trip(process_id as u32);
    lemma_be32_round_trip(secret as u32);
    assert(b.len() == 12);
    assert(be32(b, 0) == be32(be32_bytes(CANCEL_REQUEST_CODE), 0));
    assert(be32(b, 4) == be32(p, 0)) by {
        assert(b[4] == p[0] && b[5] == p[1] && b[6] == p[2] && b[7] == p[3]);
    }
    assert(be32(b, 8) == be32(q, 0)) by {
        assert(b[8] == q[0] && b[9] == q[1] && b[10] == q[2] && b[11] == q[3]);
    }
}

/// An `SSLRequest` as this proxy writes one reads back as one.
pub proof fn law_an_ssl_request_reads_back_as_one()
    ensures
        spec_decode_startup(be32_bytes(SSL_REQUEST_CODE)) == Ok::<StartupShape, StartupError>(StartupShape::Ssl),
{
    lemma_be32_round_trip(SSL_REQUEST_CODE);
}

proof fn lemma_pairs_front(p: (&str, &str), rest: Seq<(&str, &str)>)
    ensures
        pairs(seq![p] + rest) == cstr(p.0.spec_bytes()) + cstr(p.1.spec_bytes()) + pairs(rest),
    decreases rest.len(),
{
    let s = seq![p] + rest;
    if rest.len() == 0 {
        assert(s =~= seq![p]);
        assert(s.drop_last() =~= Seq::<(&str, &str)>::empty());
        assert(s.last() == p);
        assert(pairs(s.drop_last()) =~= Seq::<u8>::empty());
        assert(pairs(rest) =~= Seq::<u8>::empty());
        assert(pairs(s) =~= cstr(p.0.spec_bytes()) + cstr(p.1.spec_bytes()) + pairs(rest));
    } else {
        let d = seq![p] + rest.drop_last();
        assert(s.drop_last() =~= d);
        assert(s.last() == rest.last());
        assert(pairs(s) == pairs(d) + cstr(rest.last().0.spec_bytes()) + cstr(rest.last().1.spec_bytes()));
        assert(pairs(rest) == pairs(rest.drop_last()) + cstr(rest.last().0.spec_bytes()) + cstr(
            rest.last().1.spec_bytes(),
        ));
        lemma_pairs_front(p, rest.drop_last());
        assert(pairs(s) =~= cstr(p.0.spec_bytes()) + cstr(p.1.spec_bytes()) + pairs(rest));
    }
}

/// Whether a parameter survives being written and read back: a name that
/// is not empty, and no null byte in the name or the value.
pub open spec fn writable_param(p: (&str, &str)) -> bool {
    &&& p.0.spec_bytes().len() > 0
    &&& forall|i: int| 0 <= i < p.0.spec_bytes().len() ==> p.0.spec_bytes()[i] != 0
    &&& forall|i: int| 0 <= i < p.1.spec_bytes().len() ==> p.1.spec_bytes()[i] != 0
}

/// The parameters written, as the bytes they are read back as.
pub open spec fn written_params(params: Seq<(&str, &str)>) -> Seq<(Seq<u8>, Seq<u8>)> {
    params.map_values(|p: (&str, &str)| (p.0.spec_bytes(), p.1.spec_bytes()))
}

proof fn lemma_cstr_read_back(b: Seq<u8>, at: int, text: &str)
    requires
        0 <= at,
        at + text.spec_bytes().len() < b.len(),
        b.subrange(at, at + text.spec_bytes().len() + 1) == cstr(text.spec_bytes()),
        forall|i: int| 0 <= i < text.spec_bytes().len() ==> text.spec_bytes()[i] != 0,
    ensures
        cstr_at(b, at) == Some((text.spec_bytes(), at + text.spec_bytes().len() + 1)),
{
    let t = text.spec_bytes();
    let k = at + t.len();
    assert forall|j: int| at <= j < k implies b[j] != 0 by {
        assert(b[j] == b.subrange(at, k + 1)[j - at]);
        assert(cstr(t)[j - at] == t[j - at]);
    }
    assert(b[k] == b.subrange(at, k + 1)[k - at]);
    crate::frontend::lemma_find_first(b, 0, at, k);
    assert(b.subrange(at, k) =~= t) by {
        assert forall|j: int| 0 <= j < t.len() implies b.subrange(at, k)[j] == t[j] by {
            assert(b[at + j] == b.subrange(at, k + 1)[j]);
            assert(cstr(t)[j] == t[j]);
        }
    }
    vstd::utf8::encode_utf8_valid_utf8(text@);
}

proof fn lemma_params_read_back(pre: Seq<u8>, ps: Seq<(&str, &str)>)
    requires
        forall|i: int| 0 <= i < ps.len() ==> writable_param(#[trigger] ps[i]),
    ensures
        params_from(pre + pairs(ps) + seq![0u8], pre.len() as int) == Some(written_params(ps)),
    decreases ps.len(),
{
    let b = pre + pairs(ps) + seq![0u8];
    let at = pre.len() as int;
    if ps.len() == 0 {
        assert(b =~= pre + seq![0u8]);
        assert(b[at] == 0);
        assert(written_params(ps) =~= Seq::<(Seq<u8>, Seq<u8>)>::empty());
    } else {
        let p = ps[0];
        let rest = ps.drop_first();
        assert(ps =~= seq![p] + rest);
        lemma_pairs_front(p, rest);
        assert(writable_param(ps[0]));
        let n = p.0.spec_bytes();
        let v = p.1.spec_bytes();
        let pre2 = pre + cstr(n) + cstr(v);
        assert(b =~= pre2 + pairs(rest) + seq![0u8]);
        let n1 = at + n.len() + 1;
        let n2 = n1 + v.len() + 1;
        assert(pre2.len() == n2);
        assert(b.subrange(at, n1) =~= cstr(n));
        assert(b.subrange(n1, n2) =~= cstr(v));
        assert(b[at] == n[0]);
        lemma_cstr_read_back(b, at, p.0);
        lemma_cstr_read_back(b, n1, p.1);
        assert forall|i: int| 0 <= i < rest.len() implies writable_param(#[trigger] rest[i]) by {
            assert(rest[i] == ps[i + 1]);
        }
        lemma_params_read_back(pre2, rest);
        assert(written_params(ps) =~= seq![(n, v)] + written_params(rest));
    }
}

/// A startup packet as this proxy writes one reads back as the parameters
/// it was written with, when each name is not empty and no name or value
/// holds a null byte.
pub proof fn law_a_startup_packet_reads_back_as_its_parameters(params: Seq<(&str, &str)>)
    requires
        forall|i: int| 0 <= i < params.len() ==> writable_param(#[trigger] params[i]),
    ensures
        spec_decode_startup(startup_body(params)) == Ok::<StartupShape, StartupError>(
            StartupShape::Message(PROTOCOL_3_0, written_params(params)),
        ),
{
    let b = startup_body(params);
    let pre = be32_bytes(PROTOCOL_3_0 as u32);
    lemma_be32_round_trip(PROTOCOL_3_0 as u32);
    assert(be32(b, 0) == be32(pre, 0)) by {
        assert(b[0] == pre[0] && b[1] == pre[1] && b[2] == pre[2] && b[3] == pre[3]);
    }
    lemma_params_read_back(pre, params);
}

} // verus!
