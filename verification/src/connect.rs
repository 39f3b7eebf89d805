//! Opening an upstream connection, as a state machine.
//!
//! The other side of [`crate::state`]: there the proxy is a server deciding
//! what to ask a client for, here it is a client answering what Postgres asks
//! it. A server offering an unexpected authentication method is a deployment
//! this proxy cannot serve, and saying which method it was is the difference
//! between a five-minute fix and an afternoon.
//!
//! It harvests the `ParameterStatus` set the server sends, which clients of
//! this proxy have to be told, and the server's own cancel key. The SCRAM
//! arithmetic is not here: the machine routes payloads and the caller
//! computes them.
use vstd::prelude::*;
use vstd::string::*;

use crate::backend::{AuthRequest, BackendMessage, Decoded, decode, spec_decode, spec_decoded, auth_request_of, as_i32};
use crate::proto::{Tag, be32};
use crate::auth::{decimal, decimal_text};
use crate::text::text_of;

verus! {

/// The `application_name` the proxy gives its own upstream connections, so
/// whoever reads `pg_stat_activity` sees which process holds them.
pub const APPLICATION_NAME: &'static str = "pgprox";

/// A database server, by host and port.
#[derive(Debug, Clone, PartialEq, Eq)]
pub struct ServerId {
    /// The host.
    pub host: String,
    /// The port.
    pub port: u16,
}

impl ServerId {
    /// The server at this host and port.
    pub fn new(host: &str, port: u16) -> (r: ServerId)
        ensures
            r.host@ == host@,
            r.port == port,
    {
        ServerId { host: host.to_owned(), port }
    }
}

/// Why a pooled connection could not be had.
#[derive(Debug, Clone, PartialEq, Eq)]
pub enum PoolError {
    /// Opening a connection to this server failed, for this reason.
    ConnectFailed {
        /// The server.
        server: ServerId,
        /// What went wrong, in words an operator can act on.
        reason: String,
    },
}

/// What the driver should do next.
#[derive(Debug, PartialEq, Eq)]
pub enum Need {
    /// Send the startup packet.
    Startup,
    /// Send the password in the clear.
    Password,
    /// Send `SASLInitialResponse` with a client-first message.
    SaslStart,
    /// Answer this server-first message with `SASLResponse`.
    SaslContinue(String),
    /// Check this server-final message, then keep reading.
    SaslVerify(String),
    /// Read another message.
    Read,
    /// The connection is usable.
    Ready,
    /// Give up, and say why.
    Fail(PoolError),
}

/// How far the upstream handshake has got.
#[derive(Debug, Clone, Copy, PartialEq, Eq, Structural)]
pub enum UpstreamStage {
    /// Nothing sent yet.
    Opening,
    /// The startup packet is out; the server is deciding.
    Authenticating,
    /// Authenticated; collecting the parameters that follow.
    Settling,
    /// Usable.
    Ready,
    /// Failed.
    Failed,
}

/// What a handshake step asks for, as values.
pub enum Wanted {
    /// Send the password in the clear.
    Password,
    /// Start a SASL exchange.
    SaslStart,
    /// Answer this server-first message.
    SaslContinue(Seq<char>),
    /// Check this server-final message.
    SaslVerify(Seq<char>),
    /// Read another message.
    Read,
    /// The connection is usable.
    Ready,
    /// Give up, for this reason.
    Fail(Seq<char>),
}

/// What a [`Need`] says, as values; `Startup` never follows a frame.
pub open spec fn wanted(n: Need) -> Option<Wanted> {
    match n {
        Need::Startup => None,
        Need::Password => Some(Wanted::Password),
        Need::SaslStart => Some(Wanted::SaslStart),
        Need::SaslContinue(s) => Some(Wanted::SaslContinue(s@)),
        Need::SaslVerify(s) => Some(Wanted::SaslVerify(s@)),
        Need::Read => Some(Wanted::Read),
        Need::Ready => Some(Wanted::Ready),
        Need::Fail(PoolError::ConnectFailed { reason, .. }) => Some(Wanted::Fail(reason@)),
    }
}

/// `n` in decimal, with a sign when negative.
pub open spec fn signed_decimal(n: int) -> Seq<char> {
    if n < 0 {
        seq!['-'] + decimal((-n) as nat)
    } else {
        decimal(n as nat)
    }
}

/// The text of an SASL payload after its four-byte subtype, as
/// `String::from_utf8_lossy` renders it.
pub uninterp spec fn lossy_text(bytes: Seq<u8>) -> Seq<char>;

/// The payload of an `Authentication` message after its subtype, as text.
///
/// Calls `String::from_utf8_lossy`, documented to return valid UTF-8
/// unchanged and to replace each invalid sequence with U+FFFD. Claimed: the
/// result is [`lossy_text`] of the bytes, which is their text when they are
/// valid.
#[verifier::external_body]
fn lossy(bytes: &[u8]) -> (r: String)
    ensures
        r@ == lossy_text(bytes@),
        vstd::utf8::valid_utf8(bytes@) ==> r@ == text_of(bytes@),
{
    String::from_utf8_lossy(bytes).into_owned()
}

/// The bytes of a body after its first four.
pub open spec fn after_subtype(b: Seq<u8>) -> Seq<u8> {
    if b.len() >= 4 {
        b.subrange(4, b.len() as int)
    } else {
        Seq::empty()
    }
}

/// What an authentication request makes of the handshake.
///
/// `AuthenticationOk` moves on to collecting parameters. A password or a SASL
/// step is handed to the caller, a SASL payload as text. md5 is refused by
/// name, and any other method by its number.
pub open spec fn spec_on_auth(stage: UpstreamStage, request: AuthRequest, body: Seq<u8>) -> (UpstreamStage, Wanted) {
    match request {
        AuthRequest::Authenticated => (UpstreamStage::Settling, Wanted::Read),
        AuthRequest::CleartextPassword => (stage, Wanted::Password),
        AuthRequest::Sasl => (stage, Wanted::SaslStart),
        AuthRequest::SaslContinue => (stage, Wanted::SaslContinue(lossy_text(after_subtype(body)))),
        AuthRequest::SaslFinal => (stage, Wanted::SaslVerify(lossy_text(after_subtype(body)))),
        AuthRequest::Md5Password => (
            UpstreamStage::Failed,
            Wanted::Fail("the server asked for md5, which this proxy does not implement"@),
        ),
        AuthRequest::Other(subtype) => (
            UpstreamStage::Failed,
            Wanted::Fail(
                "the server asked for authentication method "@ + signed_decimal(subtype as int)
                    + ", which this proxy does not implement"@,
            ),
        ),
    }
}

/// One server frame through the upstream handshake: the stage after it and
/// what the driver does next.
///
/// Nothing is accepted after the handshake has finished. A frame that does not
/// decode fails the connection. `ReadyForQuery` is only believed once the
/// server has authenticated the connection. An `ErrorResponse` fails it with
/// the server's own words and code. A notice is read past; anything else
/// unexpected fails it.
pub open spec fn spec_on_frame(stage: UpstreamStage, tag: Tag, body: Seq<u8>) -> (UpstreamStage, Wanted) {
    if stage == UpstreamStage::Ready || stage == UpstreamStage::Failed {
        (UpstreamStage::Failed, Wanted::Fail("a message arrived after the handshake had finished"@))
    } else if tag.0 == Tag::PARAMETER_STATUS {
        match spec_decoded(tag, body) {
            Decoded::Parameter(_, _) => (stage, Wanted::Read),
            _ => (UpstreamStage::Failed, Wanted::Fail("the server sent a message this proxy could not decode"@)),
        }
    } else if tag.0 == Tag::ERROR_RESPONSE || tag.0 == Tag::NOTICE_RESPONSE {
        match spec_decoded(tag, body) {
            Decoded::Error(message, code) => (
                UpstreamStage::Failed,
                Wanted::Fail(
                    "the server refused the connection: "@ + text_of(message) + " ("@ + text_of(code)
                        + ")"@,
                ),
            ),
            Decoded::Notice(_, _) => (stage, Wanted::Read),
            _ => (UpstreamStage::Failed, Wanted::Fail("the server sent a message this proxy could not decode"@)),
        }
    } else {
        match spec_decode(tag, body) {
            None => (UpstreamStage::Failed, Wanted::Fail("the server sent a message this proxy could not decode"@)),
            Some(BackendMessage::Authentication(request)) => spec_on_auth(stage, request, body),
            Some(BackendMessage::BackendKeyData { .. }) => (stage, Wanted::Read),
            Some(BackendMessage::ReadyForQuery(_)) => if stage == UpstreamStage::Settling {
                (UpstreamStage::Ready, Wanted::Ready)
            } else {
                (
                    UpstreamStage::Failed,
                    Wanted::Fail("the server was ready before it authenticated the connection"@),
                )
            },
            Some(_) => (UpstreamStage::Failed, Wanted::Fail("the server sent something unexpected during startup"@)),
        }
    }
}

/// A step the handshake asks for, checked against the SASL exchange so far:
/// whether an exchange has started after it, and what the driver may do.
///
/// An exchange starts once; a second start fails the connection, and so does
/// a challenge or a result before the start. Anything else passes unchanged.
pub open spec fn spec_sasl_order(sasl: bool, want: Wanted) -> (bool, Wanted) {
    match want {
        Wanted::SaslStart => if sasl {
            (sasl, Wanted::Fail("the server asked for SASL twice"@))
        } else {
            (true, want)
        },
        Wanted::SaslContinue(_) => if sasl {
            (sasl, want)
        } else {
            (sasl, Wanted::Fail("a SASL challenge arrived first"@))
        },
        Wanted::SaslVerify(_) => if sasl {
            (sasl, want)
        } else {
            (sasl, Wanted::Fail("a SASL result arrived first"@))
        },
        _ => (sasl, want),
    }
}

/// Whether the handshake has finished, for good or ill.
pub open spec fn finished(stage: UpstreamStage) -> bool {
    stage == UpstreamStage::Ready || stage == UpstreamStage::Failed
}

/// The `ParameterStatus` set after one more frame: a parameter the server
/// reports before the handshake has finished is appended, as text.
pub open spec fn parameters_after(
    stage: UpstreamStage,
    parameters: Seq<(Seq<char>, Seq<char>)>,
    tag: Tag,
    body: Seq<u8>,
) -> Seq<(Seq<char>, Seq<char>)> {
    if !finished(stage) && tag.0 == Tag::PARAMETER_STATUS {
        match spec_decoded(tag, body) {
            Decoded::Parameter(n, v) => parameters.push((text_of(n), text_of(v))),
            _ => parameters,
        }
    } else {
        parameters
    }
}

/// The server's cancel key after one more frame: a `BackendKeyData` before
/// the handshake has finished replaces it.
pub open spec fn key_after(stage: UpstreamStage, key: Option<(i32, i32)>, tag: Tag, body: Seq<u8>) -> Option<(i32, i32)> {
    if !finished(stage) && tag.0 == Tag::BACKEND_KEY_DATA && body.len() == 8 {
        Some((as_i32(be32(body, 0)), as_i32(be32(body, 4))))
    } else {
        key
    }
}

/// The upstream handshake, as values.
pub struct UpstreamModel {
    /// How far it has got.
    pub stage: UpstreamStage,
    /// The parameters harvested so far, as text.
    pub parameters: Seq<(Seq<char>, Seq<char>)>,
    /// The server's cancel key, once it has sent one.
    pub backend_key: Option<(i32, i32)>,
}

/// The handshake after one more frame, as [`UpstreamHandshake::on_frame`]
/// leaves it.
pub open spec fn model_after_frame(m: UpstreamModel, tag: Tag, body: Seq<u8>) -> UpstreamModel {
    UpstreamModel {
        stage: spec_on_frame(m.stage, tag, body).0,
        parameters: parameters_after(m.stage, m.parameters, tag, body),
        backend_key: key_after(m.stage, m.backend_key, tag, body),
    }
}

/// The handshake after a run of frames, each fed in turn.
pub open spec fn model_after_frames(m: UpstreamModel, frames: Seq<(Tag, Seq<u8>)>) -> UpstreamModel
    decreases frames.len(),
{
    if frames.len() == 0 {
        m
    } else {
        model_after_frames(model_after_frame(m, frames[0].0, frames[0].1), frames.drop_first())
    }
}

/// Whether a run of frames each arrives before the handshake has finished;
/// the last may finish it.
pub open spec fn stays_open(stage: UpstreamStage, frames: Seq<(Tag, Seq<u8>)>) -> bool
    decreases frames.len(),
{
    frames.len() == 0 || (!finished(stage) && stays_open(
        spec_on_frame(stage, frames[0].0, frames[0].1).0,
        frames.drop_first(),
    ))
}

/// The parameters a run of frames reports, in order, as text.
pub open spec fn reported_parameters(frames: Seq<(Tag, Seq<u8>)>) -> Seq<(Seq<char>, Seq<char>)>
    decreases frames.len(),
{
    if frames.len() == 0 {
        Seq::empty()
    } else {
        let rest = reported_parameters(frames.drop_first());
        if frames[0].0.0 == Tag::PARAMETER_STATUS {
            match spec_decoded(frames[0].0, frames[0].1) {
                Decoded::Parameter(n, v) => seq![(text_of(n), text_of(v))] + rest,
                _ => rest,
            }
        } else {
            rest
        }
    }
}

/// The cancel key after a run of frames: the last well-sized
/// `BackendKeyData` in it, or `key` if there is none.
pub open spec fn last_reported_key(key: Option<(i32, i32)>, frames: Seq<(Tag, Seq<u8>)>) -> Option<(i32, i32)>
    decreases frames.len(),
{
    if frames.len() == 0 {
        key
    } else {
        let f = frames[0];
        last_reported_key(
            if f.0.0 == Tag::BACKEND_KEY_DATA && f.1.len() == 8 {
                Some((as_i32(be32(f.1, 0)), as_i32(be32(f.1, 4))))
            } else {
                key
            },
            frames.drop_first(),
        )
    }
}

/// Over a whole exchange that arrives while the handshake is open, the
/// parameters are those it held followed by every parameter the server
/// reported, in the server's order, and the cancel key is the last one the
/// server sent, or the one it held if the server sent none.
pub proof fn law_a_whole_exchange_collects_in_order(m: UpstreamModel, frames: Seq<(Tag, Seq<u8>)>)
    requires
        stays_open(m.stage, frames),
    ensures
        model_after_frames(m, frames).parameters == m.parameters + reported_parameters(frames),
        model_after_frames(m, frames).backend_key == last_reported_key(m.backend_key, frames),
    decreases frames.len(),
{
    if frames.len() == 0 {
        assert(m.parameters + reported_parameters(frames) =~= m.parameters);
    } else {
        let next = model_after_frame(m, frames[0].0, frames[0].1);
        let rest = frames.drop_first();
        law_a_whole_exchange_collects_in_order(next, rest);
        assert(m.parameters + reported_parameters(frames) =~= next.parameters + reported_parameters(rest));
    }
}

/// The upstream handshake.
#[derive(Debug)]
pub struct UpstreamHandshake {
    server: ServerId,
    stage: UpstreamStage,
    sasl: bool,
    parameters: Vec<(String, String)>,
    backend_key: Option<(i32, i32)>,
}

/// `n` in decimal, with a sign when negative.
pub fn signed_decimal_text(n: i32) -> (r: String)
    ensures
        r@ == signed_decimal(n as int),
{
    if n < 0 {
        let magnitude: u32 = if n == -2147483648i32 {
            2147483648u32
        } else {
            (-n) as u32
        };
        let mut s = String::from_str("-");
        let digits = decimal_text(magnitude as u64);
        s.append(digits.as_str());
        proof {
            reveal_strlit("-");
        }
        s
    } else {
        decimal_text(n as u64)
    }
}

impl UpstreamHandshake {
    /// How far it has got.
    pub closed spec fn spec_stage(&self) -> UpstreamStage {
        self.stage
    }

    /// Whether a SASL exchange has started.
    pub closed spec fn spec_sasl_started(&self) -> bool {
        self.sasl
    }

    /// The server it is opening a connection to.
    pub closed spec fn spec_server(&self) -> ServerId {
        self.server
    }

    /// The parameters harvested so far, as text.
    pub closed spec fn spec_parameters(&self) -> Seq<(Seq<char>, Seq<char>)> {
        self.parameters@.map_values(|p: (String, String)| (p.0@, p.1@))
    }

    /// The server's cancel key, once it has sent one.
    pub closed spec fn spec_backend_key(&self) -> Option<(i32, i32)> {
        self.backend_key
    }

    /// Starts a handshake against `server`.
    pub fn new(server: ServerId) -> (r: UpstreamHandshake)
        ensures
            r.spec_stage() == UpstreamStage::Opening,
            !r.spec_sasl_started(),
            r.spec_server() == server,
            r.spec_parameters() == Seq::<(Seq<char>, Seq<char>)>::empty(),
            r.spec_backend_key() is None,
    {
        let r = UpstreamHandshake { server, stage: UpstreamStage::Opening, sasl: false, parameters: Vec::new(), backend_key: None };
        assert(r.spec_parameters() =~= Seq::<(Seq<char>, Seq<char>)>::empty());
        r
    }

    /// The first thing to do: send the startup packet.
    pub fn begin(&mut self) -> (r: Need)
        ensures
            r == Need::Startup,
            final(self).spec_stage() == UpstreamStage::Authenticating,
            final(self).spec_sasl_started() == old(self).spec_sasl_started(),
            final(self).spec_server() == old(self).spec_server(),
            final(self).spec_parameters() == old(self).spec_parameters(),
            final(self).spec_backend_key() == old(self).spec_backend_key(),
    {
        self.stage = UpstreamStage::Authenticating;
        Need::Startup
    }

    /// The `ParameterStatus` set the server reported, in order.
    pub fn parameters(&self) -> (r: &[(String, String)])
        ensures
            r@.map_values(|p: (String, String)| (p.0@, p.1@)) == self.spec_parameters(),
    {
        self.parameters.as_slice()
    }

    /// The server's own cancel key for this connection: what a
    /// `CancelRequest` has to carry, not the key the proxy gave its client.
    pub fn backend_key(&self) -> (r: Option<(i32, i32)>)
        ensures
            r == self.spec_backend_key(),
    {
        self.backend_key
    }

    /// Whether the connection is usable.
    pub fn is_ready(&self) -> (r: bool)
        ensures
            r == (self.spec_stage() == UpstreamStage::Ready),
    {
        matches!(self.stage, UpstreamStage::Ready)
    }

    /// Feeds in one frame from the server.
    pub fn on_frame(&mut self, tag: Tag, body: &[u8]) -> (r: Need)
        ensures
            (final(self).spec_stage(), wanted(r)->0) == spec_on_frame(old(self).spec_stage(), tag, body@),
            wanted(r) is Some,
            final(self).spec_sasl_started() == old(self).spec_sasl_started(),
            final(self).spec_server() == old(self).spec_server(),
            r matches Need::Fail(PoolError::ConnectFailed { server, .. }) ==> server == old(self).spec_server(),
            final(self).spec_parameters() == parameters_after(
                old(self).spec_stage(),
                old(self).spec_parameters(),
                tag,
                body@,
            ),
            final(self).spec_backend_key() == key_after(old(self).spec_stage(), old(self).spec_backend_key(), tag, body@),
    {
        if matches!(self.stage, UpstreamStage::Ready | UpstreamStage::Failed) {
            return self.fail("a message arrived after the handshake had finished");
        }
        let message = match decode(tag, body) {
            Some(m) => m,
            None => return self.fail("the server sent a message this proxy could not decode"),
        };
        match message {
            BackendMessage::Authentication(request) => self.on_auth(request, body),
            BackendMessage::ParameterStatus { name, value } => {
                proof {
                    crate::text::lemma_text_of(name);
                    crate::text::lemma_text_of(value);
                }
                self.parameters.push((name.to_owned(), value.to_owned()));
                proof {
                    assert(self.spec_parameters() =~= old(self).spec_parameters().push((name@, value@)));
                }
                Need::Read
            },
            BackendMessage::BackendKeyData { process_id, secret } => {
                self.backend_key = Some((process_id, secret));
                Need::Read
            },
            BackendMessage::ReadyForQuery(_) => {
                if matches!(self.stage, UpstreamStage::Settling) {
                    self.stage = UpstreamStage::Ready;
                    Need::Ready
                } else {
                    self.fail("the server was ready before it authenticated the connection")
                }
            },
            BackendMessage::ErrorResponse { message, code } => {
                let mut reason = String::from_str("the server refused the connection: ");
                reason.append(message);
                reason.append(" (");
                reason.append(code);
                reason.append(")");
                proof {
                    crate::text::lemma_text_of(message);
                    crate::text::lemma_text_of(code);
                    reveal_strlit("the server refused the connection: ");
                    reveal_strlit(" (");
                    reveal_strlit(")");
                }
                self.fail_owned(reason)
            },
            BackendMessage::NoticeResponse { .. } => Need::Read,
            BackendMessage::Other(_) => self.fail("the server sent something unexpected during startup"),
        }
    }

    /// Checks a step against the SASL exchange so far, before the driver acts
    /// on it: a second start, or a challenge or result before the start,
    /// fails the connection instead.
    pub fn check_sasl_order(&mut self, need: Need) -> (r: Need)
        ensures
            wanted(need) is Some ==> (final(self).spec_sasl_started(), wanted(r)->0) == spec_sasl_order(
                old(self).spec_sasl_started(),
                wanted(need)->0,
            ),
            wanted(need) is None ==> final(self).spec_sasl_started() == old(self).spec_sasl_started(),
            r == need || (r matches Need::Fail(PoolError::ConnectFailed { server, .. }) && server == old(self).spec_server()),
            final(self).spec_stage() == old(self).spec_stage(),
            final(self).spec_server() == old(self).spec_server(),
            final(self).spec_parameters() == old(self).spec_parameters(),
            final(self).spec_backend_key() == old(self).spec_backend_key(),
    {
        let reason = match &need {
            Need::SaslStart => if self.sasl {
                "the server asked for SASL twice"
            } else {
                self.sasl = true;
                return need;
            },
            Need::SaslContinue(_) => if self.sasl {
                return need;
            } else {
                "a SASL challenge arrived first"
            },
            Need::SaslVerify(_) => if self.sasl {
                return need;
            } else {
                "a SASL result arrived first"
            },
            _ => return need,
        };
        Need::Fail(PoolError::ConnectFailed { server: ServerId { host: self.server.host.clone(), port: self.server.port }, reason: reason.to_owned() })
    }

    fn on_auth(&mut self, request: AuthRequest, body: &[u8]) -> (r: Need)
        requires
            !(old(self).spec_stage() == UpstreamStage::Ready || old(self).spec_stage() == UpstreamStage::Failed),
        ensures
            (final(self).spec_stage(), wanted(r)->0) == spec_on_auth(old(self).spec_stage(), request, body@),
            wanted(r) is Some,
            final(self).spec_sasl_started() == old(self).spec_sasl_started(),
            final(self).spec_server() == old(self).spec_server(),
            r matches Need::Fail(PoolError::ConnectFailed { server, .. }) ==> server == old(self).spec_server(),
            final(self).spec_parameters() == old(self).spec_parameters(),
            final(self).spec_backend_key() == old(self).spec_backend_key(),
    {
        let n = body.len();
        match request {
            AuthRequest::Authenticated => {
                self.stage = UpstreamStage::Settling;
                Need::Read
            },
            AuthRequest::CleartextPassword => Need::Password,
            AuthRequest::Sasl => Need::SaslStart,
            AuthRequest::SaslContinue => {
                let rest = if n >= 4 {
                    vstd::slice::slice_subrange(body, 4, n)
                } else {
                    vstd::slice::slice_subrange(body, 0, 0)
                };
                proof {
                    assert(rest@ =~= after_subtype(body@));
                }
                Need::SaslContinue(lossy(rest))
            },
            AuthRequest::SaslFinal => {
                let rest = if n >= 4 {
                    vstd::slice::slice_subrange(body, 4, n)
                } else {
                    vstd::slice::slice_subrange(body, 0, 0)
                };
                proof {
                    assert(rest@ =~= after_subtype(body@));
                }
                Need::SaslVerify(lossy(rest))
            },
            AuthRequest::Md5Password => self.fail("the server asked for md5, which this proxy does not implement"),
            AuthRequest::Other(subtype) => {
                let mut reason = String::from_str("the server asked for authentication method ");
                let number = signed_decimal_text(subtype);
                reason.append(number.as_str());
                reason.append(", which this proxy does not implement");
                proof {
                    reveal_strlit("the server asked for authentication method ");
                    reveal_strlit(", which this proxy does not implement");
                }
                self.fail_owned(reason)
            },
        }
    }

    fn fail(&mut self, reason: &str) -> (r: Need)
        ensures
            final(self).spec_stage() == UpstreamStage::Failed,
            final(self).spec_sasl_started() == old(self).spec_sasl_started(),
            wanted(r) == Some(Wanted::Fail(reason@)),
            r matches Need::Fail(PoolError::ConnectFailed { server, .. }) && server == old(self).spec_server(),
            final(self).spec_server() == old(self).spec_server(),
            final(self).spec_parameters() == old(self).spec_parameters(),
            final(self).spec_backend_key() == old(self).spec_backend_key(),
    {
        self.fail_owned(reason.to_owned())
    }

    fn fail_owned(&mut self, reason: String) -> (r: Need)
        ensures
            final(self).spec_stage() == UpstreamStage::Failed,
            final(self).spec_sasl_started() == old(self).spec_sasl_started(),
            wanted(r) == Some(Wanted::Fail(reason@)),
            r matches Need::Fail(PoolError::ConnectFailed { server, .. }) && server == old(self).spec_server(),
            final(self).spec_server() == old(self).spec_server(),
            final(self).spec_parameters() == old(self).spec_parameters(),
            final(self).spec_backend_key() == old(self).spec_backend_key(),
    {
        self.stage = UpstreamStage::Failed;
        Need::Fail(PoolError::ConnectFailed { server: ServerId { host: self.server.host.clone(), port: self.server.port }, reason })
    }
}

/// A connection is declared usable only after the server authenticated it:
/// `Ready` is reached from collecting parameters, which only
/// `AuthenticationOk` starts.
pub proof fn law_ready_only_after_authentication(stage: UpstreamStage, tag: Tag, body: Seq<u8>)
    ensures
        spec_on_frame(stage, tag, body).0 == UpstreamStage::Ready ==> stage == UpstreamStage::Settling,
        spec_on_frame(stage, tag, body).0 == UpstreamStage::Settling ==> stage == UpstreamStage::Settling
            || spec_decode::<'static>(tag, body) == Some(BackendMessage::<'static>::Authentication(AuthRequest::Authenticated)),
{
}

/// Once the handshake has finished, for good or ill, nothing more is accepted.
pub proof fn law_nothing_after_the_end(stage: UpstreamStage, tag: Tag, body: Seq<u8>)
    requires
        stage == UpstreamStage::Ready || stage == UpstreamStage::Failed,
    ensures
        spec_on_frame(stage, tag, body).0 == UpstreamStage::Failed,
        spec_on_frame(stage, tag, body).1 is Fail,
{
}

/// A SASL exchange that passes [`UpstreamHandshake::check_sasl_order`] is started at most
/// once, and its challenge and result reach the driver only once it has
/// started.
pub proof fn law_a_sasl_exchange_runs_in_order(sasl: bool, want: Wanted)
    ensures
        sasl ==> !(spec_sasl_order(sasl, want).1 is SaslStart),
        !sasl ==> !(spec_sasl_order(sasl, want).1 is SaslContinue),
        !sasl ==> !(spec_sasl_order(sasl, want).1 is SaslVerify),
        spec_sasl_order(sasl, want).0 == (sasl || spec_sasl_order(sasl, want).1 is SaslStart),
{
}

} // verus!
