//! The connection handshake, as a pure function of state and message.
//!
//! Everything before the first `ReadyForQuery`: the TLS decision, the GSSAPI
//! refusal, protocol version negotiation, and which credential the client is
//! asked for. Every case is a function call here, including the ones that
//! decide whether the proxy is safe to expose: a client that sends
//! `SSLRequest` twice, one that skips it under a TLS requirement, one that
//! asks for protocol 4.0, one whose startup packet has no `user`.
//!
//! It does not read, write or decode. The caller hands it a decoded
//! [`Startup`] and gets back one [`Reply`] saying what to send.
use vstd::prelude::*;
use vstd::string::StringSliceAdditionalSpecFns;

use crate::error::ClientError;
use crate::proto::{
    ConnId, Startup, StartupParam, VersionResponse, negotiate_version, spec_negotiate_version, spec_user,
    spec_database, param_value, option_settings, settings_text, pair_bytes,
};
use crate::startup::{protocol_options, unrecognised_options};
use crate::text::bytes_eq;

verus! {

/// Whether this listener offers, requires, or refuses TLS.
#[derive(Debug, Clone, Copy, PartialEq, Eq, Structural)]
pub enum TlsPosture {
    /// The client must send `SSLRequest` before its startup packet. The only
    /// posture that may carry tokens: the JWT travels in the password field.
    Required,
    /// TLS is accepted if asked for and not required.
    Optional,
    /// TLS is refused. Only sane on a loopback address.
    Disabled,
}

/// Which credential the client is asked for.
#[derive(Debug, Clone, Copy, PartialEq, Eq, Structural)]
pub enum Credential {
    /// `AuthenticationCleartextPassword`, which is how a JWT arrives.
    Jwt,
    /// `AuthenticationSASL`, for a user with a static credential.
    Scram,
}

/// What the caller should send.
#[derive(Debug, Clone, Copy, PartialEq, Eq)]
pub enum Action {
    /// Answer `S` and start the TLS handshake.
    AcceptTls,
    /// Answer `N`. The client decides whether to continue in the clear.
    RefuseTls,
    /// Answer `N` to `GSSENCRequest`. Never supported.
    RefuseGss,
    /// Ask for this credential.
    Ask(Credential),
    /// Forward a cancellation for a connection this proxy issued a key for.
    Cancel(ConnId),
    /// Send an `ErrorResponse` and close.
    Fail(ClientError),
}

/// One step's output.
///
/// `negotiate` travels with an action rather than being one: negotiating and
/// then saying nothing would be a hang rather than an error.
#[derive(Debug, Clone, Copy, PartialEq, Eq)]
pub struct Reply {
    /// Send `NegotiateProtocolVersion` offering this minor version first.
    pub negotiate: Option<i32>,
    /// Then this.
    pub action: Action,
}

/// How far the handshake has got.
#[derive(Debug, Clone, Copy, PartialEq, Eq, Structural)]
pub enum Stage {
    /// Nothing has arrived yet.
    Opening,
    /// TLS has been settled, one way or the other.
    Settled,
    /// A credential has been asked for.
    Asked,
    /// Nothing more may arrive.
    Closed,
}

/// What the client said about itself in its startup packet.
#[derive(Debug, Clone, PartialEq, Eq)]
pub struct StartupInfo {
    /// The `user` parameter.
    pub user: String,
    /// The `database` parameter, defaulting to the user name.
    pub database: String,
    /// Runtime settings packed into `options`, notably `search_path`.
    pub options: Vec<(String, String)>,
}

/// How the handshake behaves.
#[derive(Debug, Clone)]
pub struct HandshakeConfig {
    /// Whether TLS is required, offered, or refused.
    pub tls: TlsPosture,
    /// Startup users that authenticate with SCRAM against a local credential
    /// rather than with a token.
    pub static_users: Vec<String>,
}

impl Default for HandshakeConfig {
    /// Required rather than optional: the default posture of a listener that
    /// carries tokens is the safe one.
    fn default() -> (r: HandshakeConfig)
        ensures
            r.tls == TlsPosture::Required,
            r.static_users@.len() == 0,
    {
        HandshakeConfig { tls: TlsPosture::Required, static_users: Vec::new() }
    }
}

/// What the client's startup packet said, as values.
pub struct StartupModel {
    /// The user, as text.
    pub user: Seq<char>,
    /// The database, as text.
    pub database: Seq<char>,
    /// The runtime settings, as bytes.
    pub options: Seq<(Seq<u8>, Seq<u8>)>,
}

/// The handshake, as a value.
pub struct HandshakeModel {
    /// The listener's TLS posture.
    pub posture: TlsPosture,
    /// The static users, as text.
    pub static_users: Seq<Seq<char>>,
    /// How far it has got.
    pub stage: Stage,
    /// Whether the connection is encrypted.
    pub tls: bool,
    /// What the startup packet said, once it has arrived.
    pub startup: Option<StartupModel>,
}

/// The handshake state machine.
#[derive(Debug, Clone)]
pub struct Handshake {
    config: HandshakeConfig,
    stage: Stage,
    tls: bool,
    startup: Option<StartupInfo>,
}

/// A startup packet's contents as values.
pub open spec fn startup_model(info: StartupInfo) -> StartupModel {
    StartupModel { user: info.user@, database: info.database@, options: pair_bytes(info.options@) }
}

impl View for Handshake {
    type V = HandshakeModel;

    closed spec fn view(&self) -> HandshakeModel {
        HandshakeModel {
            posture: self.config.tls,
            static_users: self.config.static_users@.map_values(|u: String| u@),
            stage: self.stage,
            tls: self.tls,
            startup: match self.startup {
                Some(info) => Some(startup_model(info)),
                None => None,
            },
        }
    }
}

/// A reply with nothing to negotiate.
pub open spec fn just(action: Action) -> Reply {
    Reply { negotiate: None, action }
}

/// Closes the handshake with this error.
pub open spec fn failed(h: HandshakeModel, error: ClientError) -> (HandshakeModel, Reply) {
    (HandshakeModel { stage: Stage::Closed, ..h }, just(Action::Fail(error)))
}

/// Whether the answer to a startup packet opens with
/// `NegotiateProtocolVersion`, and with which minor version: for a later
/// minor version of 3, and for any packet that names a protocol option, since
/// saying nothing would tell the client its options were accepted.
pub open spec fn negotiation(answer: VersionResponse, params: Seq<StartupParam>) -> Option<i32> {
    match answer {
        VersionResponse::Negotiate { minor } => Some(minor),
        _ => if protocol_options(params).len() > 0 {
            Some(0)
        } else {
            None
        },
    }
}

/// What a startup packet carrying these parameters makes of the handshake,
/// once the stage and TLS checks have passed.
pub open spec fn on_startup_packet(h: HandshakeModel, version: i32, params: Seq<StartupParam>) -> (HandshakeModel, Reply) {
    match spec_negotiate_version(version) {
        VersionResponse::Unsupported => failed(h, ClientError::ProtocolViolation("unsupported protocol major version")),
        answer => match spec_user(params) {
            None => failed(h, ClientError::ProtocolViolation("startup packet has no user parameter")),
            Some(user) => match spec_database(params) {
                None => failed(h, ClientError::ProtocolViolation("startup packet has no database parameter")),
                Some(database) => {
                    let credential = if h.static_users.contains(user@) {
                        Credential::Scram
                    } else {
                        Credential::Jwt
                    };
                    (
                        HandshakeModel {
                            stage: Stage::Asked,
                            startup: Some(
                                StartupModel {
                                    user: user@,
                                    database: database@,
                                    options: match param_value(params, "options".spec_bytes()) {
                                        Some(v) => settings_text(option_settings(v.spec_bytes(), 0)),
                                        None => Seq::empty(),
                                    },
                                },
                            ),
                            ..h
                        },
                        Reply { negotiate: negotiation(answer, params), action: Action::Ask(credential) },
                    )
                },
            },
        },
    }
}

/// One first-phase message through the handshake.
///
/// `SSLRequest` settles TLS, and only as the first thing; it is accepted
/// unless TLS is disabled. `GSSENCRequest` is refused without moving on, so
/// the client may still ask for TLS. A `CancelRequest` is a whole
/// connection's conversation and closes it, but not mid-handshake. A startup
/// packet may come once, is refused in the clear where TLS is required
/// whatever its version, and otherwise asks for a credential. A refusal
/// closes the handshake.
pub open spec fn spec_on_startup(h: HandshakeModel, message: Startup) -> (HandshakeModel, Reply) {
    match message {
        Startup::SslRequest => if h.stage != Stage::Opening {
            failed(h, ClientError::ProtocolViolation("SSLRequest arrived after the handshake had moved on"))
        } else if h.posture == TlsPosture::Disabled {
            (HandshakeModel { stage: Stage::Settled, ..h }, just(Action::RefuseTls))
        } else {
            (HandshakeModel { stage: Stage::Settled, tls: true, ..h }, just(Action::AcceptTls))
        },
        Startup::GssEncRequest => if h.stage == Stage::Asked || h.stage == Stage::Closed {
            failed(h, ClientError::ProtocolViolation("GSSENCRequest arrived after the handshake had moved on"))
        } else {
            (h, just(Action::RefuseGss))
        },
        Startup::CancelRequest { conn } => if h.stage == Stage::Asked || h.stage == Stage::Closed {
            failed(h, ClientError::ProtocolViolation("CancelRequest arrived mid-handshake"))
        } else {
            (HandshakeModel { stage: Stage::Closed, ..h }, just(Action::Cancel(conn)))
        },
        Startup::StartupMessage { version, params } => if h.stage == Stage::Asked || h.stage
            == Stage::Closed {
            failed(h, ClientError::ProtocolViolation("a second startup packet arrived"))
        } else if h.posture == TlsPosture::Required && !h.tls {
            failed(h, ClientError::TlsRequired)
        } else {
            on_startup_packet(h, version, params@)
        },
    }
}

impl Handshake {
    /// Starts a handshake for a newly accepted connection.
    pub fn new(config: HandshakeConfig) -> (r: Handshake)
        ensures
            r@.posture == config.tls,
            r@.static_users == config.static_users@.map_values(|u: String| u@),
            r@.stage == Stage::Opening,
            !r@.tls,
            r@.startup is None,
    {
        Handshake { config, stage: Stage::Opening, tls: false, startup: None }
    }

    /// Whether the connection is encrypted.
    pub fn is_encrypted(&self) -> (r: bool)
        ensures
            r == self@.tls,
    {
        self.tls
    }

    /// What the client said about itself, once its startup packet has arrived.
    pub fn startup(&self) -> (r: Option<&StartupInfo>)
        ensures
            match r {
                Some(info) => self@.startup == Some(startup_model(*info)),
                None => self@.startup is None,
            },
    {
        match &self.startup {
            Some(info) => Some(info),
            None => None,
        }
    }

    /// Whether the handshake has finished, successfully or not.
    pub fn is_closed(&self) -> (r: bool)
        ensures
            r == (self@.stage == Stage::Closed),
    {
        matches!(self.stage, Stage::Closed)
    }

    /// Whether a credential has been asked for and not yet supplied.
    pub fn is_awaiting_credential(&self) -> (r: bool)
        ensures
            r == (self@.stage == Stage::Asked),
    {
        matches!(self.stage, Stage::Asked)
    }

    /// Feeds one decoded first-phase message in.
    pub fn on_startup(&mut self, message: &Startup) -> (r: Reply)
        ensures
            (final(self)@, r) == spec_on_startup(old(self)@, *message),
    {
        match message {
            Startup::SslRequest => self.on_ssl_request(),
            Startup::GssEncRequest => self.on_gss_request(),
            Startup::CancelRequest { conn } => self.on_cancel(*conn),
            Startup::StartupMessage { version, .. } => self.on_message(*version, message),
        }
    }

    fn on_ssl_request(&mut self) -> (r: Reply)
        ensures
            (final(self)@, r) == spec_on_startup(old(self)@, Startup::SslRequest),
    {
        if !matches!(self.stage, Stage::Opening) {
            return self.violation("SSLRequest arrived after the handshake had moved on");
        }
        self.stage = Stage::Settled;
        if matches!(self.config.tls, TlsPosture::Disabled) {
            return Reply { negotiate: None, action: Action::RefuseTls };
        }
        self.tls = true;
        Reply { negotiate: None, action: Action::AcceptTls }
    }

    fn on_gss_request(&mut self) -> (r: Reply)
        ensures
            (final(self)@, r) == spec_on_startup(old(self)@, Startup::GssEncRequest),
    {
        if matches!(self.stage, Stage::Asked | Stage::Closed) {
            return self.violation("GSSENCRequest arrived after the handshake had moved on");
        }
        Reply { negotiate: None, action: Action::RefuseGss }
    }

    fn on_cancel(&mut self, conn: ConnId) -> (r: Reply)
        ensures
            (final(self)@, r) == spec_on_startup(old(self)@, Startup::CancelRequest { conn }),
    {
        if matches!(self.stage, Stage::Asked | Stage::Closed) {
            return self.violation("CancelRequest arrived mid-handshake");
        }
        self.stage = Stage::Closed;
        Reply { negotiate: None, action: Action::Cancel(conn) }
    }

    fn on_message(&mut self, version: i32, message: &Startup) -> (r: Reply)
        requires
            message matches Startup::StartupMessage { version: v, .. } && v == version,
        ensures
            (final(self)@, r) == spec_on_startup(old(self)@, *message),
    {
        if matches!(self.stage, Stage::Asked | Stage::Closed) {
            return self.violation("a second startup packet arrived");
        }
        if matches!(self.config.tls, TlsPosture::Required) && !self.tls {
            return self.fail(ClientError::TlsRequired);
        }
        let negotiate = match negotiate_version(version) {
            VersionResponse::Accept => {
                let named = unrecognised_options(message);
                if named.len() > 0 {
                    Some(0)
                } else {
                    None
                }
            },
            VersionResponse::Negotiate { minor } => Some(minor),
            VersionResponse::Unsupported => {
                return self.violation("unsupported protocol major version");
            },
        };
        let user = match message.user() {
            Some(u) => u,
            None => {
                return self.violation("startup packet has no user parameter");
            },
        };
        let database = match message.database() {
            Some(d) => d,
            None => {
                return self.violation("startup packet has no database parameter");
            },
        };
        let credential = if self.is_static_user(user) {
            Credential::Scram
        } else {
            Credential::Jwt
        };
        let options = message.options();
        let ghost options_view = options@;
        self.startup = Some(StartupInfo { user: user.to_owned(), database: database.to_owned(), options });
        self.stage = Stage::Asked;
        proof {
            let ghost params = match message {
                Startup::StartupMessage { params, .. } => params@,
                _ => Seq::empty(),
            };
            let (m, rep) = on_startup_packet(old(self)@, version, params);
            assert(self@.static_users == old(self)@.static_users);
            assert(self@.stage == m.stage);
            assert(self@.tls == m.tls);
            assert(self@.posture == m.posture);
            match param_value(params, "options".spec_bytes()) {
                Some(v) => {},
                None => {
                    assert(pair_bytes(options_view) =~= Seq::<(Seq<u8>, Seq<u8>)>::empty());
                },
            }
            assert(self@.startup == m.startup);
            assert(rep == Reply { negotiate, action: Action::Ask(credential) });
        }
        Reply { negotiate, action: Action::Ask(credential) }
    }

    fn is_static_user(&self, user: &str) -> (r: bool)
        ensures
            r == self@.static_users.contains(user@),
    {
        let mut i: usize = 0;
        while i < self.config.static_users.len()
            invariant
                i <= self.config.static_users@.len(),
                forall|k: int| 0 <= k < i ==> self.config.static_users@[k]@ != user@,
            decreases self.config.static_users@.len() - i,
        {
            let u = self.config.static_users[i].as_str();
            if bytes_eq(u.as_bytes(), user.as_bytes()) {
                proof {
                    vstd::utf8::encode_utf8_decode_utf8(u@);
                    vstd::utf8::encode_utf8_decode_utf8(user@);
                    assert(self@.static_users[i as int] == user@);
                }
                return true;
            }
            proof {
                assert(self.config.static_users@[i as int]@ != user@);
            }
            i = i + 1;
        }
        proof {
            if self@.static_users.contains(user@) {
                let k = choose|k: int| 0 <= k < self@.static_users.len() && self@.static_users[k] == user@;
                assert(self.config.static_users@[k]@ == user@);
            }
        }
        false
    }

    fn violation(&mut self, what: &'static str) -> (r: Reply)
        ensures
            (final(self)@, r) == failed(old(self)@, ClientError::ProtocolViolation(what)),
    {
        self.fail(ClientError::ProtocolViolation(what))
    }

    fn fail(&mut self, error: ClientError) -> (r: Reply)
        ensures
            (final(self)@, r) == failed(old(self)@, error),
    {
        self.stage = Stage::Closed;
        Reply { negotiate: None, action: Action::Fail(error) }
    }
}

// ---------------------------------------------------------------------------
// What the handshake promises
// ---------------------------------------------------------------------------

/// Whatever a client sends, in whatever order, a listener that requires TLS
/// never asks for a credential over an unencrypted connection.
///
/// The property the token design rests on: the JWT travels in the password
/// field, so asking for it in the clear hands a bearer token to anyone on the
/// path.
pub proof fn law_a_credential_is_never_asked_for_in_the_clear(h: HandshakeModel, message: Startup)
    requires
        h.posture == TlsPosture::Required,
    ensures
        spec_on_startup(h, message).1.action is Ask ==> spec_on_startup(h, message).0.tls,
{
}

/// A startup packet that names a protocol option and is answered with a
/// request for a credential is answered with `NegotiateProtocolVersion`
/// first, whatever version it asked for: the option is declined, not the
/// client.
pub proof fn law_a_protocol_option_is_never_accepted_by_silence(h: HandshakeModel, message: Startup)
    requires
        message matches Startup::StartupMessage { params, .. } && protocol_options(params@).len() > 0,
    ensures
        spec_on_startup(h, message).1.action is Ask ==> spec_on_startup(h, message).1.negotiate == Some(0i32),
{
}

/// Once the handshake has closed, every further message is refused and it
/// stays closed.
pub proof fn law_everything_after_the_end_is_refused(h: HandshakeModel, message: Startup)
    requires
        h.stage == Stage::Closed,
    ensures
        spec_on_startup(h, message).1.action is Fail,
        spec_on_startup(h, message).0.stage == Stage::Closed,
{
}

/// A connection becomes encrypted only by accepting an `SSLRequest`, and
/// never stops being so.
pub proof fn law_encryption_is_only_gained_by_asking(h: HandshakeModel, message: Startup)
    ensures
        h.tls ==> spec_on_startup(h, message).0.tls,
        !h.tls && spec_on_startup(h, message).0.tls ==> message is SslRequest
            && spec_on_startup(h, message).1.action == Action::AcceptTls,
{
}

/// The handshake after a run of first-phase messages, each fed in turn.
pub open spec fn spec_run_startup(h: HandshakeModel, messages: Seq<Startup>) -> HandshakeModel
    decreases messages.len(),
{
    if messages.len() == 0 {
        h
    } else {
        spec_run_startup(spec_on_startup(h, messages[0]).0, messages.drop_first())
    }
}

/// Whether some message of a run was answered by accepting TLS.
pub open spec fn tls_accepted_in(h: HandshakeModel, messages: Seq<Startup>) -> bool
    decreases messages.len(),
{
    if messages.len() == 0 {
        false
    } else {
        spec_on_startup(h, messages[0]).1.action == Action::AcceptTls || tls_accepted_in(
            spec_on_startup(h, messages[0]).0,
            messages.drop_first(),
        )
    }
}

/// Over any run of messages, a connection that started in the clear is
/// encrypted afterwards exactly when some message in the run was answered
/// by accepting TLS; a listener with TLS disabled never accepts it, so its
/// connections stay in the clear.
pub proof fn law_encrypted_exactly_when_tls_was_accepted(h: HandshakeModel, messages: Seq<Startup>)
    requires
        !h.tls,
    ensures
        spec_run_startup(h, messages).tls == tls_accepted_in(h, messages),
        h.posture == TlsPosture::Disabled ==> !spec_run_startup(h, messages).tls,
    decreases messages.len(),
{
    if messages.len() > 0 {
        let (next, reply) = spec_on_startup(h, messages[0]);
        law_encryption_is_only_gained_by_asking(h, messages[0]);
        assert(next.posture == h.posture);
        if next.tls {
            lemma_encryption_stays(next, messages.drop_first());
            assert(reply.action == Action::AcceptTls);
        } else {
            law_encrypted_exactly_when_tls_was_accepted(next, messages.drop_first());
            assert(reply.action != Action::AcceptTls);
        }
    }
}

/// An encrypted connection stays encrypted over any run.
proof fn lemma_encryption_stays(h: HandshakeModel, messages: Seq<Startup>)
    requires
        h.tls,
    ensures
        spec_run_startup(h, messages).tls,
    decreases messages.len(),
{
    if messages.len() > 0 {
        law_encryption_is_only_gained_by_asking(h, messages[0]);
        lemma_encryption_stays(spec_on_startup(h, messages[0]).0, messages.drop_first());
    }
}

} // verus!
