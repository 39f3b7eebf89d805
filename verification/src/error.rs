//! What a client is told when its session cannot go on.
use vstd::prelude::*;

verus! {

/// Why a credential was refused. Kept for the operator; the client is told
/// the same thing whatever the reason, since telling it which part of its
/// credential was wrong is an oracle.
#[derive(Clone, Copy, Debug, PartialEq, Eq, Structural)]
pub enum AuthRejection {
    /// The credential could not be a token at all: empty, or not UTF-8.
    Malformed,
    /// The token's signature or claims were refused.
    TokenRejected,
    /// The token had expired.
    TokenExpired,
    /// The token is valid but does not permit this connection.
    NotPermitted,
}

/// An error reported to a client before its connection closes.
#[derive(Clone, Copy, Debug, PartialEq, Eq)]
pub enum ClientError {
    /// The client broke the protocol.
    ProtocolViolation(&'static str),
    /// The listener requires TLS and the client did not ask for it.
    TlsRequired,
    /// The credential was refused.
    AuthRefused(AuthRejection),
    /// The token resolver could not be reached; not the client's fault.
    SidecarUnavailable,
}

impl ClientError {
    /// The SQLSTATE the client is shown: a protocol violation for a broken
    /// protocol, an invalid authorization specification for missing TLS, an
    /// invalid password for a refused credential, and cannot-connect-now for
    /// a resolver that could not be reached, which a client may retry.
    pub fn code(&self) -> (r: &'static str)
        ensures
            self is ProtocolViolation ==> r == "08P01",
            self is TlsRequired ==> r == "28000",
            self is AuthRefused ==> r == "28P01",
            self is SidecarUnavailable ==> r == "57P03",
    {
        match self {
            ClientError::ProtocolViolation(_) => "08P01",
            ClientError::TlsRequired => "28000",
            ClientError::AuthRefused(_) => "28P01",
            ClientError::SidecarUnavailable => "57P03",
        }
    }

    /// The text the client is shown.
    pub fn client_message(&self) -> (r: &'static str)
        ensures
            self is AuthRefused ==> r == "authentication failed",
            self is TlsRequired ==> r == "this listener requires TLS",
            self is SidecarUnavailable ==> r == "authentication is temporarily unavailable",
            self matches ClientError::ProtocolViolation(what) ==> r == what,
    {
        match self {
            ClientError::ProtocolViolation(what) => what,
            ClientError::TlsRequired => "this listener requires TLS",
            ClientError::AuthRefused(_) => "authentication failed",
            ClientError::SidecarUnavailable => "authentication is temporarily unavailable",
        }
    }
}

/// Why the token resolver gave no grant.
#[derive(Clone, Debug)]
pub enum AuthError {
    /// It refused the token, for this reason.
    Refused(AuthRejection),
    /// It could not be reached.
    Unavailable {
        /// What went wrong, for the operator.
        reason: String,
    },
}

/// What a resolver failure tells the client: a refusal stays a refusal, and
/// an unreachable resolver is reported as such rather than as a bad password.
pub open spec fn spec_client_error_of(err: AuthError) -> ClientError {
    match err {
        AuthError::Refused(r) => ClientError::AuthRefused(r),
        AuthError::Unavailable { .. } => ClientError::SidecarUnavailable,
    }
}

/// Converts a resolver failure into what the client is told.
pub fn client_error_of(err: &AuthError) -> (r: ClientError)
    ensures
        r == spec_client_error_of(*err),
{
    match err {
        AuthError::Refused(r) => ClientError::AuthRefused(*r),
        AuthError::Unavailable { .. } => ClientError::SidecarUnavailable,
    }
}

} // verus!
