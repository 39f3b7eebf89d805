use std::sync::Arc;

use pgprox::auth::{
    Progress, SCRAM_SHA_256, SaslProgress, ScramAuth, ScramChallenge, ScramConfig,
    StaticCredentials, TokenAuth,
};
use pgprox::error::{AuthError, AuthRejection, ClientError};
use pgprox::state::StartupInfo;

/// Where a client connected from.
#[derive(Debug, Clone, Copy, PartialEq, Eq)]
struct Addr([u8; 4]);

/// What the resolver hands back, as far as these tests look at it.
#[derive(Debug, Clone, PartialEq, Eq)]
struct Grant {
    tenant: String,
}

fn startup() -> StartupInfo {
    StartupInfo {
        user: "acme_app".to_owned(),
        database: "acme".to_owned(),
        options: Vec::new(),
    }
}

fn machine() -> TokenAuth<Addr> {
    TokenAuth::new(&startup(), Addr([10, 0, 0, 7]))
}

fn grant() -> Grant {
    Grant {
        tenant: "acme".to_owned(),
    }
}

fn password(auth: &mut TokenAuth<Addr>, body: &[u8]) -> Progress<Addr, Grant> {
    auth.on_password(body)
}

fn resolved(
    auth: &mut TokenAuth<Addr>,
    result: Result<Grant, AuthError>,
    expired: bool,
) -> Progress<Addr, Grant> {
    auth.on_resolved(result, expired)
}


#[test]
fn a_password_becomes_a_resolver_request_carrying_the_startup_fields() {
    let mut auth = machine();
    let Progress::Resolve(request) = password(&mut auth, b"a.token.here\0") else {
        panic!("a well-formed token did not reach the resolver");
    };

    assert_eq!(request.token.expose(), "a.token.here");
    assert_eq!(request.startup_user, "acme_app");
    assert_eq!(request.startup_database, "acme");
    assert_eq!(request.client_addr, Addr([10, 0, 0, 7]));
}

#[test]
fn a_password_message_without_its_trailing_null_still_works() {
    // Postgres defines the body as null-terminated, and every driver sends
    // it that way. Being strict here would turn one driver's off-by-one
    // into an authentication failure nobody could diagnose.
    let mut auth = machine();
    let Progress::Resolve(request) = password(&mut auth, b"a.token.here") else {
        panic!("a token without its terminator was refused");
    };
    assert_eq!(request.token.expose(), "a.token.here");
}

#[test]
fn an_empty_password_is_refused_without_asking_the_sidecar() {
    // A flood of empty passwords is the cheapest way to turn a proxy into
    // a load generator pointed at the sidecar.
    for body in [b"".as_slice(), b"\0".as_slice()] {
        let mut auth = machine();
        assert!(
            matches!(
                password(&mut auth, body),
                Progress::Fail(ClientError::AuthRefused(_))
            ),
            "an empty password reached the resolver"
        );
    }
}

#[test]
fn a_non_utf8_password_is_refused_without_asking_the_sidecar() {
    let mut auth = machine();
    assert!(matches!(
        password(&mut auth, &[0xff, 0xfe, 0x00]),
        Progress::Fail(ClientError::AuthRefused(_))
    ));
}

#[test]
fn a_resolved_grant_finishes_the_exchange() {
    let mut auth = machine();
    // Both ends of the flag. Only the second was ever asserted, so a
    // machine that reported itself finished before it had a grant went
    // unnoticed, and that is a session admitted without one.
    assert!(!auth.is_done());
    password(&mut auth, b"a.token.here\0");
    assert!(!auth.is_done());
    let Progress::Ready(resolved) = resolved(&mut auth, Ok(grant()), false) else {
        panic!("a valid grant did not authenticate");
    };
    assert_eq!(resolved.tenant, "acme");
    assert!(auth.is_done());
}

#[test]
fn a_refusal_reaches_the_client_as_one_message_whatever_the_reason() {
    // Telling a caller which part of their credential was wrong is an
    // oracle. The reason survives for the operator, not for the wire.
    for reason in [
        AuthRejection::TokenRejected,
        AuthRejection::TokenExpired,
        AuthRejection::NotPermitted,
    ] {
        let mut auth = machine();
        password(&mut auth, b"a.token.here\0");
        let Progress::Fail(err) =
            resolved(&mut auth, Err(AuthError::Refused(reason)), false)
        else {
            panic!("a refused token authenticated");
        };
        assert_eq!(err.client_message(), "authentication failed");
    }
}

#[test]
fn a_sidecar_that_is_down_is_not_reported_as_a_bad_password() {
    // The distinction matters operationally: one is the client's problem
    // and the other is ours, and a client told "authentication failed"
    // will keep retrying with a token that was fine all along.
    let mut auth = machine();
    password(&mut auth, b"a.token.here\0");
    let Progress::Fail(err) = resolved(&mut auth, 
        Err(AuthError::Unavailable {
            reason: "connection refused".to_owned(),
        }),
        false,
    ) else {
        panic!("an unavailable sidecar authenticated the client");
    };
    assert_eq!(err, ClientError::SidecarUnavailable);
}

#[test]
fn a_grant_that_arrives_already_expired_is_refused() {
    // The cache clamps its TTL to the token's expiry, which stops an
    // expired grant being served from cache. It says nothing about one
    // that arrives expired, and this is the last place that can refuse it.
    let mut auth = machine();
    password(&mut auth, b"a.token.here\0");
    let expired = true;
    assert_eq!(
        match resolved(&mut auth, Ok(grant()), expired) {
            Progress::Fail(err) => err,
            _ => panic!("an expired grant authenticated"),
        },
        ClientError::AuthRefused(AuthRejection::TokenExpired)
    );
}

#[test]
fn a_second_password_message_is_a_protocol_violation() {
    let mut auth = machine();
    password(&mut auth, b"a.token.here\0");
    assert!(matches!(
        password(&mut auth, b"another.token\0"),
        Progress::Fail(ClientError::ProtocolViolation(_))
    ));
}

#[test]
fn an_answer_with_no_request_outstanding_is_a_protocol_violation() {
    // Not reachable from the wire, but reachable from a shell that lost
    // track of its own state, which is the bug worth catching.
    let mut auth = machine();
    assert!(matches!(
        resolved(&mut auth, Ok(grant()), false),
        Progress::Fail(ClientError::ProtocolViolation(_))
    ));
}

#[test]
fn nothing_is_honoured_after_the_exchange_ends() {
    let mut auth = machine();
    password(&mut auth, b"a.token.here\0");
    resolved(&mut auth, Ok(grant()), false);

    assert!(matches!(password(&mut auth, b"x\0"), Progress::Fail(_)));
    assert!(matches!(
        resolved(&mut auth, Ok(grant()), false),
        Progress::Fail(_)
    ));
}


/// A credential store that knows one user and one proof.
///
/// Behaves like the real thing rather than recording calls: it answers a
/// challenge, and it accepts exactly one proof for exactly one auth
/// message, so a machine that assembled the auth message wrongly fails.
#[derive(Debug)]
struct OneUser {
    user: &'static str,
    proof: &'static str,
}

impl StaticCredentials for OneUser {
    fn challenge(&self, user: &str) -> Option<ScramChallenge> {
        (user == self.user).then(|| ScramChallenge {
            salt: "QSXCR+Q6sek8bf92".to_owned(),
            iterations: 4096,
        })
    }

    fn verify(&self, user: &str, auth_message: &str, proof: &str) -> Option<String> {
        // The auth message is checked for shape rather than value: this
        // fake has no crypto, and asserting the three parts are present is
        // what catches a machine that assembled it out of order.
        let parts: Vec<&str> = auth_message.split(',').collect();
        (user == self.user
            && proof == self.proof
            && parts.iter().any(|p| p.starts_with("r="))
            && auth_message.contains(",i=4096,")
            && !auth_message.contains(",p="))
        .then(|| "c2lnbmF0dXJl".to_owned())
    }
}

fn scram() -> ScramAuth<OneUser> {
    ScramAuth::new(
        OneUser {
            user: "pgprox_admin",
            proof: "cHJvb2Y=",
        },
        ScramConfig {
            mock_salt: "bW9ja3NhbHQ=".to_owned(),
            mock_iterations: 4096,
        },
        "pgprox_admin",
        "SERVERNONCE",
    )
}

#[test]
fn credentials_behind_an_arc_answer_the_same_as_the_credentials() {
    // The blanket impl exists so a composition root can share one set of
    // keys between every session, which means the shared path is the one
    // production runs and the bare one is the one tests ran. Forwarding
    // that returned `None` would refuse every login on a real node while
    // every test here passed.
    let one = OneUser {
        user: "pgprox_admin",
        proof: "cHJvb2Y=",
    };
    let shared = Arc::new(OneUser {
        user: "pgprox_admin",
        proof: "cHJvb2Y=",
    });

    assert_eq!(
        shared.challenge("pgprox_admin"),
        one.challenge("pgprox_admin")
    );
    assert!(shared.challenge("pgprox_admin").is_some());
    assert!(shared.challenge("somebody_else").is_none());

    let auth_message = "n=,r=CLIENTNONCE,r=CLIENTNONCESERVERNONCE,s=QSXCR+Q6sek8bf92,i=4096,c=biws,r=CLIENTNONCESERVERNONCE";
    assert_eq!(
        shared.verify("pgprox_admin", auth_message, "cHJvb2Y="),
        one.verify("pgprox_admin", auth_message, "cHJvb2Y="),
    );
    assert_eq!(
        shared.verify("pgprox_admin", auth_message, "cHJvb2Y="),
        Some("c2lnbmF0dXJl".to_owned()),
    );
    assert!(
        shared
            .verify("pgprox_admin", auth_message, "d3Jvbmc=")
            .is_none()
    );
}

fn initial(mechanism: &str, payload: &str) -> Vec<u8> {
    let mut body = mechanism.as_bytes().to_vec();
    body.push(0);
    body.extend_from_slice(&i32::try_from(payload.len()).unwrap().to_be_bytes());
    body.extend_from_slice(payload.as_bytes());
    body
}

#[test]
fn a_correct_proof_completes_the_exchange() {
    let mut auth = scram();
    assert!(!auth.is_done());
    let SaslProgress::Continue(server_first) =
        auth.on_initial(&initial(SCRAM_SHA_256, "n,,n=,r=CLIENTNONCE"))
    else {
        panic!("a well-formed client-first-message was refused");
    };
    // Not after the challenge either: the proof has not arrived yet, and a
    // machine that called itself finished here would let one through.
    assert!(!auth.is_done());
    assert_eq!(
        server_first,
        "r=CLIENTNONCESERVERNONCE,s=QSXCR+Q6sek8bf92,i=4096"
    );

    let final_message = auth.on_response(b"c=biws,r=CLIENTNONCESERVERNONCE,p=cHJvb2Y=");
    assert_eq!(
        final_message,
        SaslProgress::Final("v=c2lnbmF0dXJl".to_owned())
    );
    assert!(auth.is_done());
}

#[test]
fn a_wrong_proof_is_refused_as_an_authentication_failure() {
    let mut auth = scram();
    auth.on_initial(&initial(SCRAM_SHA_256, "n,,n=,r=CLIENTNONCE"));
    assert_eq!(
        auth.on_response(b"c=biws,r=CLIENTNONCESERVERNONCE,p=d3Jvbmc="),
        SaslProgress::Fail(ClientError::AuthRefused(AuthRejection::TokenRejected))
    );
}

#[test]
fn an_unknown_user_is_indistinguishable_from_a_wrong_password() {
    // Postgres calls this mock authentication. A user that failed early,
    // or that got a different salt each attempt, would answer "does this
    // account exist" to anyone who asked.
    let mut known = scram();
    let mut unknown = ScramAuth::new(
        OneUser {
            user: "pgprox_admin",
            proof: "cHJvb2Y=",
        },
        ScramConfig {
            mock_salt: "bW9ja3NhbHQ=".to_owned(),
            mock_iterations: 4096,
        },
        "nobody",
        "SERVERNONCE",
    );

    let first = known.on_initial(&initial(SCRAM_SHA_256, "n,,n=,r=CLIENTNONCE"));
    let other = unknown.on_initial(&initial(SCRAM_SHA_256, "n,,n=,r=CLIENTNONCE"));
    assert!(
        matches!(first, SaslProgress::Continue(_))
            && matches!(other, SaslProgress::Continue(_)),
        "an unknown user was told so before the proof: {other:?}"
    );

    let response = b"c=biws,r=CLIENTNONCESERVERNONCE,p=cHJvb2Y=";
    assert_eq!(
        unknown.on_response(response),
        SaslProgress::Fail(ClientError::AuthRefused(AuthRejection::TokenRejected)),
    );
    assert!(
        matches!(known.on_response(response), SaslProgress::Final(_)),
        "the known user stopped working, so this proves nothing"
    );
}

#[test]
fn the_mock_challenge_is_stable_across_attempts() {
    // A salt that varied per attempt is the same oracle by another route.
    let payload = initial(SCRAM_SHA_256, "n,,n=,r=CLIENTNONCE");
    let mut first = ScramAuth::new(
        OneUser {
            user: "pgprox_admin",
            proof: "cHJvb2Y=",
        },
        ScramConfig {
            mock_salt: "bW9ja3NhbHQ=".to_owned(),
            mock_iterations: 4096,
        },
        "nobody",
        "SERVERNONCE",
    );
    let mut again = ScramAuth::new(
        OneUser {
            user: "pgprox_admin",
            proof: "cHJvb2Y=",
        },
        ScramConfig {
            mock_salt: "bW9ja3NhbHQ=".to_owned(),
            mock_iterations: 4096,
        },
        "nobody",
        "SERVERNONCE",
    );
    assert_eq!(first.on_initial(&payload), again.on_initial(&payload));
}

#[test]
fn channel_binding_is_refused_because_it_was_never_offered() {
    // The proxy terminates TLS, so a binding the client verified would be
    // to the proxy rather than to the database. Offering it would state a
    // guarantee that is not being made.
    let mut auth = scram();
    assert!(matches!(
        auth.on_initial(&initial(
            SCRAM_SHA_256,
            "p=tls-server-end-point,,n=,r=CLIENTNONCE"
        )),
        SaslProgress::Fail(ClientError::ProtocolViolation(_))
    ));
}

#[test]
fn a_mechanism_that_was_not_offered_is_refused() {
    let mut auth = scram();
    assert!(matches!(
        auth.on_initial(&initial("SCRAM-SHA-256-PLUS", "n,,n=,r=CLIENTNONCE")),
        SaslProgress::Fail(ClientError::ProtocolViolation(_))
    ));
}

#[test]
fn a_client_that_did_not_offer_binding_may_still_say_it_supports_it() {
    // The y,, header: a client that knows about channel binding, talking
    // to a server that did not advertise it. Its c= echo differs, and
    // rejecting it would break every modern driver against a proxy that
    // deliberately does not offer PLUS.
    let mut auth = scram();
    assert!(matches!(
        auth.on_initial(&initial(SCRAM_SHA_256, "y,,n=,r=CLIENTNONCE")),
        SaslProgress::Continue(_)
    ));
    assert!(matches!(
        auth.on_response(b"c=eSws,r=CLIENTNONCESERVERNONCE,p=cHJvb2Y="),
        SaslProgress::Final(_)
    ));
}

#[test]
fn echoing_a_different_gs2_header_is_a_downgrade_attempt() {
    let mut auth = scram();
    auth.on_initial(&initial(SCRAM_SHA_256, "y,,n=,r=CLIENTNONCE"));
    assert!(
        matches!(
            auth.on_response(b"c=biws,r=CLIENTNONCESERVERNONCE,p=cHJvb2Y="),
            SaslProgress::Fail(ClientError::ProtocolViolation(_))
        ),
        "a client that changed its gs2 header between messages was accepted"
    );
}

#[test]
fn a_nonce_that_does_not_carry_the_server_part_is_refused() {
    // Without this the exchange is replayable: the server's nonce is the
    // only thing making each one unique.
    let mut auth = scram();
    auth.on_initial(&initial(SCRAM_SHA_256, "n,,n=,r=CLIENTNONCE"));
    assert!(matches!(
        auth.on_response(b"c=biws,r=CLIENTNONCE,p=cHJvb2Y="),
        SaslProgress::Fail(ClientError::ProtocolViolation(_))
    ));
}

#[test]
fn malformed_sasl_messages_are_refused_rather_than_guessed_at() {
    for body in [
        b"".as_slice(),
        b"SCRAM-SHA-256".as_slice(),
        b"SCRAM-SHA-256\0\0\0".as_slice(),
    ] {
        let mut auth = scram();
        assert!(
            matches!(
                auth.on_initial(body),
                SaslProgress::Fail(ClientError::ProtocolViolation(_))
            ),
            "a truncated SASLInitialResponse was accepted: {body:?}"
        );
    }

    let mut truncated = scram();
    let mut body = initial(SCRAM_SHA_256, "n,,n=,r=CLIENTNONCE");
    body.truncate(body.len() - 4);
    assert!(matches!(
        truncated.on_initial(&body),
        SaslProgress::Fail(ClientError::ProtocolViolation(_))
    ));
}

#[test]
fn a_client_first_message_without_a_nonce_is_refused() {
    for payload in ["n,,n=", "n,,n=,r=", "no-commas-here"] {
        let mut auth = scram();
        assert!(
            matches!(
                auth.on_initial(&initial(SCRAM_SHA_256, payload)),
                SaslProgress::Fail(ClientError::ProtocolViolation(_))
            ),
            "{payload} was accepted as a client-first-message"
        );
    }
}

#[test]
fn a_client_final_message_missing_a_field_is_refused() {
    for payload in [
        "r=CLIENTNONCESERVERNONCE,p=cHJvb2Y=",
        "c=biws,p=cHJvb2Y=",
        "c=biws,r=CLIENTNONCESERVERNONCE",
    ] {
        let mut auth = scram();
        auth.on_initial(&initial(SCRAM_SHA_256, "n,,n=,r=CLIENTNONCE"));
        assert!(
            matches!(
                auth.on_response(payload.as_bytes()),
                SaslProgress::Fail(ClientError::ProtocolViolation(_))
            ),
            "{payload} was accepted as a client-final-message"
        );
    }
}

#[test]
fn a_non_utf8_client_final_message_is_refused() {
    let mut auth = scram();
    auth.on_initial(&initial(SCRAM_SHA_256, "n,,n=,r=CLIENTNONCE"));
    assert!(matches!(
        auth.on_response(&[0xff, 0xfe]),
        SaslProgress::Fail(ClientError::ProtocolViolation(_))
    ));
}

#[test]
fn sasl_messages_out_of_sequence_are_refused() {
    let mut early = scram();
    assert!(matches!(
        early.on_response(b"c=biws,r=x,p=y"),
        SaslProgress::Fail(ClientError::ProtocolViolation(_))
    ));

    let mut twice = scram();
    let payload = initial(SCRAM_SHA_256, "n,,n=,r=CLIENTNONCE");
    twice.on_initial(&payload);
    assert!(matches!(
        twice.on_initial(&payload),
        SaslProgress::Fail(ClientError::ProtocolViolation(_))
    ));
}

#[test]
fn a_scram_failure_tells_the_client_exactly_what_a_bad_token_does() {
    // Two authentication paths that answer differently are two oracles.
    let mut auth = scram();
    auth.on_initial(&initial(SCRAM_SHA_256, "n,,n=,r=CLIENTNONCE"));
    let SaslProgress::Fail(err) =
        auth.on_response(b"c=biws,r=CLIENTNONCESERVERNONCE,p=d3Jvbmc=")
    else {
        panic!("a wrong proof authenticated");
    };
    assert_eq!(err.client_message(), "authentication failed");
}

#[test]
fn an_attribute_is_found_by_any_key() {
    assert_eq!(pgprox::auth::field("c=biws,r=abc,p=xyz", 'r'), Some("abc"));
    assert_eq!(pgprox::auth::field("c=biws,r=abc", 'p'), None);
    // A key outside ASCII is matched by its whole encoding.
    assert_eq!(pgprox::auth::field("é=1,r=abc", 'é'), Some("1"));
    assert_eq!(pgprox::auth::field("ér=1,r=abc", 'é'), None);
    // The value runs to the next comma, and an empty one is still a value.
    assert_eq!(pgprox::auth::field("r=,p=x", 'r'), Some(""));
}
