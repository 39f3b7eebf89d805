//! Checking the credential the handshake asked for.
//!
//! Two paths. [`TokenAuth`] is the ordinary one: the client answered
//! `AuthenticationCleartextPassword` with a token, which a resolver checks.
//! [`ScramAuth`] is how an admin client reaches the `SHOW` pseudo-database with
//! a static credential.
//!
//! Resolving a token is I/O, so the machine emits [`Progress::Resolve`] and the
//! answer comes back through [`TokenAuth::on_resolved`]. The SCRAM arithmetic
//! belongs to whoever implements [`StaticCredentials`]; this module owns the
//! message sequence and nothing else.
use vstd::prelude::*;
use vstd::string::*;

use crate::error::{AuthError, AuthRejection, ClientError, client_error_of, spec_client_error_of};
use crate::proto::{be32, read_be32, str_eq};
use crate::text::{
    ascii_cut, find_byte, lemma_find_byte, exec_find_byte, str_from_utf8, substr, text_of, lemma_text_of,
};

verus! {

// ---------------------------------------------------------------------------
// Tokens
// ---------------------------------------------------------------------------

/// A credential that must not be printed: it has no `Debug`, so nothing that
/// holds one can be logged by accident.
#[derive(Clone)]
pub struct SecretString {
    text: String,
}

impl SecretString {
    /// Its text.
    pub closed spec fn spec_text(&self) -> Seq<char> {
        self.text@
    }

    /// Wraps a credential.
    pub fn new(text: &str) -> (r: SecretString)
        ensures
            r.spec_text() == text@,
    {
        SecretString { text: text.to_owned() }
    }

    /// The credential, for the one place that has to send it.
    pub fn expose(&self) -> (r: &str)
        ensures
            r@ == self.spec_text(),
    {
        self.text.as_str()
    }
}

/// What the resolver is asked: the token and what the client said about
/// itself.
pub struct AuthRequest<A> {
    /// The token.
    pub token: SecretString,
    /// The database the client asked for.
    pub startup_database: String,
    /// The user the client gave.
    pub startup_user: String,
    /// Where the client connected from.
    pub client_addr: A,
}

/// What the shell should do next in a token exchange.
pub enum Progress<A, G> {
    /// Ask the resolver, then feed the answer to [`TokenAuth::on_resolved`].
    Resolve(AuthRequest<A>),
    /// Authentication succeeded with this grant.
    Ready(G),
    /// Send an `ErrorResponse` and close.
    Fail(ClientError),
}

/// How far the token exchange has got.
#[derive(Debug, Clone, Copy, PartialEq, Eq, Structural)]
pub enum TokenStage {
    /// Waiting for the client's `PasswordMessage`.
    AwaitingPassword,
    /// The request is out with the resolver.
    Resolving,
    /// Finished, one way or the other.
    Done,
}

/// The token exchange.
#[derive(Debug, Clone)]
pub struct TokenAuth<A> {
    user: String,
    database: String,
    client_addr: A,
    stage: TokenStage,
}

/// `body` without one trailing null byte, if it has one.
pub open spec fn strip_null(body: Seq<u8>) -> Seq<u8> {
    if body.len() > 0 && body[body.len() - 1] == 0 {
        body.drop_last()
    } else {
        body
    }
}

impl<A: Copy> TokenAuth<A> {
    /// How far it has got.
    pub closed spec fn spec_stage(&self) -> TokenStage {
        self.stage
    }

    /// The user from the startup packet.
    pub closed spec fn spec_user(&self) -> Seq<char> {
        self.user@
    }

    /// The database from the startup packet.
    pub closed spec fn spec_database(&self) -> Seq<char> {
        self.database@
    }

    /// Where the client connected from.
    pub closed spec fn spec_client_addr(&self) -> A {
        self.client_addr
    }

    /// Starts the exchange for a client whose startup packet has been read.
    pub fn new(startup: &crate::state::StartupInfo, client_addr: A) -> (r: TokenAuth<A>)
        ensures
            r.spec_stage() == TokenStage::AwaitingPassword,
            r.spec_user() == startup.user@,
            r.spec_database() == startup.database@,
            r.spec_client_addr() == client_addr,
    {
        TokenAuth {
            user: startup.user.clone(),
            database: startup.database.clone(),
            client_addr,
            stage: TokenStage::AwaitingPassword,
        }
    }

    /// Whether the exchange has finished.
    pub fn is_done(&self) -> (r: bool)
        ensures
            r == (self.spec_stage() == TokenStage::Done),
    {
        matches!(self.stage, TokenStage::Done)
    }

    /// Feeds in the body of a `PasswordMessage`.
    ///
    /// The body is a null-terminated string; the null is stripped here. An
    /// empty or non-UTF-8 password cannot be a token, so it is refused without
    /// spending a resolver call on it.
    pub fn on_password<G>(&mut self, body: &[u8]) -> (r: Progress<A, G>)
        ensures
            final(self).spec_user() == old(self).spec_user(),
            final(self).spec_database() == old(self).spec_database(),
            final(self).spec_client_addr() == old(self).spec_client_addr(),
            old(self).spec_stage() != TokenStage::AwaitingPassword ==> final(self).spec_stage()
                == TokenStage::Done && r == Progress::<A, G>::Fail(
                ClientError::ProtocolViolation("a second password message arrived"),
            ),
            old(self).spec_stage() == TokenStage::AwaitingPassword && (!vstd::utf8::valid_utf8(
                strip_null(body@),
            ) || strip_null(body@).len() == 0) ==> final(self).spec_stage() == TokenStage::Done
                && r == Progress::<A, G>::Fail(ClientError::AuthRefused(AuthRejection::Malformed)),
            old(self).spec_stage() == TokenStage::AwaitingPassword && vstd::utf8::valid_utf8(
                strip_null(body@),
            ) && strip_null(body@).len() > 0 ==> final(self).spec_stage() == TokenStage::Resolving
                && (r matches Progress::Resolve(request) && request.token.spec_text() == text_of(
                strip_null(body@),
            ) && request.startup_user@ == old(self).spec_user() && request.startup_database@
                == old(self).spec_database() && request.client_addr == old(self).spec_client_addr()),
    {
        if !matches!(self.stage, TokenStage::AwaitingPassword) {
            self.stage = TokenStage::Done;
            return Progress::Fail(ClientError::ProtocolViolation("a second password message arrived"));
        }
        let n = body.len();
        let text = if n > 0 && body[n - 1] == 0 {
            vstd::slice::slice_subrange(body, 0, n - 1)
        } else {
            body
        };
        proof {
            assert(text@ =~= strip_null(body@));
        }
        let token = match str_from_utf8(text) {
            Some(t) => t,
            None => {
                self.stage = TokenStage::Done;
                return Progress::Fail(ClientError::AuthRefused(AuthRejection::Malformed));
            },
        };
        if text.len() == 0 {
            self.stage = TokenStage::Done;
            return Progress::Fail(ClientError::AuthRefused(AuthRejection::Malformed));
        }
        proof {
            lemma_text_of(token);
        }
        self.stage = TokenStage::Resolving;
        Progress::Resolve(
            AuthRequest {
                token: SecretString::new(token),
                startup_database: self.database.clone(),
                startup_user: self.user.clone(),
                client_addr: self.client_addr,
            },
        )
    }

    /// Feeds in what the resolver said.
    ///
    /// `expired` is whether the grant in `result`, if it holds one, has
    /// expired at the time of the check: a grant that arrives already expired
    /// is refused here, the last place that can refuse it.
    pub fn on_resolved<G>(&mut self, result: Result<G, AuthError>, expired: bool) -> (r: Progress<A, G>)
        ensures
            final(self).spec_stage() == TokenStage::Done,
            final(self).spec_user() == old(self).spec_user(),
            final(self).spec_database() == old(self).spec_database(),
            final(self).spec_client_addr() == old(self).spec_client_addr(),
            old(self).spec_stage() != TokenStage::Resolving ==> r == Progress::<A, G>::Fail(
                ClientError::ProtocolViolation("a resolver answer arrived with no request outstanding"),
            ),
            old(self).spec_stage() == TokenStage::Resolving ==> match result {
                Err(e) => r == Progress::<A, G>::Fail(spec_client_error_of(e)),
                Ok(g) => if expired {
                    r == Progress::<A, G>::Fail(ClientError::AuthRefused(AuthRejection::TokenExpired))
                } else {
                    r == Progress::<A, G>::Ready(g)
                },
            },
    {
        if !matches!(self.stage, TokenStage::Resolving) {
            self.stage = TokenStage::Done;
            return Progress::Fail(
                ClientError::ProtocolViolation("a resolver answer arrived with no request outstanding"),
            );
        }
        self.stage = TokenStage::Done;
        match result {
            Err(err) => Progress::Fail(client_error_of(&err)),
            Ok(grant) => if expired {
                Progress::Fail(ClientError::AuthRefused(AuthRejection::TokenExpired))
            } else {
                Progress::Ready(grant)
            },
        }
    }
}

/// Whether a grant that stops being valid at `expires_at`, if it says when,
/// has expired at `now`: at that instant or after it. Instants are
/// nanoseconds from the UNIX epoch, negative before it.
pub open spec fn spec_has_expired(expires_at: Option<i128>, now: i128) -> bool {
    match expires_at {
        Some(at) => at <= now,
        None => false,
    }
}

/// Whether a grant has expired at `now`, which is what
/// [`TokenAuth::on_resolved`] is told. A grant that does not say when it
/// stops being valid never expires here.
pub fn has_expired(expires_at: Option<i128>, now: i128) -> (r: bool)
    ensures
        r == spec_has_expired(expires_at, now),
{
    match expires_at {
        Some(at) => at <= now,
        None => false,
    }
}

/// A grant that stops being valid at a later instant than `now` is still
/// good, one whose instant has come or passed is refused, and one that names
/// no instant never expires here; and once a grant has expired it stays
/// expired at every later instant.
pub proof fn law_a_grant_expires_when_its_instant_arrives(at: i128, now: i128, later: i128)
    ensures
        now < at ==> !spec_has_expired(Some(at), now),
        at <= now ==> spec_has_expired(Some(at), now),
        !spec_has_expired(None, now),
        now <= later && spec_has_expired(Some(at), now) ==> spec_has_expired(Some(at), later),
{
}

// ---------------------------------------------------------------------------
// SCRAM messages
// ---------------------------------------------------------------------------

/// The mechanism this proxy offers. Exactly one: channel binding would tie
/// the exchange to a TLS session the proxy itself terminates.
pub const SCRAM_SHA_256: &'static str = "SCRAM-SHA-256";

/// The base64 of a `n,,` gs2 header, which the client echoes in `c=`.
pub const GS2_NO_BINDING: &'static str = "biws";

/// The same for a `y,,` header: a client that supports binding, talking to a
/// server that did not offer it.
pub const GS2_BINDING_NOT_OFFERED: &'static str = "eSws";

/// Where a `SASLInitialResponse` body's mechanism and payload lie: a
/// null-terminated mechanism name, a big-endian length that is not negative,
/// and that many payload bytes, both parts UTF-8.
pub open spec fn spec_split_sasl_initial(b: Seq<u8>) -> Option<(Seq<u8>, Seq<u8>)> {
    match find_byte(b, 0, 0) {
        None => None,
        Some(end) => {
            let at = end + 1;
            if b.len() - at < 4 || be32(b, at) >= 0x8000_0000 || be32(b, at) > b.len() - at - 4 {
                None
            } else {
                let mechanism = b.subrange(0, end);
                let payload = b.subrange(at + 4, at + 4 + be32(b, at));
                if vstd::utf8::valid_utf8(mechanism) && vstd::utf8::valid_utf8(payload) {
                    Some((mechanism, payload))
                } else {
                    None
                }
            }
        },
    }
}

/// Splits a `SASLInitialResponse` body into its mechanism and payload.
pub fn split_sasl_initial(body: &[u8]) -> (r: Option<(&str, &str)>)
    ensures
        match spec_split_sasl_initial(body@) {
            Some((m, p)) => r matches Some((rm, rp)) && rm.spec_bytes() == m && rp.spec_bytes() == p,
            None => r is None,
        },
{
    let n = body.len();
    proof {
        lemma_find_byte(body@, 0, 0);
    }
    let end = match exec_find_byte(body, 0, 0) {
        Some(e) => e,
        None => return None,
    };
    let at = end + 1;
    if n - at < 4 {
        return None;
    }
    let len = read_be32(body, at);
    if len >= 0x8000_0000 || (len as usize) > n - at - 4 {
        return None;
    }
    let mechanism = match str_from_utf8(vstd::slice::slice_subrange(body, 0, end)) {
        Some(m) => m,
        None => return None,
    };
    let payload = match str_from_utf8(vstd::slice::slice_subrange(body, at + 4, at + 4 + len as usize)) {
        Some(p) => p,
        None => return None,
    };
    Some((mechanism, payload))
}

/// Where a client-first-message's gs2 flag ends and its bare part starts:
/// the flag runs to the first comma, and the bare part follows the second.
pub open spec fn spec_split_gs2(s: Seq<u8>) -> Option<(int, int)> {
    match find_byte(s, 0x2c, 0) {
        None => None,
        Some(c1) => match find_byte(s, 0x2c, c1 + 1) {
            None => None,
            Some(c2) => Some((c1, c2 + 1)),
        },
    }
}

/// Splits a client-first-message into its gs2 flag and its bare part.
pub fn split_gs2(message: &str) -> (r: Option<(&str, &str)>)
    ensures
        match spec_split_gs2(message.spec_bytes()) {
            Some((c1, b0)) => r matches Some((flag, bare)) && flag.spec_bytes()
                == message.spec_bytes().subrange(0, c1) && bare.spec_bytes()
                == message.spec_bytes().subrange(b0, message.spec_bytes().len() as int),
            None => r is None,
        },
{
    let s = message.as_bytes();
    let n = s.len();
    proof {
        lemma_find_byte(s@, 0x2c, 0);
    }
    let c1 = match exec_find_byte(s, 0x2c, 0) {
        Some(c) => c,
        None => return None,
    };
    proof {
        lemma_find_byte(s@, 0x2c, c1 + 1);
    }
    let c2 = match exec_find_byte(s, 0x2c, c1 + 1) {
        Some(c) => c,
        None => return None,
    };
    let flag = substr(message, 0, c1);
    let bare = substr(message, c2 + 1, n);
    Some((flag, bare))
}

/// The first position at or after `i` holding `b`, or the end.
pub open spec fn find_or_end(s: Seq<u8>, b: u8, i: int) -> int {
    match find_byte(s, b, i) {
        Some(k) => k,
        None => s.len() as int,
    }
}

/// Where the value of the first comma-separated attribute `key=` lies,
/// looking from the part that starts at `i`; `key` is the attribute name's
/// bytes.
pub open spec fn field_range(s: Seq<u8>, key: Seq<u8>, i: int) -> Option<(int, int)>
    decreases s.len() - i,
{
    if i < 0 || i > s.len() {
        None
    } else {
        let e = find_or_end(s, 0x2c, i);
        if i + key.len() + 1 <= e && s.subrange(i, i + key.len()) == key && s[i + key.len()] == 0x3d {
            Some((i + key.len() + 1, e))
        } else if i <= e && e < s.len() {
            field_range(s, key, e + 1)
        } else {
            None
        }
    }
}

proof fn lemma_field_range(s: Seq<u8>, key: Seq<u8>, i: int)
    requires
        0 <= i <= s.len(),
    ensures
        field_range(s, key, i) matches Some((a, e)) ==> 1 <= a <= e <= s.len() && s[a - 1] == 0x3d
            && (e == s.len() || s[e] == 0x2c),
    decreases s.len() - i,
{
    lemma_find_byte(s, 0x2c, i);
    let e = find_or_end(s, 0x2c, i);
    if !(i + key.len() + 1 <= e && s.subrange(i, i + key.len()) == key && s[i + key.len()] == 0x3d) && i <= e
        && e < s.len() {
        lemma_field_range(s, key, e + 1);
    }
}

/// The UTF-8 encoding of one character.
fn char_bytes(c: char) -> (r: Vec<u8>)
    ensures
        r@ == vstd::utf8::encode_scalar(c as u32),
{
    let v: u32 = c as u32;
    let mut r: Vec<u8> = Vec::new();
    if v <= 0x7f {
        r.push((v & 0x7f) as u8);
    } else if v <= 0x7ff {
        r.push(0xc0 | ((v >> 6) & 0x1f) as u8);
        r.push(0x80 | (v & 0x3f) as u8);
    } else if v <= 0xffff {
        r.push(0xe0 | ((v >> 12) & 0x0f) as u8);
        r.push(0x80 | ((v >> 6) & 0x3f) as u8);
        r.push(0x80 | (v & 0x3f) as u8);
    } else {
        r.push(0xf0 | ((v >> 18) & 0x7) as u8);
        r.push(0x80 | ((v >> 12) & 0x3f) as u8);
        r.push(0x80 | ((v >> 6) & 0x3f) as u8);
        r.push(0x80 | (v & 0x3f) as u8);
    }
    proof {
        assert(r@ =~= vstd::utf8::encode_scalar(v));
    }
    r
}

/// An ASCII character is encoded as its own byte.
proof fn lemma_ascii_scalar(v: u32)
    requires
        v < 0x80,
    ensures
        vstd::utf8::encode_scalar(v) == seq![v as u8],
{
    assert((v & 0x7f) as u8 == v as u8) by (bit_vector)
        requires
            v < 0x80,
    ;
    assert(vstd::utf8::encode_scalar(v) =~= seq![v as u8]);
}

/// Reads one `key=value` attribute out of a comma-separated SCRAM message.
pub fn field(message: &str, key: char) -> (r: Option<&str>)
    ensures
        match field_range(message.spec_bytes(), vstd::utf8::encode_scalar(key as u32), 0) {
            Some((a, e)) => r matches Some(v) && v.spec_bytes() == message.spec_bytes().subrange(a, e),
            None => r is None,
        },
{
    let s = message.as_bytes();
    let n = s.len();
    let kb = char_bytes(key);
    let k = kb.as_slice();
    let kl = k.len();
    let mut i: usize = 0;
    loop
        invariant
            i <= n,
            n == s@.len(),
            s@ == message.spec_bytes(),
            k@ == vstd::utf8::encode_scalar(key as u32),
            kl == k@.len(),
            1 <= kl <= 4,
            i == 0 || s@[i - 1] == 0x2c,
            field_range(s@, k@, 0) == field_range(s@, k@, i as int),
        decreases n - i,
    {
        proof {
            lemma_find_byte(s@, 0x2c, i as int);
        }
        let e = match exec_find_byte(s, 0x2c, i) {
            Some(c) => c,
            None => n,
        };
        if e - i >= kl + 1 && crate::text::bytes_eq(vstd::slice::slice_subrange(s, i, i + kl), k) && s[i + kl] == 0x3d {
            return Some(substr(message, i + kl + 1, e));
        }
        if e >= n {
            return None;
        }
        i = e + 1;
    }
}

/// The last position of `,p=` strictly before `j`, where a client-final
/// message's proof attribute starts.
pub open spec fn last_proof_marker(s: Seq<u8>, j: int) -> Option<int>
    decreases j,
{
    if j < 3 || j > s.len() {
        None
    } else if s[j - 3] == 0x2c && s[j - 2] == 0x70 && s[j - 1] == 0x3d {
        Some(j - 3)
    } else {
        last_proof_marker(s, j - 1)
    }
}

proof fn lemma_last_proof_marker(s: Seq<u8>, j: int)
    ensures
        last_proof_marker(s, j) matches Some(k) ==> 0 <= k && k + 3 <= j <= s.len() && s[k] == 0x2c,
    decreases j,
{
    if 3 <= j <= s.len() && !(s[j - 3] == 0x2c && s[j - 2] == 0x70 && s[j - 1] == 0x3d) {
        lemma_last_proof_marker(s, j - 1);
    }
}

/// The decimal digits of `n`.
pub open spec fn decimal(n: nat) -> Seq<char>
    decreases n,
{
    if n < 10 {
        seq![((n + 48) as u8) as char]
    } else {
        decimal(n / 10).push((((n % 10) + 48) as u8) as char)
    }
}

fn digit_text(d: u8) -> (r: &'static str)
    requires
        d < 10,
    ensures
        r@ == seq![((d + 48) as u8) as char],
{
    let digits = "0123456789";
    proof {
        reveal_strlit("0123456789");
    }
    assert(digits.is_ascii());
    let r = digits.substring_ascii(d as usize, d as usize + 1);
    assert(r@ =~= seq![((d + 48) as u8) as char]);
    r
}

/// `n` in decimal.
pub fn decimal_text(n: u64) -> (r: String)
    ensures
        r@ == decimal(n as nat),
    decreases n,
{
    if n < 10 {
        String::from_str(digit_text(n as u8))
    } else {
        let mut s = decimal_text(n / 10);
        s.append(digit_text((n % 10) as u8));
        s
    }
}

/// The `server-first-message`: the combined nonce, the salt and the
/// iteration count.
pub open spec fn server_first_text(combined: Seq<char>, salt: Seq<char>, iterations: u32) -> Seq<char> {
    "r="@ + combined + ",s="@ + salt + ",i="@ + decimal(iterations as nat)
}

// ---------------------------------------------------------------------------
// The SCRAM exchange
// ---------------------------------------------------------------------------

/// A SCRAM challenge for one user: what `server-first-message` carries, both
/// already encoded as SCRAM wants them.
#[derive(Debug, Clone, PartialEq, Eq)]
pub struct ScramChallenge {
    /// The user's salt, base64 as it appears on the wire.
    pub salt: String,
    /// The iteration count.
    pub iterations: u32,
}

/// Where a static user's credential lives, and who does the arithmetic.
///
/// This crate owns the message sequence; whoever implements this owns the
/// HMAC and the key derivation, so neither has a second implementation here.
pub trait StaticCredentials {
    /// The challenge for a user, or `None` if there is no such user. The
    /// caller then offers a mock challenge, so an unknown user is
    /// indistinguishable from a wrong password.
    fn challenge(&self, user: &str) -> Option<ScramChallenge>;

    /// Verifies a proof against the `AuthMessage` this crate assembled,
    /// returning the base64 server signature if it is right.
    fn verify(&self, user: &str, auth_message: &str, proof: &str) -> Option<String>;
}

/// Shared credentials answer as the credentials do, so one set of keys can
/// serve every session.
impl<T: StaticCredentials> StaticCredentials for std::sync::Arc<T> {
    /// The shared credentials' own challenge for the user.
    fn challenge(&self, user: &str) -> (r: Option<ScramChallenge>)
        ensures
            call_ensures(T::challenge, (&**self, user), r),
    {
        let inner: &T = &**self;
        inner.challenge(user)
    }

    /// The shared credentials' own verdict on the proof.
    fn verify(&self, user: &str, auth_message: &str, proof: &str) -> (r: Option<String>)
        ensures
            call_ensures(T::verify, (&**self, user, auth_message, proof), r),
    {
        let inner: &T = &**self;
        inner.verify(user, auth_message, proof)
    }
}

/// How the SCRAM exchange behaves.
#[derive(Debug, Clone)]
pub struct ScramConfig {
    /// The salt offered for a user who does not exist. Fixed for the
    /// process's lifetime, so that failing the same way every time answers
    /// nothing about whether an account exists.
    pub mock_salt: String,
    /// The iteration count offered with the mock salt.
    pub mock_iterations: u32,
}

/// How far the SCRAM exchange has got.
#[derive(Debug, Clone, Copy, PartialEq, Eq, Structural)]
pub enum ScramStage {
    /// Waiting for `SASLInitialResponse`.
    AwaitingInitial,
    /// Waiting for `SASLResponse` carrying the proof.
    AwaitingProof,
    /// Finished, one way or the other.
    Done,
}

/// What the shell should send next in a SCRAM exchange.
#[derive(Debug, Clone, PartialEq, Eq)]
pub enum SaslProgress {
    /// `AuthenticationSASLContinue` with this payload.
    Continue(String),
    /// `AuthenticationSASLFinal` with this payload, then `AuthenticationOk`.
    Final(String),
    /// Send an `ErrorResponse` and close.
    Fail(ClientError),
}

/// A SCRAM exchange, as values.
pub struct ScramModel {
    /// The user from the startup packet.
    pub user: Seq<char>,
    /// This side's nonce.
    pub server_nonce: Seq<char>,
    /// The mock salt.
    pub mock_salt: Seq<char>,
    /// The mock iteration count.
    pub mock_iterations: u32,
    /// How far it has got.
    pub stage: ScramStage,
    /// Whether the credential store knew the user.
    pub known: bool,
    /// The client's nonce followed by this side's.
    pub combined_nonce: Seq<char>,
    /// The `c=` value the client must echo.
    pub expected_channel_binding: &'static str,
    /// The client-first-message without its gs2 header.
    pub client_first_bare: Seq<char>,
    /// What this side sent as its first message.
    pub server_first: Seq<char>,
}

/// What a client-first exchange extracts: the bare message, the client's
/// nonce and the binding it must echo.
pub struct InitialParts {
    /// The client-first-message without its gs2 header, as bytes.
    pub bare: Seq<u8>,
    /// The client's nonce, as bytes.
    pub nonce: Seq<u8>,
    /// The `c=` value the client must echo.
    pub binding: &'static str,
}

/// Reads a `SASLInitialResponse` at a stage, or says which violation it is.
///
/// It must be the first message; its mechanism must be `SCRAM-SHA-256`; its
/// payload must have a gs2 header whose flag is `n` or `y` (`p`, a request
/// for channel binding, is refused); and its bare part must carry a
/// non-empty nonce.
pub open spec fn spec_initial(stage: ScramStage, body: Seq<u8>) -> Result<InitialParts, &'static str> {
    if stage != ScramStage::AwaitingInitial {
        Err("a second SASLInitialResponse arrived")
    } else {
        match spec_split_sasl_initial(body) {
            None => Err("malformed SASLInitialResponse"),
            Some((mechanism, payload)) => if mechanism != SCRAM_SHA_256.spec_bytes() {
                Err("unsupported SASL mechanism")
            } else {
                match spec_split_gs2(payload) {
                    None => Err("malformed SCRAM client-first-message"),
                    Some((c1, b0)) => {
                        let flag = payload.subrange(0, c1);
                        let bare = payload.subrange(b0, payload.len() as int);
                        let binding = if flag == "n".spec_bytes() {
                            Some(GS2_NO_BINDING)
                        } else if flag == "y".spec_bytes() {
                            Some(GS2_BINDING_NOT_OFFERED)
                        } else {
                            None
                        };
                        match binding {
                            None => Err("channel binding was requested and is not offered"),
                            Some(binding) => match field_range(bare, seq![0x72u8], 0) {
                                None => Err("SCRAM client-first-message has no nonce"),
                                Some((a, e)) => if a == e {
                                    Err("SCRAM client-first-message has an empty nonce")
                                } else {
                                    Ok(InitialParts { bare, nonce: bare.subrange(a, e), binding })
                                },
                            },
                        }
                    },
                }
            },
        }
    }
}

/// What a client-final exchange extracts: the proof and the message without
/// it.
pub struct FinalParts {
    /// The proof, as bytes.
    pub proof: Seq<u8>,
    /// The message up to its last `,p=`, as bytes.
    pub without_proof: Seq<u8>,
}

/// Reads a `SASLResponse` against what the exchange expects, or says which
/// violation it is.
///
/// It must come second and be UTF-8; its `c=` must echo the binding the
/// client chose, its `r=` must be the combined nonce, and it must carry a
/// proof.
pub open spec fn spec_final(m: ScramModel, body: Seq<u8>) -> Result<FinalParts, &'static str> {
    if m.stage != ScramStage::AwaitingProof {
        Err("a SASLResponse arrived out of sequence")
    } else if !vstd::utf8::valid_utf8(body) {
        Err("SCRAM client-final-message is not UTF-8")
    } else {
        match field_range(body, seq![0x63u8], 0) {
            None => Err("SCRAM client-final-message has no channel binding"),
            Some((ca, ce)) => if text_of(body.subrange(ca, ce)) != m.expected_channel_binding@ {
                Err("SCRAM channel binding does not match the client-first-message")
            } else {
                match field_range(body, seq![0x72u8], 0) {
                    None => Err("SCRAM client-final-message has no nonce"),
                    Some((ra, re)) => if text_of(body.subrange(ra, re)) != m.combined_nonce {
                        Err("SCRAM nonce does not match")
                    } else {
                        match field_range(body, seq![0x70u8], 0) {
                            None => Err("SCRAM client-final-message has no proof"),
                            Some((pa, pe)) => match last_proof_marker(body, body.len() as int) {
                                None => Err("SCRAM client-final-message has no proof"),
                                Some(k) => Ok(
                                    FinalParts {
                                        proof: body.subrange(pa, pe),
                                        without_proof: body.subrange(0, k),
                                    },
                                ),
                            },
                        }
                    },
                }
            },
        }
    }
}

/// Whether a `server-final-message` carries a signature: `v=` and what the
/// credential store returned.
pub open spec fn signs(t: Seq<char>) -> bool {
    t.len() >= 2 && t[0] == 'v' && t[1] == '='
}

/// The `server-first-message` offered with the credential store's answer:
/// its salt and iteration count for a user it knows, the mock ones for a
/// user it does not.
pub open spec fn offered_first(
    combined: Seq<char>,
    challenge: Option<ScramChallenge>,
    mock_salt: Seq<char>,
    mock_iterations: u32,
) -> Seq<char> {
    match challenge {
        Some(c) => server_first_text(combined, c.salt@, c.iterations),
        None => server_first_text(combined, mock_salt, mock_iterations),
    }
}

/// The SCRAM `AuthMessage`: the client's bare first message, this side's
/// first message and the client's final message without its proof.
pub open spec fn auth_message_text(m: ScramModel, without_proof: Seq<char>) -> Seq<char> {
    m.client_first_bare + ","@ + m.server_first + ","@ + without_proof
}

/// A call made on a SCRAM exchange, with the body it was given.
pub enum ScramCall {
    /// [`ScramAuth::on_initial`].
    Initial(Seq<u8>),
    /// [`ScramAuth::on_response`].
    Response(Seq<u8>),
}

/// How far an exchange has got after one more call: a well-formed
/// client-first-message in its place moves it on to the proof, and anything
/// else ends it.
pub open spec fn scram_stage_after(stage: ScramStage, call: ScramCall) -> ScramStage {
    match call {
        ScramCall::Initial(body) => match spec_initial(stage, body) {
            Ok(_) => ScramStage::AwaitingProof,
            Err(_) => ScramStage::Done,
        },
        ScramCall::Response(_) => ScramStage::Done,
    }
}

/// How far an exchange has got after a run of calls.
pub open spec fn scram_stage_run(stage: ScramStage, calls: Seq<ScramCall>) -> ScramStage
    decreases calls.len(),
{
    if calls.len() == 0 {
        stage
    } else {
        scram_stage_run(scram_stage_after(stage, calls[0]), calls.drop_first())
    }
}

/// The server side of a SCRAM-SHA-256 exchange.
#[derive(Debug)]
pub struct ScramAuth<C> {
    credentials: C,
    config: ScramConfig,
    user: String,
    server_nonce: String,
    stage: ScramStage,
    known: bool,
    combined_nonce: String,
    expected_channel_binding: &'static str,
    client_first_bare: String,
    server_first: String,
}

impl<C> View for ScramAuth<C> {
    type V = ScramModel;

    closed spec fn view(&self) -> ScramModel {
        ScramModel {
            user: self.user@,
            server_nonce: self.server_nonce@,
            mock_salt: self.config.mock_salt@,
            mock_iterations: self.config.mock_iterations,
            stage: self.stage,
            known: self.known,
            combined_nonce: self.combined_nonce@,
            expected_channel_binding: self.expected_channel_binding,
            client_first_bare: self.client_first_bare@,
            server_first: self.server_first@,
        }
    }
}

impl<C: StaticCredentials> ScramAuth<C> {
    /// The credential store the exchange consults.
    pub closed spec fn spec_credentials(&self) -> C {
        self.credentials
    }

    /// Starts an exchange.
    ///
    /// `server_nonce` is supplied rather than generated: making it
    /// unpredictable is the caller's obligation.
    pub fn new(credentials: C, config: ScramConfig, user: &str, server_nonce: &str) -> (r: ScramAuth<C>)
        ensures
            r.spec_credentials() == credentials,
            r@.user == user@,
            r@.server_nonce == server_nonce@,
            r@.mock_salt == config.mock_salt@,
            r@.mock_iterations == config.mock_iterations,
            r@.stage == ScramStage::AwaitingInitial,
            !r@.known,
            r@.combined_nonce == Seq::<char>::empty(),
            r@.expected_channel_binding == GS2_NO_BINDING,
            r@.client_first_bare == Seq::<char>::empty(),
            r@.server_first == Seq::<char>::empty(),
    {
        ScramAuth {
            credentials,
            config,
            user: user.to_owned(),
            server_nonce: server_nonce.to_owned(),
            stage: ScramStage::AwaitingInitial,
            known: false,
            combined_nonce: String::new(),
            expected_channel_binding: GS2_NO_BINDING,
            client_first_bare: String::new(),
            server_first: String::new(),
        }
    }

    /// Whether the exchange has finished.
    pub fn is_done(&self) -> (r: bool)
        ensures
            r == (self@.stage == ScramStage::Done),
    {
        matches!(self.stage, ScramStage::Done)
    }

    /// Feeds in the body of a `SASLInitialResponse`.
    ///
    /// The user comes from the startup packet, not from the `n=` attribute,
    /// as Postgres does. The credential store's answer decides the salt and
    /// iteration count offered; an unknown user is offered the mock ones.
    pub fn on_initial(&mut self, body: &[u8]) -> (r: SaslProgress)
        ensures
            final(self).spec_credentials() == old(self).spec_credentials(),
            final(self)@.stage == scram_stage_after(old(self)@.stage, ScramCall::Initial(body@)),
            final(self)@.user == old(self)@.user,
            final(self)@.server_nonce == old(self)@.server_nonce,
            final(self)@.mock_salt == old(self)@.mock_salt,
            final(self)@.mock_iterations == old(self)@.mock_iterations,
            match spec_initial(old(self)@.stage, body@) {
                Err(what) => r == SaslProgress::Fail(ClientError::ProtocolViolation(what))
                    && final(self)@ == (ScramModel { stage: ScramStage::Done, ..old(self)@ }),
                Ok(parts) => {
                    &&& final(self)@.stage == ScramStage::AwaitingProof
                    &&& final(self)@.client_first_bare == text_of(parts.bare)
                    &&& final(self)@.combined_nonce == text_of(parts.nonce) + old(self)@.server_nonce
                    &&& final(self)@.expected_channel_binding == parts.binding
                    &&& exists|user: &str, challenge: Option<ScramChallenge>|
                        {
                            &&& user@ == old(self)@.user
                            &&& call_ensures(C::challenge, (&old(self).spec_credentials(), user), challenge)
                            &&& final(self)@.known == challenge is Some
                            &&& final(self)@.server_first == offered_first(
                                final(self)@.combined_nonce,
                                challenge,
                                old(self)@.mock_salt,
                                old(self)@.mock_iterations,
                            )
                        }
                    &&& r matches SaslProgress::Continue(t) && t@ == final(self)@.server_first
                },
            },
    {
        if !matches!(self.stage, ScramStage::AwaitingInitial) {
            return self.violation("a second SASLInitialResponse arrived");
        }
        let (mechanism, payload) = match split_sasl_initial(body) {
            Some(parts) => parts,
            None => return self.violation("malformed SASLInitialResponse"),
        };
        proof {
            lemma_text_of(mechanism);
            lemma_text_of(SCRAM_SHA_256);
        }
        if !str_eq(mechanism, SCRAM_SHA_256) {
            return self.violation("unsupported SASL mechanism");
        }
        let (header, bare) = match split_gs2(payload) {
            Some(parts) => parts,
            None => return self.violation("malformed SCRAM client-first-message"),
        };
        proof {
            lemma_text_of(header);
            lemma_text_of("n");
            lemma_text_of("y");
        }
        let binding = if str_eq(header, "n") {
            GS2_NO_BINDING
        } else if str_eq(header, "y") {
            GS2_BINDING_NOT_OFFERED
        } else {
            return self.violation("channel binding was requested and is not offered");
        };
        proof {
            lemma_ascii_scalar('r' as u32);
        }
        let client_nonce = match field(bare, 'r') {
            Some(n) => n,
            None => return self.violation("SCRAM client-first-message has no nonce"),
        };
        proof {
            lemma_field_range(bare.spec_bytes(), seq![0x72u8], 0);
        }
        if client_nonce.as_bytes().len() == 0 {
            return self.violation("SCRAM client-first-message has an empty nonce");
        }
        let user = self.user.as_str();
        let challenge = self.credentials.challenge(user);
        proof {
            lemma_text_of(bare);
            lemma_text_of(client_nonce);
        }
        let ghost chosen = challenge;
        let r = self.answer_challenge(bare, client_nonce, binding, challenge);
        proof {
            assert(self@.server_first == offered_first(
                self@.combined_nonce,
                chosen,
                old(self)@.mock_salt,
                old(self)@.mock_iterations,
            ));
            assert(call_ensures(C::challenge, (&old(self).spec_credentials(), user), chosen));
        }
        r
    }

    /// Moves the exchange on from a well-formed client-first-message, given
    /// what the credential store said about the user: its challenge, or the
    /// mock one for a user it does not know.
    pub fn answer_challenge(
        &mut self,
        bare: &str,
        client_nonce: &str,
        binding: &'static str,
        challenge: Option<ScramChallenge>,
    ) -> (r: SaslProgress)
        ensures
            final(self)@ == (ScramModel {
                stage: ScramStage::AwaitingProof,
                known: challenge is Some,
                combined_nonce: client_nonce@ + old(self)@.server_nonce,
                expected_channel_binding: binding,
                client_first_bare: bare@,
                server_first: match challenge {
                    Some(c) => server_first_text(client_nonce@ + old(self)@.server_nonce, c.salt@, c.iterations),
                    None => server_first_text(
                        client_nonce@ + old(self)@.server_nonce,
                        old(self)@.mock_salt,
                        old(self)@.mock_iterations,
                    ),
                },
                ..old(self)@
            }),
            final(self).spec_credentials() == old(self).spec_credentials(),
            r matches SaslProgress::Continue(t) && t@ == final(self)@.server_first,
    {
        self.known = challenge.is_some();
        let (salt, iterations) = match challenge {
            Some(c) => (c.salt, c.iterations),
            None => (self.config.mock_salt.clone(), self.config.mock_iterations),
        };
        self.client_first_bare = bare.to_owned();
        let mut combined = String::from_str(client_nonce);
        combined.append(self.server_nonce.as_str());
        self.combined_nonce = combined;
        let mut first = String::from_str("r=");
        first.append(self.combined_nonce.as_str());
        first.append(",s=");
        first.append(salt.as_str());
        first.append(",i=");
        let count = decimal_text(iterations as u64);
        first.append(count.as_str());
        self.server_first = first;
        self.expected_channel_binding = binding;
        self.stage = ScramStage::AwaitingProof;
        proof {
            reveal_strlit("r=");
            reveal_strlit(",s=");
            reveal_strlit(",i=");
        }
        SaslProgress::Continue(self.server_first.clone())
    }

    /// Feeds in the body of a `SASLResponse`, which carries the proof.
    ///
    /// Whatever happens the exchange is over afterwards. The proof is checked
    /// only for a user the store knew, so an unknown user spends the same two
    /// round trips and fails with the same message as a wrong password.
    pub fn on_response(&mut self, body: &[u8]) -> (r: SaslProgress)
        ensures
            final(self)@ == (ScramModel { stage: ScramStage::Done, ..old(self)@ }),
            final(self)@.stage == scram_stage_after(old(self)@.stage, ScramCall::Response(body@)),
            final(self).spec_credentials() == old(self).spec_credentials(),
            match spec_final(old(self)@, body@) {
                Err(what) => r == SaslProgress::Fail(ClientError::ProtocolViolation(what)),
                Ok(parts) => if !old(self)@.known {
                    r == SaslProgress::Fail(ClientError::AuthRefused(AuthRejection::TokenRejected))
                } else {
                    exists|user: &str, auth_message: &str, proof_text: &str, signature: Option<String>|
                        {
                            &&& user@ == old(self)@.user
                            &&& auth_message@ == auth_message_text(old(self)@, text_of(parts.without_proof))
                            &&& proof_text@ == text_of(parts.proof)
                            &&& call_ensures(
                                C::verify,
                                (&old(self).spec_credentials(), user, auth_message, proof_text),
                                signature,
                            )
                            &&& match signature {
                                Some(sig) => r matches SaslProgress::Final(t) && t@ == "v="@ + sig@,
                                None => r == SaslProgress::Fail(
                                    ClientError::AuthRefused(AuthRejection::TokenRejected),
                                ),
                            }
                        }
                },
            },
    {
        if !matches!(self.stage, ScramStage::AwaitingProof) {
            return self.violation("a SASLResponse arrived out of sequence");
        }
        self.stage = ScramStage::Done;
        let message = match str_from_utf8(body) {
            Some(m) => m,
            None => return self.violation("SCRAM client-final-message is not UTF-8"),
        };
        proof {
            lemma_ascii_scalar('c' as u32);
        }
        proof {
            lemma_ascii_scalar('p' as u32);
        }
        proof {
            lemma_ascii_scalar('r' as u32);
        }
        let binding = match field(message, 'c') {
            Some(b) => b,
            None => return self.violation("SCRAM client-final-message has no channel binding"),
        };
        proof {
            lemma_text_of(binding);
            lemma_text_of(self.expected_channel_binding);
        }
        if !str_eq(binding, self.expected_channel_binding) {
            return self.violation("SCRAM channel binding does not match the client-first-message");
        }
        let nonce = match field(message, 'r') {
            Some(n) => n,
            None => return self.violation("SCRAM client-final-message has no nonce"),
        };
        proof {
            lemma_text_of(nonce);
        }
        if !str_eq(nonce, self.combined_nonce.as_str()) {
            return self.violation("SCRAM nonce does not match");
        }
        let proof_text = match field(message, 'p') {
            Some(p) => p,
            None => return self.violation("SCRAM client-final-message has no proof"),
        };
        let at = match last_marker(message) {
            Some(k) => k,
            None => return self.violation("SCRAM client-final-message has no proof"),
        };
        let without_proof = substr(message, 0, at);
        let auth_message = self.auth_message(without_proof);
        proof {
            lemma_text_of(message);
            lemma_text_of(proof_text);
            lemma_text_of(without_proof);
            reveal_strlit("v=");
        }
        if !self.known {
            return Self::conclude(None);
        }
        let user = self.user.as_str();
        let judged = auth_message.as_str();
        let signature = self.credentials.verify(user, judged, proof_text);
        let r = Self::conclude(signature);
        proof {
            let parts = spec_final(old(self)@, body@)->Ok_0;
            assert(message.spec_bytes() == body@);
            assert(parts.proof == proof_text.spec_bytes());
            lemma_last_proof_marker(body@, body@.len() as int);
            assert(body@.len() == body.len());
            assert(last_proof_marker(body@, body@.len() as int) == Some(at as int));
            assert(parts.without_proof =~= body@.subrange(0, at as int));
            assert(parts.without_proof == without_proof.spec_bytes());
            assert(judged@ == auth_message_text(old(self)@, text_of(parts.without_proof)));
            assert(proof_text@ == text_of(parts.proof));
            assert(call_ensures(C::verify, (&old(self).spec_credentials(), user, judged, proof_text), signature));
        }
        r
    }

    /// What the client is told once the credential store has judged its
    /// proof: the store's signature as `server-final-message`, or the same
    /// refusal a bad token gets.
    pub fn conclude(signature: Option<String>) -> (r: SaslProgress)
        ensures
            match signature {
                Some(sig) => r matches SaslProgress::Final(t) && t@ == "v="@ + sig@,
                None => r == SaslProgress::Fail(ClientError::AuthRefused(AuthRejection::TokenRejected)),
            },
    {
        match signature {
            Some(signature) => {
                let mut answer = String::from_str("v=");
                answer.append(signature.as_str());
                proof {
                    reveal_strlit("v=");
                }
                SaslProgress::Final(answer)
            },
            None => SaslProgress::Fail(ClientError::AuthRefused(AuthRejection::TokenRejected)),
        }
    }

    /// The `AuthMessage` the proof is checked against.
    fn auth_message(&self, without_proof: &str) -> (r: String)
        ensures
            r@ == auth_message_text(self@, without_proof@),
    {
        let mut text = self.client_first_bare.clone();
        text.append(",");
        text.append(self.server_first.as_str());
        text.append(",");
        text.append(without_proof);
        proof {
            reveal_strlit(",");
        }
        text
    }

    fn violation(&mut self, what: &'static str) -> (r: SaslProgress)
        ensures
            final(self)@ == (ScramModel { stage: ScramStage::Done, ..old(self)@ }),
            final(self).spec_credentials() == old(self).spec_credentials(),
            r == SaslProgress::Fail(ClientError::ProtocolViolation(what)),
    {
        self.stage = ScramStage::Done;
        SaslProgress::Fail(ClientError::ProtocolViolation(what))
    }
}

/// The position of the last `,p=` in a message.
fn last_marker(message: &str) -> (r: Option<usize>)
    ensures
        match last_proof_marker(message.spec_bytes(), message.spec_bytes().len() as int) {
            Some(k) => r == Some(k as usize),
            None => r is None,
        },
        r matches Some(k) ==> ascii_cut(message.spec_bytes(), k as int),
{
    let s = message.as_bytes();
    let mut j = s.len();
    loop
        invariant
            j <= s@.len(),
            s@ == message.spec_bytes(),
            last_proof_marker(s@, s@.len() as int) == last_proof_marker(s@, j as int),
        decreases j,
    {
        if j < 3 {
            return None;
        }
        if s[j - 3] == 0x2c && s[j - 2] == 0x70 && s[j - 1] == 0x3d {
            return Some(j - 3);
        }
        j = j - 1;
    }
}

/// Once an exchange is over, no run of further calls reopens it.
proof fn lemma_done_stays_done(calls: Seq<ScramCall>)
    ensures
        scram_stage_run(ScramStage::Done, calls) == ScramStage::Done,
    decreases calls.len(),
{
    if calls.len() > 0 {
        lemma_done_stays_done(calls.drop_first());
    }
}

/// Over any run of calls: a finished exchange stays finished; a run holding a
/// response, answered or refused, ends finished; and a fresh exchange that a
/// run leaves unfinished was given exactly one call, a well-formed
/// `SASLInitialResponse`.
pub proof fn law_an_exchange_finishes_for_good(stage: ScramStage, calls: Seq<ScramCall>)
    ensures
        stage == ScramStage::Done ==> scram_stage_run(stage, calls) == ScramStage::Done,
        (exists|i: int| 0 <= i < calls.len() && calls[i] is Response) ==> scram_stage_run(stage, calls)
            == ScramStage::Done,
        stage == ScramStage::AwaitingInitial && calls.len() > 0 && scram_stage_run(stage, calls)
            != ScramStage::Done ==> calls.len() == 1 && (calls[0] matches ScramCall::Initial(b) && spec_initial(
            ScramStage::AwaitingInitial,
            b,
        ) is Ok),
    decreases calls.len(),
{
    lemma_done_stays_done(calls);
    if calls.len() > 0 {
        let next = scram_stage_after(stage, calls[0]);
        let rest = calls.drop_first();
        lemma_done_stays_done(rest);
        law_an_exchange_finishes_for_good(next, rest);
        if exists|i: int| 0 <= i < calls.len() && calls[i] is Response {
            let i = choose|i: int| 0 <= i < calls.len() && calls[i] is Response;
            if i > 0 {
                assert(rest[i - 1] is Response);
            }
        }
        if stage == ScramStage::AwaitingInitial && next == ScramStage::AwaitingProof && rest.len() > 0 {
            // A second call finds the exchange past its first message.
            match rest[0] {
                ScramCall::Initial(b) => assert(spec_initial(ScramStage::AwaitingProof, b) is Err),
                ScramCall::Response(_) => {},
            }
            assert(scram_stage_after(next, rest[0]) == ScramStage::Done);
            lemma_done_stays_done(rest.drop_first());
        }
    }
}

} // verus!
