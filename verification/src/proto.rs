//! The pieces of the Postgres wire protocol the session machines read: frame
//! tags, and the client messages as decoded values.
use vstd::prelude::*;
use vstd::string::StringSliceAdditionalSpecFns;

use crate::text::{bytes_eq, str_from_utf8, skip_ws, find_ws, exec_skip_ws, exec_find_ws, lemma_skip_ws, lemma_find_ws, find_byte, lemma_find_byte, exec_find_byte};

verus! {

/// A frame's one-byte type tag.
///
/// The two directions share bytes: `D` is a `Describe` from a client and a
/// `DataRow` from a server. The named tags below are the bytes; `Tag(b)` is
/// the tag.
#[derive(Clone, Copy, Debug, PartialEq, Eq, Structural)]
pub struct Tag(pub u8);

impl Tag {
    /// Client `Parse`.
    pub const PARSE: u8 = 0x50;
    /// Client `Bind`.
    pub const BIND: u8 = 0x42;
    /// Client `Describe`.
    pub const DESCRIBE: u8 = 0x44;
    /// Client `Execute`.
    pub const EXECUTE: u8 = 0x45;
    /// Client `Sync`.
    pub const SYNC: u8 = 0x53;
    /// Client `Query`.
    pub const QUERY: u8 = 0x51;
    /// Client `PasswordMessage`, and the SASL responses that share its tag.
    pub const PASSWORD: u8 = 0x70;
    /// Client `Close`.
    pub const CLOSE: u8 = 0x43;
    /// Client `Flush`.
    pub const FLUSH: u8 = 0x48;
    /// Client `Terminate`.
    pub const TERMINATE: u8 = 0x58;
    /// Client `CopyData`, which the server also sends.
    pub const COPY_DATA: u8 = 0x64;
    /// Client `CopyDone`, which the server also sends.
    pub const COPY_DONE: u8 = 0x63;
    /// Client `CopyFail`.
    pub const COPY_FAIL: u8 = 0x66;
    /// Server `Authentication`.
    pub const AUTHENTICATION: u8 = 0x52;
    /// Server `ParameterStatus`.
    pub const PARAMETER_STATUS: u8 = 0x53;
    /// Server `BackendKeyData`.
    pub const BACKEND_KEY_DATA: u8 = 0x4b;
    /// Server `ParseComplete`.
    pub const PARSE_COMPLETE: u8 = 0x31;
    /// Server `BindComplete`.
    pub const BIND_COMPLETE: u8 = 0x32;
    /// Server `CloseComplete`.
    pub const CLOSE_COMPLETE: u8 = 0x33;
    /// Server `RowDescription`.
    pub const ROW_DESCRIPTION: u8 = 0x54;
    /// Server `NoData`.
    pub const NO_DATA: u8 = 0x6e;
    /// Server `ParameterDescription`.
    pub const PARAMETER_DESCRIPTION: u8 = 0x74;
    /// Server `DataRow`.
    pub const DATA_ROW: u8 = 0x44;
    /// Server `CommandComplete`.
    pub const COMMAND_COMPLETE: u8 = 0x43;
    /// Server `PortalSuspended`.
    pub const PORTAL_SUSPENDED: u8 = 0x73;
    /// Server `EmptyQueryResponse`.
    pub const EMPTY_QUERY_RESPONSE: u8 = 0x49;
    /// Server `ErrorResponse`.
    pub const ERROR_RESPONSE: u8 = 0x45;
    /// Server `NoticeResponse`.
    pub const NOTICE_RESPONSE: u8 = 0x4e;
    /// Server `ReadyForQuery`.
    pub const READY_FOR_QUERY: u8 = 0x5a;
    /// Server `NegotiateProtocolVersion`.
    pub const NEGOTIATE_PROTOCOL_VERSION: u8 = 0x76;

    /// The tag's byte.
    pub fn get(self) -> (r: u8)
        ensures
            r == self.0,
    {
        self.0
    }
}

/// What a `Describe` or a `Close` names.
#[derive(Clone, Copy, Debug, PartialEq, Eq, Structural)]
pub enum Target {
    /// A prepared statement.
    Statement,
    /// A portal.
    Portal,
}

/// A decoded client message.
#[derive(Clone, Copy, Debug)]
pub enum FrontendMessage<'a> {
    /// A simple query.
    Query { sql: &'a str },
    /// Prepare a statement.
    Parse { statement: &'a str, sql: &'a str },
    /// Bind a portal to a statement.
    Bind { portal: &'a str, statement: &'a str },
    /// Describe a statement or a portal.
    Describe { target: Target, name: &'a str },
    /// Run a portal, returning at most `max_rows` rows, or all of them for 0.
    Execute { portal: &'a str, max_rows: i32 },
    /// Close a statement or a portal.
    Close { target: Target, name: &'a str },
    /// End an extended-query sequence.
    Sync,
    /// Ask for what is owed so far.
    Flush,
    /// End the session.
    Terminate,
    /// COPY data.
    CopyData(&'a [u8]),
    /// The end of COPY data.
    CopyDone,
    /// An aborted COPY.
    CopyFail,
}

// ---------------------------------------------------------------------------
// Connection identity
// ---------------------------------------------------------------------------

/// A proxy node.
#[derive(Clone, Copy, Debug, PartialEq, Eq, Structural, Hash)]
pub struct NodeId(pub u16);

impl NodeId {
    /// The node with this number.
    pub fn new(n: u16) -> (r: NodeId)
        ensures
            r.0 == n,
    {
        NodeId(n)
    }
}

/// The identity a client is given for its connection, which is also its
/// cancel key: the node that issued it and a secret of 48 bits.
#[derive(Clone, Copy, Debug, PartialEq, Eq, Structural, Hash)]
pub struct ConnId {
    node: NodeId,
    secret: u64,
}

/// The low 48 bits of a value.
pub open spec fn low48(v: u64) -> u64 {
    v & 0xffff_ffff_ffff
}

impl ConnId {
    /// A secret is 48 bits.
    #[verifier::type_invariant]
    closed spec fn secret_fits(self) -> bool {
        self.secret < 0x1_0000_0000_0000
    }

    /// The node that issued it.
    pub closed spec fn spec_node(self) -> NodeId {
        self.node
    }

    /// Its secret.
    pub closed spec fn spec_secret(self) -> u64 {
        self.secret
    }

    /// The identity issued by `node` with the low 48 bits of `secret`.
    pub fn new(node: NodeId, secret: u64) -> (r: ConnId)
        ensures
            r.spec_node() == node,
            r.spec_secret() == low48(secret),
    {
        assert(secret & 0xffff_ffff_ffff < 0x1_0000_0000_0000) by (bit_vector);
        ConnId { node, secret: secret & 0xffff_ffff_ffff }
    }

    /// The node that issued it.
    pub fn node(self) -> (r: NodeId)
        ensures
            r == self.spec_node(),
    {
        self.node
    }

    /// Its secret.
    pub fn secret(self) -> (r: u64)
        ensures
            r == self.spec_secret(),
            r < 0x1_0000_0000_0000,
    {
        proof {
            use_type_invariant(&self);
        }
        self.secret
    }
}

// ---------------------------------------------------------------------------
// The first message of a connection
// ---------------------------------------------------------------------------

/// One `name=value` pair of a startup packet.
#[derive(Clone, Copy, Debug)]
pub struct StartupParam<'a> {
    /// The parameter's name.
    pub name: &'a str,
    /// Its value.
    pub value: &'a str,
}

/// A decoded first-phase message.
#[derive(Clone, Debug)]
pub enum Startup<'a> {
    /// Asks for TLS.
    SslRequest,
    /// Asks for GSSAPI encryption.
    GssEncRequest,
    /// Cancels the query of the connection with this key.
    CancelRequest { conn: ConnId },
    /// Opens a session.
    StartupMessage { version: i32, params: Vec<StartupParam<'a>> },
}

/// The protocol version this proxy speaks: 3.0.
pub const PROTOCOL_3_0: i32 = 196608;

/// What to answer a requested protocol version.
#[derive(Clone, Copy, Debug, PartialEq, Eq, Structural)]
pub enum VersionResponse {
    /// Exactly what this proxy speaks.
    Accept,
    /// A later minor version of 3: offer this one instead, in the same breath.
    Negotiate { minor: i32 },
    /// A major version other than 3.
    Unsupported,
}

/// The answer to a requested version: major 3 minor 0 is accepted, a later
/// minor of 3 is negotiated down to 0, and anything else is unsupported.
pub open spec fn spec_negotiate_version(version: i32) -> VersionResponse {
    if version == PROTOCOL_3_0 {
        VersionResponse::Accept
    } else if PROTOCOL_3_0 < version && version <= PROTOCOL_3_0 + 0xffff {
        VersionResponse::Negotiate { minor: 0 }
    } else {
        VersionResponse::Unsupported
    }
}

/// Decides what to answer a requested protocol version.
pub fn negotiate_version(version: i32) -> (r: VersionResponse)
    ensures
        r == spec_negotiate_version(version),
{
    if version == PROTOCOL_3_0 {
        VersionResponse::Accept
    } else if PROTOCOL_3_0 < version && version <= PROTOCOL_3_0 + 0xffff {
        VersionResponse::Negotiate { minor: 0 }
    } else {
        VersionResponse::Unsupported
    }
}

/// The index of the first parameter named `name`.
pub open spec fn param_index(params: Seq<StartupParam>, name: Seq<u8>) -> Option<int>
    decreases params.len(),
{
    if params.len() == 0 {
        None
    } else if params[0].name.spec_bytes() == name {
        Some(0)
    } else {
        match param_index(params.drop_first(), name) {
            Some(i) => Some(i + 1),
            None => None,
        }
    }
}

pub proof fn lemma_param_index(params: Seq<StartupParam>, name: Seq<u8>)
    ensures
        param_index(params, name) matches Some(i) ==> 0 <= i < params.len() && params[i].name.spec_bytes() == name,
    decreases params.len(),
{
    if params.len() > 0 && params[0].name.spec_bytes() != name {
        lemma_param_index(params.drop_first(), name);
    }
}

/// The value of the first parameter named `name`, if any.
pub open spec fn param_value<'a>(params: Seq<StartupParam<'a>>, name: Seq<u8>) -> Option<&'a str> {
    match param_index(params, name) {
        Some(i) => Some(params[i].value),
        None => None,
    }
}

fn find_param<'a>(params: &Vec<StartupParam<'a>>, name: &[u8]) -> (r: Option<&'a str>)
    ensures
        r == param_value(params@, name@),
{
    let mut i: usize = 0;
    assert(params@.subrange(0, params@.len() as int) =~= params@);
    while i < params.len()
        invariant
            i <= params@.len(),
            param_value(params@, name@) == param_value(params@.subrange(i as int, params@.len() as int), name@),
        decreases params@.len() - i,
    {
        let p = params[i];
        proof {
            let rest = params@.subrange(i as int, params@.len() as int);
            assert(rest[0] == p);
            assert(rest.drop_first() =~= params@.subrange(i + 1, params@.len() as int));
        }
        if bytes_eq(p.name.as_bytes(), name) {
            proof {
                let rest = params@.subrange(i as int, params@.len() as int);
                assert(param_index(rest, name@) == Some(0int));
            }
            return Some(p.value);
        }
        proof {
            let rest = params@.subrange(i as int, params@.len() as int);
            let tail = params@.subrange(i + 1, params@.len() as int);
            lemma_param_index(tail, name@);
            match param_index(tail, name@) {
                Some(k) => {
                    assert(rest[k + 1] == tail[k]);
                },
                None => {},
            }
        }
        i = i + 1;
    }
    proof {
        assert(params@.subrange(i as int, params@.len() as int) =~= Seq::<StartupParam<'a>>::empty());
    }
    None
}

/// The `user` parameter of a startup packet.
pub open spec fn spec_user<'a>(params: Seq<StartupParam<'a>>) -> Option<&'a str> {
    param_value(params, "user".spec_bytes())
}

/// The `database` parameter, defaulting to the user as Postgres does.
pub open spec fn spec_database<'a>(params: Seq<StartupParam<'a>>) -> Option<&'a str> {
    match param_value(params, "database".spec_bytes()) {
        Some(d) => Some(d),
        None => spec_user(params),
    }
}

impl<'a> Startup<'a> {
    /// The `user` parameter, for a startup packet.
    pub fn user(&self) -> (r: Option<&'a str>)
        ensures
            match self {
                Startup::StartupMessage { params, .. } => r == spec_user(params@),
                _ => r is None,
            },
    {
        match self {
            Startup::StartupMessage { params, .. } => find_param(params, "user".as_bytes()),
            _ => None,
        }
    }

    /// The `database` parameter, defaulting to the user, for a startup
    /// packet.
    pub fn database(&self) -> (r: Option<&'a str>)
        ensures
            match self {
                Startup::StartupMessage { params, .. } => r == spec_database(params@),
                _ => r is None,
            },
    {
        match self {
            Startup::StartupMessage { params, .. } => match find_param(params, "database".as_bytes()) {
                Some(d) => Some(d),
                None => find_param(params, "user".as_bytes()),
            },
            _ => None,
        }
    }
}

// ---------------------------------------------------------------------------
// Runtime settings packed into `options`
// ---------------------------------------------------------------------------

/// A `name=value` setting split at its first `=`, or `None` without one.
pub open spec fn split_setting(t: Seq<u8>) -> Option<(Seq<u8>, Seq<u8>)> {
    match find_byte(t, 0x3d, 0) {
        Some(k) => Some((t.subrange(0, k), t.subrange(k + 1, t.len() as int))),
        None => None,
    }
}

/// Whether `t` starts with the two bytes `a` and `b`.
pub open spec fn starts2(t: Seq<u8>, a: u8, b: u8) -> bool {
    t.len() >= 2 && t[0] == a && t[1] == b
}

/// The settings in an `options` value from position `i`: words split on
/// whitespace, where `-c` takes the next word as a setting, and `-cname=value`
/// and `--name=value` carry their own; other words, and settings with no
/// `=`, are skipped.
pub open spec fn option_settings(s: Seq<u8>, i: int) -> Seq<(Seq<u8>, Seq<u8>)>
    decreases s.len() - i,
{
    let a = skip_ws(s, i);
    let b = find_ws(s, a);
    if i < 0 || a < i || a >= s.len() || b <= a || b > s.len() {
        Seq::empty()
    } else {
        let word = s.subrange(a, b);
        if word == seq![0x2du8, 0x63] {
            let c = skip_ws(s, b);
            let d = find_ws(s, c);
            if c < b || c >= s.len() || d <= c || d > s.len() {
                Seq::empty()
            } else {
                match split_setting(s.subrange(c, d)) {
                    Some(p) => seq![p] + option_settings(s, d),
                    None => option_settings(s, d),
                }
            }
        } else if starts2(word, 0x2d, 0x63) || starts2(word, 0x2d, 0x2d) {
            match split_setting(word.subrange(2, word.len() as int)) {
                Some(p) => seq![p] + option_settings(s, b),
                None => option_settings(s, b),
            }
        } else {
            option_settings(s, b)
        }
    }
}

/// The settings as owned text: each pair whose halves are text, in order.
pub open spec fn settings_text(pairs: Seq<(Seq<u8>, Seq<u8>)>) -> Seq<(Seq<u8>, Seq<u8>)>
    decreases pairs.len(),
{
    if pairs.len() == 0 {
        Seq::empty()
    } else {
        let rest = settings_text(pairs.drop_first());
        if vstd::utf8::valid_utf8(pairs[0].0) && vstd::utf8::valid_utf8(pairs[0].1) {
            seq![pairs[0]] + rest
        } else {
            rest
        }
    }
}

/// The bytes of each string pair.
pub open spec fn pair_bytes(pairs: Seq<(String, String)>) -> Seq<(Seq<u8>, Seq<u8>)> {
    pairs.map_values(|p: (String, String)| (vstd::utf8::encode_utf8(p.0@), vstd::utf8::encode_utf8(p.1@)))
}

fn owned(bytes: &[u8]) -> (r: Option<String>)
    ensures
        r is Some <==> vstd::utf8::valid_utf8(bytes@),
        r matches Some(s) ==> vstd::utf8::encode_utf8(s@) == bytes@,
{
    match str_from_utf8(bytes) {
        Some(t) => Some(t.to_owned()),
        None => None,
    }
}

fn push_setting(out: &mut Vec<(String, String)>, t: &[u8])
    ensures
        pair_bytes(final(out)@) == pair_bytes(old(out)@) + match split_setting(t@) {
            Some(p) => settings_text(seq![p]),
            None => Seq::empty(),
        },
{
    let n = t.len();
    proof {
        lemma_find_byte(t@, 0x3d, 0);
    }
    match exec_find_byte(t, 0x3d, 0) {
        Some(k) => {
            let name = owned(vstd::slice::slice_subrange(t, 0, k));
            let value = owned(vstd::slice::slice_subrange(t, k + 1, n));
            let ghost p = (t@.subrange(0, k as int), t@.subrange(k + 1, t@.len() as int));
            proof {
                assert(settings_text(seq![p].drop_first()) =~= Seq::<(Seq<u8>, Seq<u8>)>::empty());
            }
            match (name, value) {
                (Some(n), Some(v)) => {
                    out.push((n, v));
                    proof {
                        assert(pair_bytes(out@) =~= pair_bytes(old(out)@) + seq![p]);
                        assert(settings_text(seq![p]) =~= seq![p]);
                    }
                },
                _ => {
                    proof {
                        assert(settings_text(seq![p]) =~= Seq::<(Seq<u8>, Seq<u8>)>::empty());
                        assert(pair_bytes(out@) =~= pair_bytes(old(out)@) + Seq::<(Seq<u8>, Seq<u8>)>::empty());
                    }
                },
            }
        },
        None => {
            proof {
                assert(pair_bytes(out@) =~= pair_bytes(old(out)@) + Seq::<(Seq<u8>, Seq<u8>)>::empty());
            }
        },
    }
}

proof fn lemma_settings_text_append(a: Seq<(Seq<u8>, Seq<u8>)>, b: Seq<(Seq<u8>, Seq<u8>)>)
    ensures
        settings_text(a + b) == settings_text(a) + settings_text(b),
    decreases a.len(),
{
    if a.len() == 0 {
        assert(a + b =~= b);
    } else {
        assert((a + b).drop_first() =~= a.drop_first() + b);
        lemma_settings_text_append(a.drop_first(), b);
    }
}

/// Whether a byte is printable ASCII other than the space.
pub open spec fn visible(b: u8) -> bool {
    0x21 <= b && b <= 0x7e
}

/// Whether a setting can be written as one word: a name of visible bytes
/// other than `=`, and a value of visible bytes.
pub open spec fn writable_setting(p: (Seq<u8>, Seq<u8>)) -> bool {
    &&& forall|k: int| 0 <= k < p.0.len() ==> visible(#[trigger] p.0[k]) && p.0[k] != 0x3d
    &&& forall|k: int| 0 <= k < p.1.len() ==> visible(#[trigger] p.1[k])
}

/// One setting written as a client writes it into `options`, in one of the
/// three forms Postgres reads: ` -c name=value` (form 0), ` -cname=value`
/// (form 1) or ` --name=value` (any other form).
pub open spec fn option_text(p: (Seq<u8>, Seq<u8>), form: nat) -> Seq<u8> {
    if form == 0 {
        seq![0x20u8, 0x2d, 0x63, 0x20] + p.0 + seq![0x3du8] + p.1
    } else if form == 1 {
        seq![0x20u8, 0x2d, 0x63] + p.0 + seq![0x3du8] + p.1
    } else {
        seq![0x20u8, 0x2d, 0x2d] + p.0 + seq![0x3du8] + p.1
    }
}

/// Settings written one after another into an `options` value, each in its
/// form.
pub open spec fn options_text(pairs: Seq<(Seq<u8>, Seq<u8>)>, forms: Seq<nat>) -> Seq<u8>
    decreases pairs.len(),
{
    if pairs.len() == 0 || forms.len() == 0 {
        Seq::empty()
    } else {
        option_text(pairs[0], forms[0]) + options_text(pairs.drop_first(), forms.drop_first())
    }
}

proof fn lemma_visible_run(s: Seq<u8>, i: int, to: int)
    requires
        0 <= i <= to <= s.len(),
        forall|k: int| i <= k < to ==> visible(#[trigger] s[k]),
        to == s.len() || s[to] == 0x20,
    ensures
        find_ws(s, i) == to,
    decreases to - i,
{
    if i < to {
        assert(visible(s[i]));
        lemma_visible_run(s, i + 1, to);
    }
}

/// The setting word `name=value` splits back into its name and value.
proof fn lemma_setting_word(p: (Seq<u8>, Seq<u8>))
    requires
        writable_setting(p),
    ensures
        split_setting(p.0 + seq![0x3du8] + p.1) == Some(p),
{
    let t = p.0 + seq![0x3du8] + p.1;
    let nl = p.0.len() as int;
    lemma_find_byte(t, 0x3d, 0);
    assert(t[nl] == 0x3d);
    assert forall|k: int| 0 <= k < nl implies t[k] != 0x3d by {
        assert(t[k] == p.0[k]);
    }
    assert(find_byte(t, 0x3d, 0) == Some(nl));
    assert(t.subrange(0, nl) =~= p.0);
    assert(t.subrange(nl + 1, t.len() as int) =~= p.1);
}

#[verifier::rlimit(40)]
proof fn lemma_options_text(s: Seq<u8>, i: int, pairs: Seq<(Seq<u8>, Seq<u8>)>, forms: Seq<nat>)
    requires
        0 <= i <= s.len(),
        forms.len() == pairs.len(),
        s.subrange(i, s.len() as int) == options_text(pairs, forms),
        forall|k: int| 0 <= k < pairs.len() ==> writable_setting(#[trigger] pairs[k]),
    ensures
        option_settings(s, i) == pairs,
    decreases pairs.len(),
{
    if pairs.len() == 0 {
        assert(options_text(pairs, forms) == Seq::<u8>::empty());
        assert(s.subrange(i, s.len() as int).len() == 0);
        assert(i == s.len());
    } else {
        let p = pairs[0];
        let form = forms[0];
        let rest = pairs.drop_first();
        let rest_forms = forms.drop_first();
        assert(writable_setting(p));
        let chunk = option_text(p, form);
        let lead: int = if form == 0 { 4 } else { 3 };
        let word = p.0 + seq![0x3du8] + p.1;
        let nl = p.0.len() as int;
        assert(chunk =~= (if form == 0 {
            seq![0x20u8, 0x2d, 0x63, 0x20]
        } else if form == 1 {
            seq![0x20u8, 0x2d, 0x63]
        } else {
            seq![0x20u8, 0x2d, 0x2d]
        }) + word);
        assert(options_text(pairs, forms) == chunk + options_text(rest, rest_forms));
        assert(s.len() - i == chunk.len() + options_text(rest, rest_forms).len());
        let e = i + chunk.len();
        assert(chunk.len() == lead + word.len());
        assert forall|k: int| 0 <= k < chunk.len() implies s[i + k] == #[trigger] chunk[k] by {
            assert(s[i + k] == s.subrange(i, s.len() as int)[k]);
            assert((chunk + options_text(rest, rest_forms))[k] == chunk[k]);
        }
        assert(s.subrange(e, s.len() as int) =~= options_text(rest, rest_forms)) by {
            assert forall|k: int| 0 <= k < s.len() - e implies s.subrange(e, s.len() as int)[k]
                == options_text(rest, rest_forms)[k] by {
                assert(s[e + k] == s.subrange(i, s.len() as int)[e - i + k]);
                assert((chunk + options_text(rest, rest_forms))[chunk.len() + k] == options_text(
                    rest,
                    rest_forms,
                )[k]);
            }
        }
        if rest.len() > 0 {
            assert(options_text(rest, rest_forms)[0] == option_text(rest[0], rest_forms[0])[0]);
            assert(s[e] == s.subrange(e, s.len() as int)[0]);
        }
        assert forall|k: int| 0 <= k < word.len() implies visible(#[trigger] word[k]) by {
            if k < nl {
                assert(word[k] == p.0[k]);
            } else if k > nl {
                assert(word[k] == p.1[k - nl - 1]);
            }
        }
        assert forall|k: int| 0 <= k < word.len() implies s[i + lead + k] == #[trigger] word[k] by {
            assert(s[i + lead + k] == chunk[lead + k]);
        }
        assert(chunk[0] == 0x20u8 && chunk[1] == 0x2du8);
        assert(s[i] == 0x20 && s[i + 1] == 0x2d);
        assert(skip_ws(s, i + 1) == i + 1);
        assert(skip_ws(s, i) == i + 1);
        lemma_setting_word(p);
        assert forall|k: int| i + lead <= k < e implies visible(#[trigger] s[k]) by {
            assert(s[k] == word[k - i - lead]);
        }
        assert(word[0] == s[i + lead]);
        if form == 0 {
            assert(chunk[2] == 0x63u8 && chunk[3] == 0x20u8);
            assert(s[i + 2] == 0x63 && s[i + 3] == 0x20);
            lemma_visible_run(s, i + 1, i + 3);
            assert(s.subrange(i + 1, i + 3) =~= seq![0x2du8, 0x63]);
            assert(skip_ws(s, i + 4) == i + 4);
            assert(skip_ws(s, i + 3) == i + 4);
            lemma_visible_run(s, i + 4, e);
            assert(s.subrange(i + 4, e) =~= word);
        } else {
            assert(chunk[2] == s[i + 2]);
            assert(visible(s[i + 2]));
            lemma_visible_run(s, i + 1, e);
            let w = s.subrange(i + 1, e);
            assert(w.len() >= 3);
            assert(w != seq![0x2du8, 0x63]);
            assert(w[0] == 0x2d && w[1] == chunk[2]);
            assert(w.subrange(2, w.len() as int) =~= word);
        }
        assert forall|k: int| 0 <= k < rest.len() implies writable_setting(#[trigger] rest[k]) by {
            assert(rest[k] == pairs[k + 1]);
        }
        lemma_options_text(s, e, rest, rest_forms);
        assert(seq![p] + rest =~= pairs);
    }
}

/// Settings a client writes into `options`, each as `-c name=value`,
/// `-cname=value` or `--name=value` with a name of visible bytes without `=`
/// and a value of visible bytes, all read back from it: every one of them,
/// in the order written.
pub proof fn law_written_settings_read_back(pairs: Seq<(Seq<u8>, Seq<u8>)>, forms: Seq<nat>)
    requires
        forms.len() == pairs.len(),
        forall|k: int| 0 <= k < pairs.len() ==> writable_setting(#[trigger] pairs[k]),
    ensures
        option_settings(options_text(pairs, forms), 0) == pairs,
{
    let s = options_text(pairs, forms);
    assert(s.subrange(0, s.len() as int) =~= s);
    lemma_options_text(s, 0, pairs, forms);
}

/// The runtime settings packed into an `options` value, as owned pairs.
pub fn parse_options(value: &str) -> (r: Vec<(String, String)>)
    ensures
        pair_bytes(r@) == settings_text(option_settings(value.spec_bytes(), 0)),
{
    let s = value.as_bytes();
    let mut out: Vec<(String, String)> = Vec::new();
    let mut i: usize = 0;
    proof {
        assert(pair_bytes(out@) =~= Seq::<(Seq<u8>, Seq<u8>)>::empty());
    }
    loop
        invariant
            i <= s@.len(),
            s@ == value.spec_bytes(),
            settings_text(option_settings(s@, 0)) == pair_bytes(out@) + settings_text(option_settings(s@, i as int)),
        decreases s@.len() - i,
    {
        proof {
            lemma_skip_ws(s@, i as int);
        }
        let a = exec_skip_ws(s, i);
        proof {
            lemma_find_ws(s@, a as int);
        }
        let b = exec_find_ws(s, a);
        if a >= s.len() || b <= a {
            proof {
                assert(pair_bytes(out@) + Seq::<(Seq<u8>, Seq<u8>)>::empty() =~= pair_bytes(out@));
                assert(settings_text(Seq::<(Seq<u8>, Seq<u8>)>::empty()) =~= Seq::<(Seq<u8>, Seq<u8>)>::empty());
            }
            return out;
        }
        let word = vstd::slice::slice_subrange(s, a, b);
        let ghost before = pair_bytes(out@);
        if word.len() == 2 && word[0] == 0x2d && word[1] == 0x63 {
            proof {
                assert(word@ =~= seq![0x2du8, 0x63]);
                lemma_skip_ws(s@, b as int);
            }
            let c = exec_skip_ws(s, b);
            proof {
                lemma_find_ws(s@, c as int);
            }
            let d = exec_find_ws(s, c);
            if c >= s.len() || d <= c {
                proof {
                    assert(pair_bytes(out@) + Seq::<(Seq<u8>, Seq<u8>)>::empty() =~= pair_bytes(out@));
                    assert(settings_text(Seq::<(Seq<u8>, Seq<u8>)>::empty()) =~= Seq::<(Seq<u8>, Seq<u8>)>::empty());
                }
                return out;
            }
            let setting = vstd::slice::slice_subrange(s, c, d);
            push_setting(&mut out, setting);
            proof {
                match split_setting(setting@) {
                    Some(p) => {
                        lemma_settings_text_append(seq![p], option_settings(s@, d as int));
                    },
                    None => {
                        assert(pair_bytes(out@) =~= before);
                    },
                }
            }
            i = d;
        } else if word.len() >= 2 && word[0] == 0x2d && (word[1] == 0x63 || word[1] == 0x2d) {
            let setting = vstd::slice::slice_subrange(word, 2, word.len());
            push_setting(&mut out, setting);
            proof {
                assert(!(word@ =~= seq![0x2du8, 0x63]) || word@ != seq![0x2du8, 0x63]);
                match split_setting(setting@) {
                    Some(p) => {
                        lemma_settings_text_append(seq![p], option_settings(s@, b as int));
                    },
                    None => {
                        assert(pair_bytes(out@) =~= before);
                    },
                }
            }
            i = b;
        } else {
            proof {
                if word@ == seq![0x2du8, 0x63] {
                    assert(word@[0] == 0x2d && word@[1] == 0x63);
                }
            }
            i = b;
        }
    }
}

impl<'a> Startup<'a> {
    /// The runtime settings in the `options` parameter, for a startup packet.
    pub fn options(&self) -> (r: Vec<(String, String)>)
        ensures
            match self {
                Startup::StartupMessage { params, .. } => match param_value(params@, "options".spec_bytes()) {
                    Some(v) => pair_bytes(r@) == settings_text(option_settings(v.spec_bytes(), 0)),
                    None => r@.len() == 0,
                },
                _ => r@.len() == 0,
            },
    {
        match self {
            Startup::StartupMessage { params, .. } => match find_param(params, "options".as_bytes()) {
                Some(v) => parse_options(v),
                None => Vec::new(),
            },
            _ => Vec::new(),
        }
    }
}

// ---------------------------------------------------------------------------
// Big-endian integers
// ---------------------------------------------------------------------------

/// The big-endian 32-bit unsigned integer in `s[at..at + 4]`.
pub open spec fn be32(s: Seq<u8>, at: int) -> int {
    s[at] * 16777216 + s[at + 1] * 65536 + s[at + 2] * 256 + s[at + 3]
}

/// The big-endian 16-bit unsigned integer in `s[at..at + 2]`.
pub open spec fn be16(s: Seq<u8>, at: int) -> int {
    s[at] * 256 + s[at + 1]
}

/// The four big-endian bytes of `n`.
pub open spec fn be32_bytes(n: u32) -> Seq<u8> {
    seq![
        (n / 16777216) as u8,
        ((n / 65536) % 256) as u8,
        ((n / 256) % 256) as u8,
        (n % 256) as u8,
    ]
}

/// Reads [`be32`].
pub fn read_be32(s: &[u8], at: usize) -> (r: u32)
    requires
        at + 4 <= s@.len(),
    ensures
        r == be32(s@, at as int),
{
    let v: u64 = (s[at] as u64) * 16777216 + (s[at + 1] as u64) * 65536 + (s[at + 2] as u64) * 256
        + (s[at + 3] as u64);
    v as u32
}

/// Reads [`be16`].
pub fn read_be16(s: &[u8], at: usize) -> (r: u16)
    requires
        at + 2 <= s@.len(),
    ensures
        r == be16(s@, at as int),
{
    let v: u32 = (s[at] as u32) * 256 + (s[at + 1] as u32);
    v as u16
}

/// Appends [`be32_bytes`].
pub fn push_be32(out: &mut Vec<u8>, n: u32)
    ensures
        final(out)@ == old(out)@ + be32_bytes(n),
{
    out.push((n / 16777216) as u8);
    out.push(((n / 65536) % 256) as u8);
    out.push(((n / 256) % 256) as u8);
    out.push((n % 256) as u8);
    assert(out@ =~= old(out)@ + be32_bytes(n));
}

/// Whether two pieces of text are the same, compared by their bytes.
pub fn str_eq(a: &str, b: &str) -> (r: bool)
    ensures
        r == (a@ == b@),
{
    let same = bytes_eq(a.as_bytes(), b.as_bytes());
    proof {
        vstd::utf8::encode_utf8_decode_utf8(a@);
        vstd::utf8::encode_utf8_decode_utf8(b@);
    }
    same
}

} // verus!
