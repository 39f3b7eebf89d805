//! Holding back an extended-query sequence so the cache can answer it.
//!
//! A frontend must send a `Sync` or a `Flush` before it examines the results
//! of an extended-query command, so a proxy may hold a sequence until the
//! client asks for an answer, and a cache hit then saves the pooled
//! connection entirely. This is the machine that holds one.
//!
//! It lists what it can hold, and everything else is [`Held::Send`]: a
//! message nobody has thought about goes upstream rather than being
//! swallowed, which costs a miss instead of a desynchronised protocol.
use vstd::prelude::*;

use crate::proto::{FrontendMessage, Tag, Target, be16, be32, be32_bytes, read_be16, read_be32, push_be32, str_eq};
use crate::text::{find_byte, lemma_find_byte, exec_find_byte};

verus! {

/// The most a session will hold on the client's behalf, in bytes.
pub const MAX_HELD_BYTES: usize = 64 * 1024;

/// What the shell should do with the frame it just fed in.
#[derive(Clone, Copy, Debug, PartialEq, Eq, Structural)]
pub enum Held {
    /// Kept. Nothing goes upstream, and the client is owed nothing yet.
    Withheld,
    /// The sequence is complete and can be looked up. The frames are still
    /// held: a miss replays them and a hit answers them.
    Complete,
    /// Send whatever is held, in arrival order, then this frame as usual.
    Send,
}

/// What the caller knows about the frame it is feeding in.
#[derive(Clone, Copy, Debug, Default)]
pub struct Facts<'a> {
    /// The SQL of the statement this frame concerns, where the caller knows
    /// it: the exact text it checked for cacheability.
    pub sql: Option<&'a str>,
    /// Whether a sequence may begin at this frame: the caller's whole entry
    /// condition. Consulted only when nothing is held yet.
    pub may_begin: bool,
}

/// How far a held sequence has got: a `Parse`, then a `Bind`, then at most
/// one `Describe` of its portal, then the `Execute`.
#[derive(Clone, Copy, Debug, PartialEq, Eq, Structural)]
pub enum Step {
    /// Nothing yet.
    Nothing,
    /// A `Parse` is held.
    Parsed,
    /// A `Bind` is held.
    Bound,
    /// The `Execute` is held.
    Executed,
}

/// Why a stored payload cannot answer a held sequence. Each is a miss.
#[derive(Clone, Copy, Debug, PartialEq, Eq, Structural)]
pub enum Unservable {
    /// The client asked for a description the payload does not carry.
    NoRowDescription,
    /// The payload is not a description, rows and a completion.
    Malformed,
    /// Asked to answer a sequence that has not run a statement.
    NothingRan,
}

/// `ParseComplete`, which the client is owed for a `Parse` nothing ran.
pub open spec fn parse_complete() -> Seq<u8> {
    seq![0x31u8, 0, 0, 0, 4]
}

/// `BindComplete`, likewise.
pub open spec fn bind_complete() -> Seq<u8> {
    seq![0x32u8, 0, 0, 0, 4]
}

/// `ReadyForQuery` with the idle status.
pub open spec fn ready_idle() -> Seq<u8> {
    seq![0x5au8, 0, 0, 0, 5, 0x49]
}

// ---------------------------------------------------------------------------
// Stored payloads
// ---------------------------------------------------------------------------

/// Whether a backend frame belongs in a stored payload: a description, rows
/// and the completion, and nothing that answers the client's framing rather
/// than its question.
pub open spec fn spec_belongs_in_payload(tag: Tag) -> bool {
    tag.0 == Tag::ROW_DESCRIPTION || tag.0 == Tag::DATA_ROW || tag.0 == Tag::COMMAND_COMPLETE
        || tag.0 == Tag::EMPTY_QUERY_RESPONSE
}

/// Whether a backend frame belongs in a stored payload.
pub fn belongs_in_payload(tag: Tag) -> (r: bool)
    ensures
        r == spec_belongs_in_payload(tag),
{
    tag.0 == Tag::ROW_DESCRIPTION || tag.0 == Tag::DATA_ROW || tag.0 == Tag::COMMAND_COMPLETE || tag.0
        == Tag::EMPTY_QUERY_RESPONSE
}

/// Where the frame starting at `at` ends, if its header is whole, its length
/// covers its own four bytes, and it fits.
pub open spec fn frame_end(p: Seq<u8>, at: int) -> Option<int> {
    if at < 0 || at + 5 > p.len() || be32(p, at + 1) < 4 || at + 1 + be32(p, at + 1) > p.len() {
        None
    } else {
        Some(at + 1 + be32(p, at + 1))
    }
}

/// Walks a payload from `at`, having seen a description ending at
/// `description` and a completion if `completed`: every frame whole and
/// belonging in a payload, a description only first, nothing after the
/// completion, and a completion at the end. On success, where the
/// description ends, if there is one, and where the rows start.
pub open spec fn walk_payload(p: Seq<u8>, at: int, description: Option<int>, completed: bool) -> Result<(Option<int>, int), Unservable>
    decreases p.len() - at,
{
    if at < 0 || at > p.len() {
        Err(Unservable::Malformed)
    } else if at == p.len() {
        if completed {
            Ok((description, match description {
                Some(e) => e,
                None => 0,
            }))
        } else {
            Err(Unservable::Malformed)
        }
    } else if completed {
        Err(Unservable::Malformed)
    } else {
        match frame_end(p, at) {
            None => Err(Unservable::Malformed),
            Some(end) => {
                let tag = Tag(p[at]);
                if !spec_belongs_in_payload(tag) || end <= at {
                    Err(Unservable::Malformed)
                } else if tag.0 == Tag::ROW_DESCRIPTION {
                    if at != 0 {
                        Err(Unservable::Malformed)
                    } else {
                        walk_payload(p, end, Some(end), completed)
                    }
                } else if tag.0 == Tag::COMMAND_COMPLETE || tag.0 == Tag::EMPTY_QUERY_RESPONSE {
                    walk_payload(p, end, description, true)
                } else {
                    walk_payload(p, end, description, completed)
                }
            },
        }
    }
}

/// A payload split into its description frame, if any, and everything
/// after it.
pub open spec fn spec_split(p: Seq<u8>) -> Result<(Option<Seq<u8>>, Seq<u8>), Unservable> {
    match walk_payload(p, 0, None, false) {
        Ok((description, rows_from)) => Ok(
            (
                match description {
                    Some(e) => Some(p.subrange(0, e)),
                    None => None,
                },
                p.subrange(rows_from, p.len() as int),
            ),
        ),
        Err(e) => Err(e),
    }
}

/// One backend frame as a stored payload holds it: tag, length, body.
pub open spec fn stored_frame(f: (u8, Seq<u8>)) -> Seq<u8> {
    seq![f.0] + be32_bytes((f.1.len() + 4) as u32) + f.1
}

/// Backend frames one after another, as a stored payload holds them.
pub open spec fn stored_frames(fs: Seq<(u8, Seq<u8>)>) -> Seq<u8>
    decreases fs.len(),
{
    if fs.len() == 0 {
        Seq::empty()
    } else {
        stored_frame(fs[0]) + stored_frames(fs.drop_first())
    }
}

/// Whether frames have the shape of a stored answer: a `RowDescription`
/// only first, `DataRow`s, and one completion (`CommandComplete` or
/// `EmptyQueryResponse`), last; each body short enough for its length field.
pub open spec fn answer_shape(fs: Seq<(u8, Seq<u8>)>) -> bool {
    &&& fs.len() >= 1
    &&& (fs.last().0 == Tag::COMMAND_COMPLETE || fs.last().0 == Tag::EMPTY_QUERY_RESPONSE)
    &&& forall|i: int| 0 <= i < fs.len() - 1 ==> (#[trigger] fs[i]).0 == Tag::DATA_ROW || (i == 0 && fs[i].0
        == Tag::ROW_DESCRIPTION)
    &&& forall|i: int| 0 <= i < fs.len() ==> (#[trigger] fs[i]).1.len() + 4 <= 0xffff_ffff
}

proof fn lemma_stored_frame_header(p: Seq<u8>, at: int, f: (u8, Seq<u8>), rest: Seq<u8>)
    requires
        0 <= at,
        at + stored_frame(f).len() + rest.len() == p.len(),
        p.subrange(at, p.len() as int) == stored_frame(f) + rest,
        f.1.len() + 4 <= 0xffff_ffff,
    ensures
        p[at] == f.0,
        frame_end(p, at) == Some(at + 5 + f.1.len()),
        p.subrange(at + 5 + f.1.len(), p.len() as int) == rest,
        p.subrange(at, at + 5 + f.1.len()) == stored_frame(f),
{
    let sf = stored_frame(f);
    let n = (f.1.len() + 4) as u32;
    assert(sf.len() == 5 + f.1.len());
    assert(p[at] == p.subrange(at, p.len() as int)[0]);
    assert forall|k: int| 0 <= k < 4 implies p[at + 1 + k] == be32_bytes(n)[k] by {
        assert(p[at + 1 + k] == p.subrange(at, p.len() as int)[1 + k]);
        assert((stored_frame(f) + rest)[1 + k] == sf[1 + k]);
    }
    crate::encode::lemma_be32_round_trip(n);
    assert(be32(p, at + 1) == be32(be32_bytes(n), 0));
    assert(p.subrange(at + 5 + f.1.len(), p.len() as int) =~= (stored_frame(f) + rest).subrange(sf.len() as int, (sf.len() + rest.len()) as int));
    assert((stored_frame(f) + rest).subrange(sf.len() as int, (sf.len() + rest.len()) as int) =~= rest);
    assert(p.subrange(at, at + 5 + f.1.len()) =~= (stored_frame(f) + rest).subrange(0, sf.len() as int));
    assert((stored_frame(f) + rest).subrange(0, sf.len() as int) =~= sf);
}

#[verifier::rlimit(40)]
proof fn lemma_walk_rows(p: Seq<u8>, at: int, fs: Seq<(u8, Seq<u8>)>, description: Option<int>)
    requires
        0 <= at,
        at + stored_frames(fs).len() == p.len(),
        p.subrange(at, p.len() as int) == stored_frames(fs),
        fs.len() >= 1,
        fs.last().0 == Tag::COMMAND_COMPLETE || fs.last().0 == Tag::EMPTY_QUERY_RESPONSE,
        forall|i: int| 0 <= i < fs.len() - 1 ==> (#[trigger] fs[i]).0 == Tag::DATA_ROW,
        forall|i: int| 0 <= i < fs.len() ==> (#[trigger] fs[i]).1.len() + 4 <= 0xffff_ffff,
    ensures
        walk_payload(p, at, description, false) == Ok::<(Option<int>, int), Unservable>(
            (
                description,
                match description {
                    Some(e) => e,
                    None => 0,
                },
            ),
        ),
    decreases fs.len(),
{
    let f = fs[0];
    let rest = fs.drop_first();
    assert(fs[0].1.len() + 4 <= 0xffff_ffff);
    assert(stored_frames(fs) == stored_frame(f) + stored_frames(rest));
    lemma_stored_frame_header(p, at, f, stored_frames(rest));
    let end: int = at + 5 + f.1.len() as int;
    assert(spec_belongs_in_payload(Tag(p[at])));
    if fs.len() == 1 {
        assert(rest.len() == 0);
        assert(end == p.len());
        assert(p[at] == Tag::COMMAND_COMPLETE || p[at] == Tag::EMPTY_QUERY_RESPONSE);
        assert(walk_payload(p, at, description, false) == walk_payload(p, end, description, true));
    } else {
        assert(fs[0].0 == Tag::DATA_ROW);
        assert(rest.last() == fs.last());
        assert forall|i: int| 0 <= i < rest.len() - 1 implies (#[trigger] rest[i]).0 == Tag::DATA_ROW by {
            assert(rest[i] == fs[i + 1]);
        }
        assert forall|i: int| 0 <= i < rest.len() implies (#[trigger] rest[i]).1.len() + 4 <= 0xffff_ffff by {
            assert(rest[i] == fs[i + 1]);
        }
        assert(walk_payload(p, at, description, false) == walk_payload(p, end, description, false));
        lemma_walk_rows(p, end, rest, description);
    }
}

/// A payload made of frames in the shape of a stored answer splits as it
/// was written: its `RowDescription`, if it leads, as the description, and
/// every frame after it as the rows.
pub proof fn law_a_stored_answer_splits_as_written(fs: Seq<(u8, Seq<u8>)>)
    requires
        answer_shape(fs),
    ensures
        spec_split(stored_frames(fs)) == if fs[0].0 == Tag::ROW_DESCRIPTION {
            Ok::<(Option<Seq<u8>>, Seq<u8>), Unservable>((Some(stored_frame(fs[0])), stored_frames(fs.drop_first())))
        } else {
            Ok::<(Option<Seq<u8>>, Seq<u8>), Unservable>((None, stored_frames(fs)))
        },
{
    let p = stored_frames(fs);
    assert(p.subrange(0, p.len() as int) =~= p);
    if fs[0].0 == Tag::ROW_DESCRIPTION {
        let rest = fs.drop_first();
        assert(fs[0].1.len() + 4 <= 0xffff_ffff);
        lemma_stored_frame_header(p, 0, fs[0], stored_frames(rest));
        let end: int = 5 + fs[0].1.len() as int;
        assert(fs.len() >= 2);
        assert(rest.last() == fs.last());
        assert forall|i: int| 0 <= i < rest.len() - 1 implies (#[trigger] rest[i]).0 == Tag::DATA_ROW by {
            assert(rest[i] == fs[i + 1]);
        }
        assert forall|i: int| 0 <= i < rest.len() implies (#[trigger] rest[i]).1.len() + 4 <= 0xffff_ffff by {
            assert(rest[i] == fs[i + 1]);
        }
        lemma_walk_rows(p, end, rest, Some(end));
    } else {
        assert forall|i: int| 0 <= i < fs.len() - 1 implies (#[trigger] fs[i]).0 == Tag::DATA_ROW by {
            if i == 0 {
                assert(fs[0].0 != Tag::ROW_DESCRIPTION);
            }
        }
        lemma_walk_rows(p, 0, fs, None);
    }
}

proof fn lemma_walk_bounds(p: Seq<u8>, at: int, description: Option<int>, completed: bool)
    requires
        0 <= at <= p.len(),
        description matches Some(e) ==> 0 <= e <= at,
    ensures
        walk_payload(p, at, description, completed) matches Ok((d, r)) ==> 0 <= r <= p.len() && (d matches Some(e) ==> e == r),
        walk_payload(p, at, description, completed) matches Ok((d, r)) ==> (d is None ==> r == 0),
    decreases p.len() - at,
{
    if at < p.len() && !completed {
        match frame_end(p, at) {
            Some(end) => {
                if spec_belongs_in_payload(Tag(p[at])) && end > at {
                    if p[at] == Tag::ROW_DESCRIPTION {
                        if at == 0 {
                            lemma_walk_bounds(p, end, Some(end), completed);
                        }
                    } else if p[at] == Tag::COMMAND_COMPLETE || p[at] == Tag::EMPTY_QUERY_RESPONSE {
                        lemma_walk_bounds(p, end, description, true);
                    } else {
                        lemma_walk_bounds(p, end, description, completed);
                    }
                }
            },
            None => {},
        }
    }
}

/// Splits a payload into its description, if any, and everything after it.
///
/// Validated rather than trusted: an entry written by a node running another
/// version has the same shape as a corrupt one, and both must be a miss.
pub fn split(payload: &[u8]) -> (r: Result<(Option<&[u8]>, &[u8]), Unservable>)
    ensures
        match spec_split(payload@) {
            Ok((d, rows)) => r matches Ok((d2, rows2)) && rows2@ == rows && match d {
                Some(dd) => d2 matches Some(x) && x@ == dd,
                None => d2 is None,
            },
            Err(e) => r == Err::<(Option<&[u8]>, &[u8]), Unservable>(e),
        },
{
    let n = payload.len();
    let mut at: usize = 0;
    let mut description: Option<usize> = None;
    let mut completed = false;
    loop
        invariant
            at <= n,
            n == payload@.len(),
            description matches Some(e) ==> e <= at,
            walk_payload(payload@, 0, None, false) == walk_payload(
                payload@,
                at as int,
                match description {
                    Some(e) => Some(e as int),
                    None => None,
                },
                completed,
            ),
        decreases n - at,
    {
        let ghost d_int = match description {
            Some(e) => Some(e as int),
            None => None::<int>,
        };
        if at == n {
            proof {
                lemma_walk_bounds(payload@, at as int, d_int, completed);
            }
            if completed {
                let rows_from = match description {
                    Some(e) => e,
                    None => 0,
                };
                let d = match description {
                    Some(e) => Some(vstd::slice::slice_subrange(payload, 0, e)),
                    None => None,
                };
                return Ok((d, vstd::slice::slice_subrange(payload, rows_from, n)));
            }
            return Err(Unservable::Malformed);
        }
        if completed || n - at < 5 {
            return Err(Unservable::Malformed);
        }
        let tag = Tag(payload[at]);
        let len = read_be32(payload, at + 1);
        if len < 4 || (len as usize) > n - at - 1 {
            return Err(Unservable::Malformed);
        }
        let end = at + 1 + len as usize;
        if !belongs_in_payload(tag) || end <= at {
            return Err(Unservable::Malformed);
        }
        if tag.0 == Tag::ROW_DESCRIPTION {
            if at != 0 {
                return Err(Unservable::Malformed);
            }
            description = Some(end);
        } else if tag.0 == Tag::COMMAND_COMPLETE || tag.0 == Tag::EMPTY_QUERY_RESPONSE {
            completed = true;
        }
        at = end;
    }
}

// ---------------------------------------------------------------------------
// Held frames
// ---------------------------------------------------------------------------

/// The next frame of a held buffer: its tag, its body and what follows, if a
/// whole frame is there.
pub open spec fn next_frame(rest: Seq<u8>) -> Option<(Tag, Seq<u8>, Seq<u8>)> {
    if rest.len() < 5 || be32(rest, 1) < 4 || 1 + be32(rest, 1) > rest.len() {
        None
    } else {
        let end = 1 + be32(rest, 1);
        Some((Tag(rest[0]), rest.subrange(5, end), rest.subrange(end, rest.len() as int)))
    }
}

/// The tags of the whole frames at the front of a buffer, in order, up to the
/// first that is not whole.
pub open spec fn frame_tags(rest: Seq<u8>) -> Seq<Tag>
    decreases rest.len(),
{
    match next_frame(rest) {
        Some((tag, body, after)) => if after.len() < rest.len() {
            seq![tag] + frame_tags(after)
        } else {
            Seq::empty()
        },
        None => Seq::empty(),
    }
}

/// The held frames, walked in arrival order.
///
/// Not `Copy`: a copy of a half-consumed walk that kept walking would replay
/// frames the caller had already sent.
#[derive(Clone, Debug)]
pub struct Frames<'a> {
    rest: &'a [u8],
}

impl<'a> View for Frames<'a> {
    type V = Seq<u8>;

    closed spec fn view(&self) -> Seq<u8> {
        self.rest@
    }
}

impl<'a> Frames<'a> {
    /// A walk over the frames of `bytes`.
    pub fn over(bytes: &'a [u8]) -> (r: Frames<'a>)
        ensures
            r@ == bytes@,
    {
        Frames { rest: bytes }
    }

    /// The next frame, or `None` once no whole frame is left. Bounds are
    /// checked even on a buffer this module wrote.
    pub fn next(&mut self) -> (r: Option<(Tag, &'a [u8])>)
        ensures
            match next_frame(old(self)@) {
                Some((tag, body, after)) => r matches Some((t, b)) && t == tag && b@ == body && final(self)@ == after,
                None => r is None && final(self)@ == old(self)@,
            },
    {
        let n = self.rest.len();
        if n < 5 {
            return None;
        }
        let len = read_be32(self.rest, 1);
        if len < 4 || (len as usize) > n - 1 {
            return None;
        }
        let end = 1 + len as usize;
        let tag = Tag(self.rest[0]);
        let body = vstd::slice::slice_subrange(self.rest, 5, end);
        self.rest = vstd::slice::slice_subrange(self.rest, end, n);
        Some((tag, body))
    }
}

// ---------------------------------------------------------------------------
// Bind parameters
// ---------------------------------------------------------------------------

/// Where `n` parameter values starting at `at` end: each a 32-bit length,
/// `-1` for a null with nothing after it, and otherwise that many bytes.
pub open spec fn params_end(b: Seq<u8>, at: int, n: nat) -> Option<int>
    decreases n,
{
    if n == 0 {
        Some(at)
    } else if at < 0 || at + 4 > b.len() {
        None
    } else if be32(b, at) == 0xffff_ffff {
        params_end(b, at + 4, (n - 1) as nat)
    } else if be32(b, at) >= 0x8000_0000 || at + 4 + be32(b, at) > b.len() {
        None
    } else {
        params_end(b, at + 4 + be32(b, at), (n - 1) as nat)
    }
}

/// Where a `Bind` body's parameter values lie: after the portal and statement
/// names, the format codes and the parameter count.
pub open spec fn bind_params_range(b: Seq<u8>) -> Option<(int, int)> {
    match find_byte(b, 0, 0) {
        None => None,
        Some(p0) => match find_byte(b, 0, p0 + 1) {
            None => None,
            Some(s0) => {
                let f = s0 + 1;
                if f + 2 > b.len() || be16(b, f) >= 0x8000 {
                    None
                } else {
                    let c = f + 2 + 2 * be16(b, f);
                    if c + 2 > b.len() || be16(b, c) >= 0x8000 {
                        None
                    } else {
                        match params_end(b, c + 2, be16(b, c) as nat) {
                            Some(e) => Some((c + 2, e)),
                            None => None,
                        }
                    }
                }
            },
        },
    }
}

/// The parameter values of a `Bind` body as the wire carried them, or
/// nothing when they cannot be read.
pub open spec fn spec_bind_parameters(b: Seq<u8>) -> Seq<u8> {
    match bind_params_range(b) {
        Some((a, e)) => b.subrange(a, e),
        None => Seq::empty(),
    }
}

proof fn lemma_params_end(b: Seq<u8>, at: int, n: nat)
    requires
        0 <= at,
    ensures
        params_end(b, at, n) matches Some(e) ==> at <= e <= b.len() || (n == 0 && e == at),
    decreases n,
{
    if n > 0 && at + 4 <= b.len() {
        if be32(b, at) == 0xffff_ffff {
            lemma_params_end(b, at + 4, (n - 1) as nat);
        } else if !(be32(b, at) >= 0x8000_0000 || at + 4 + be32(b, at) > b.len()) {
            lemma_params_end(b, at + 4 + be32(b, at), (n - 1) as nat);
        }
    }
}

/// The two big-endian bytes of `n`.
pub open spec fn two_bytes(n: nat) -> Seq<u8> {
    seq![(n / 256) as u8, (n % 256) as u8]
}

/// Format or result codes as a `Bind` carries them, two bytes each.
pub open spec fn codes_bytes(codes: Seq<u16>) -> Seq<u8>
    decreases codes.len(),
{
    if codes.len() == 0 {
        Seq::empty()
    } else {
        two_bytes(codes[0] as nat) + codes_bytes(codes.drop_first())
    }
}

/// One parameter value as a `Bind` carries it: its length and bytes, or a
/// length of -1 for a null.
pub open spec fn value_bytes(v: Option<Seq<u8>>) -> Seq<u8> {
    match v {
        Some(bytes) => be32_bytes(bytes.len() as u32) + bytes,
        None => be32_bytes(0xffff_ffff),
    }
}

/// Whether a value's length fits the positive range of its length field.
pub open spec fn short_value(v: Option<Seq<u8>>) -> bool {
    match v {
        Some(bytes) => bytes.len() < 0x8000_0000,
        None => true,
    }
}

/// Parameter values one after another, as a `Bind` carries them.
pub open spec fn values_bytes(values: Seq<Option<Seq<u8>>>) -> Seq<u8>
    decreases values.len(),
{
    if values.len() == 0 {
        Seq::empty()
    } else {
        value_bytes(values[0]) + values_bytes(values.drop_first())
    }
}

/// A `Bind` body written out: portal and statement names, the parameter
/// format codes, the parameter values and the result format codes, each list
/// after its count.
pub open spec fn bind_body(
    portal: Seq<u8>,
    statement: Seq<u8>,
    formats: Seq<u16>,
    values: Seq<Option<Seq<u8>>>,
    results: Seq<u16>,
) -> Seq<u8> {
    portal + seq![0u8] + statement + seq![0u8] + two_bytes(formats.len()) + codes_bytes(formats) + two_bytes(
        values.len(),
    ) + values_bytes(values) + two_bytes(results.len()) + codes_bytes(results)
}

proof fn lemma_codes_len(codes: Seq<u16>)
    ensures
        codes_bytes(codes).len() == 2 * codes.len(),
    decreases codes.len(),
{
    if codes.len() > 0 {
        lemma_codes_len(codes.drop_first());
    }
}

proof fn lemma_two_bytes(b: Seq<u8>, at: int, n: nat)
    requires
        n < 0x10000,
        0 <= at,
        at + 2 <= b.len(),
        b[at] == two_bytes(n)[0],
        b[at + 1] == two_bytes(n)[1],
    ensures
        be16(b, at) == n,
{
    assert((n / 256) as u8 == n / 256);
    assert((n % 256) as u8 == n % 256);
}

proof fn lemma_values_bytes(b: Seq<u8>, at: int, values: Seq<Option<Seq<u8>>>)
    requires
        0 <= at,
        at + values_bytes(values).len() <= b.len(),
        b.subrange(at, at + values_bytes(values).len()) == values_bytes(values),
        forall|k: int| 0 <= k < values.len() ==> short_value(#[trigger] values[k]),
    ensures
        params_end(b, at, values.len()) == Some(at + values_bytes(values).len()),
    decreases values.len(),
{
    if values.len() > 0 {
        let v = values[0];
        let rest = values.drop_first();
        let vb = value_bytes(v);
        let all = values_bytes(values);
        assert(all == vb + values_bytes(rest));
        assert forall|k: int| 0 <= k < vb.len() implies b[at + k] == #[trigger] vb[k] by {
            assert(b[at + k] == b.subrange(at, at + all.len())[k]);
            assert(all[k] == vb[k]);
        }
        let n: u32 = match v {
            Some(bytes) => bytes.len() as u32,
            None => 0xffff_ffffu32,
        };
        assert(vb.subrange(0, 4) == be32_bytes(n));
        assert(b[at] == vb[0] && b[at + 1] == vb[1] && b[at + 2] == vb[2] && b[at + 3] == vb[3]);
        crate::encode::lemma_be32_round_trip(n);
        assert(be32(b, at) == be32(be32_bytes(n), 0));
        let next = at + vb.len();
        assert(b.subrange(next, next + values_bytes(rest).len()) =~= values_bytes(rest)) by {
            assert forall|k: int| 0 <= k < values_bytes(rest).len() implies b.subrange(
                next,
                next + values_bytes(rest).len(),
            )[k] == values_bytes(rest)[k] by {
                assert(b[next + k] == b.subrange(at, at + all.len())[vb.len() + k]);
                assert(all[vb.len() + k] == values_bytes(rest)[k]);
            }
        }
        assert forall|k: int| 0 <= k < rest.len() implies short_value(#[trigger] rest[k]) by {
            assert(rest[k] == values[k + 1]);
        }
        match v {
            Some(bytes) => {
                assert(short_value(values[0]));
                assert(be32(b, at) == bytes.len());
            },
            None => {},
        }
        lemma_values_bytes(b, next, rest);
    }
}

/// A `Bind` body written out from its parts gives back exactly its
/// parameter values, lengths and bytes as written, whatever the format
/// codes before them and the result codes after them: the run that, with
/// the statement, keys a cached answer.
pub proof fn law_a_written_bind_gives_back_its_values(
    portal: Seq<u8>,
    statement: Seq<u8>,
    formats: Seq<u16>,
    values: Seq<Option<Seq<u8>>>,
    results: Seq<u16>,
)
    requires
        forall|k: int| 0 <= k < portal.len() ==> #[trigger] portal[k] != 0,
        forall|k: int| 0 <= k < statement.len() ==> #[trigger] statement[k] != 0,
        formats.len() < 0x8000,
        values.len() < 0x8000,
        results.len() < 0x8000,
        forall|k: int| 0 <= k < values.len() ==> short_value(#[trigger] values[k]),
    ensures
        spec_bind_parameters(bind_body(portal, statement, formats, values, results)) == values_bytes(values),
{
    let b = bind_body(portal, statement, formats, values, results);
    let p0 = portal.len() as int;
    let s0 = p0 + 1 + statement.len();
    let f = s0 + 1;
    lemma_codes_len(formats);
    lemma_codes_len(results);
    let c = f + 2 + 2 * formats.len();
    let run = values_bytes(values);
    let a = c + 2;
    let e = a + run.len();
    let tail = two_bytes(results.len()) + codes_bytes(results);
    assert(b == portal + seq![0u8] + statement + seq![0u8] + two_bytes(formats.len()) + codes_bytes(formats)
        + two_bytes(values.len()) + run + tail);
    assert(b.len() == e + tail.len());
    // The two names.
    lemma_find_byte(b, 0, 0);
    assert forall|k: int| 0 <= k < p0 implies b[k] != 0 by {
        assert(b[k] == portal[k]);
    }
    assert(b[p0] == 0);
    assert(find_byte(b, 0, 0) == Some(p0));
    lemma_find_byte(b, 0, p0 + 1);
    assert forall|k: int| p0 + 1 <= k < s0 implies b[k] != 0 by {
        assert(b[k] == statement[k - p0 - 1]);
    }
    assert(b[s0] == 0);
    assert(find_byte(b, 0, p0 + 1) == Some(s0));
    // The counts.
    assert(b[f] == two_bytes(formats.len())[0] && b[f + 1] == two_bytes(formats.len())[1]);
    lemma_two_bytes(b, f, formats.len());
    assert(b[c] == two_bytes(values.len())[0] && b[c + 1] == two_bytes(values.len())[1]);
    lemma_two_bytes(b, c, values.len());
    // The values.
    assert(b.subrange(a, e) =~= run);
    lemma_values_bytes(b, a, values);
    assert(bind_params_range(b) == Some((a, e)));
}

/// Reads the parameter values out of a `Bind` body.
pub fn bind_parameters(body: &[u8]) -> (r: Vec<u8>)
    ensures
        r@ == spec_bind_parameters(body@),
{
    let n = body.len();
    proof {
        lemma_find_byte(body@, 0, 0);
    }
    let p0 = match exec_find_byte(body, 0, 0) {
        Some(p) => p,
        None => return Vec::new(),
    };
    proof {
        lemma_find_byte(body@, 0, p0 + 1);
    }
    let s0 = match exec_find_byte(body, 0, p0 + 1) {
        Some(s) => s,
        None => return Vec::new(),
    };
    let f = s0 + 1;
    if n - f < 2 {
        return Vec::new();
    }
    let formats = read_be16(body, f);
    if formats >= 0x8000 {
        return Vec::new();
    }
    let skip = 2 * (formats as usize);
    if n - f - 2 < skip {
        return Vec::new();
    }
    let c = f + 2 + skip;
    if n - c < 2 {
        return Vec::new();
    }
    let count = read_be16(body, c);
    if count >= 0x8000 {
        return Vec::new();
    }
    let start = c + 2;
    let mut at = start;
    let mut left: u16 = count;
    proof {
        assert(bind_params_range(body@) == match params_end(body@, start as int, count as nat) {
            Some(e) => Some((start as int, e)),
            None => None::<(int, int)>,
        });
    }
    while left > 0
        invariant
            start <= at <= n,
            n == body@.len(),
            left <= count,
            params_end(body@, start as int, count as nat) == params_end(body@, at as int, left as nat),
            bind_params_range(body@) == match params_end(body@, start as int, count as nat) {
                Some(e) => Some((start as int, e)),
                None => None::<(int, int)>,
            },
        decreases left,
    {
        if n - at < 4 {
            return Vec::new();
        }
        let len = read_be32(body, at);
        if len == 0xffff_ffff {
            at = at + 4;
        } else if len >= 0x8000_0000 || (len as usize) > n - at - 4 {
            return Vec::new();
        } else {
            at = at + 4 + len as usize;
        }
        left = left - 1;
    }
    proof {
        lemma_params_end(body@, start as int, count as nat);
    }
    vstd::slice::slice_to_vec(vstd::slice::slice_subrange(body, start, at))
}

// ---------------------------------------------------------------------------
// The held sequence
// ---------------------------------------------------------------------------

/// A held sequence, as values.
pub struct HeldModel {
    /// The frames as they will go upstream: tag, length, body.
    pub frames: Seq<u8>,
    /// The statement's SQL, from whichever frame told the caller about it.
    pub sql: Option<Seq<char>>,
    /// The parameter values of the `Bind`.
    pub params: Seq<u8>,
    /// The portal the `Bind` named.
    pub portal: Seq<char>,
    /// How far it has got.
    pub step: Step,
    /// Whether the client asked for a `RowDescription`.
    pub described: bool,
}

/// Nothing held.
pub open spec fn empty_held() -> HeldModel {
    HeldModel {
        frames: Seq::empty(),
        sql: None,
        params: Seq::empty(),
        portal: Seq::empty(),
        step: Step::Nothing,
        described: false,
    }
}

/// The SQL a caller's facts name, as text.
pub open spec fn facts_sql(facts: Facts) -> Option<Seq<char>> {
    match facts.sql {
        Some(s) => Some(s@),
        None => None,
    }
}

/// Whether a sequence may begin at this message: a `Parse`, or a `Bind` from
/// a driver whose statement cache already prepared it.
pub open spec fn spec_begins(message: FrontendMessage) -> bool {
    message is Parse || message is Bind
}

/// Whether this frame fits the one shape that can be answered locally: one
/// `Parse` first, then one `Bind` of the same statement, then at most one
/// `Describe` of the portal it bound, then one `Execute` of that portal with
/// no row limit.
pub open spec fn spec_may_hold(h: HeldModel, message: FrontendMessage, facts: Facts) -> bool {
    match message {
        FrontendMessage::Parse { .. } => h.frames.len() == 0 && h.step == Step::Nothing && facts.sql is Some,
        FrontendMessage::Bind { .. } => (h.step == Step::Nothing || h.step == Step::Parsed)
            && facts.sql is Some && (h.sql is None || facts_sql(facts) == h.sql),
        FrontendMessage::Describe { target, name } => target == Target::Portal && h.step
            == Step::Bound && !h.described && name@ == h.portal,
        FrontendMessage::Execute { portal, max_rows } => h.step == Step::Bound && max_rows == 0
            && portal@ == h.portal,
        _ => false,
    }
}

/// What a held frame contributes.
pub open spec fn spec_record(h: HeldModel, message: FrontendMessage, facts: Facts, body: Seq<u8>) -> HeldModel {
    match message {
        FrontendMessage::Parse { .. } => HeldModel { step: Step::Parsed, sql: facts_sql(facts), ..h },
        FrontendMessage::Bind { portal, .. } => HeldModel {
            step: Step::Bound,
            sql: facts_sql(facts),
            portal: portal@,
            params: spec_bind_parameters(body),
            ..h
        },
        FrontendMessage::Describe { .. } => HeldModel { described: true, ..h },
        FrontendMessage::Execute { .. } => HeldModel { step: Step::Executed, ..h },
        _ => h,
    }
}

/// One client frame through the machine: the state after it and what the
/// shell does with it.
///
/// Nothing held and no sequence allowed to begin here: send. A `Sync` ends a
/// held sequence, complete if it executed and given up otherwise. A frame
/// that does not fit the shape, or would take the held bytes past
/// [`MAX_HELD_BYTES`], gives the sequence up. Anything else is withheld,
/// appended as tag, length and body.
pub open spec fn spec_feed(h: HeldModel, message: FrontendMessage, tag: Tag, body: Seq<u8>, facts: Facts) -> (HeldModel, Held) {
    if h.frames.len() == 0 && !(facts.may_begin && spec_begins(message)) {
        (h, Held::Send)
    } else if h.frames.len() != 0 && message is Sync {
        (h, if h.step == Step::Executed {
            Held::Complete
        } else {
            Held::Send
        })
    } else if !spec_may_hold(h, message, facts) {
        (h, Held::Send)
    } else if h.frames.len() + body.len() + 5 > MAX_HELD_BYTES {
        (h, Held::Send)
    } else {
        let r = spec_record(h, message, facts, body);
        (
            HeldModel {
                frames: h.frames + seq![tag.0] + be32_bytes((body.len() + 4) as u32) + body,
                ..r
            },
            Held::Withheld,
        )
    }
}

/// The answer a held sequence is owed, from a stored payload's description
/// and rows: for each held frame in order, a `ParseComplete` for a `Parse`, a
/// `BindComplete` for a `Bind`, the description for a `Describe` and the rows
/// for an `Execute`.
pub open spec fn answer_for(tags: Seq<Tag>, description: Seq<u8>, rows: Seq<u8>) -> Seq<u8>
    decreases tags.len(),
{
    if tags.len() == 0 {
        Seq::empty()
    } else {
        let first = if tags[0].0 == Tag::PARSE {
            parse_complete()
        } else if tags[0].0 == Tag::BIND {
            bind_complete()
        } else if tags[0].0 == Tag::DESCRIBE {
            description
        } else if tags[0].0 == Tag::EXECUTE {
            rows
        } else {
            Seq::empty()
        };
        first + answer_for(tags.drop_first(), description, rows)
    }
}

/// What assembling a held sequence from a payload gives: the error, or the
/// bytes appended to the output, ending in an idle `ReadyForQuery`.
pub open spec fn spec_assemble(h: HeldModel, payload: Seq<u8>) -> Result<Seq<u8>, Unservable> {
    if h.step != Step::Executed {
        Err(Unservable::NothingRan)
    } else {
        match spec_split(payload) {
            Err(e) => Err(e),
            Ok((description, rows)) => if h.described && description is None {
                Err(Unservable::NoRowDescription)
            } else {
                Ok(
                    answer_for(
                        frame_tags(h.frames),
                        match description {
                            Some(d) => d,
                            None => Seq::empty(),
                        },
                        rows,
                    ) + ready_idle(),
                )
            },
        }
    }
}

/// An extended-query sequence held back from the upstream.
#[derive(Debug)]
pub struct HeldSequence {
    frames: Vec<u8>,
    sql: Option<String>,
    params: Vec<u8>,
    portal: String,
    step: Step,
    described: bool,
}

impl View for HeldSequence {
    type V = HeldModel;

    closed spec fn view(&self) -> HeldModel {
        HeldModel {
            frames: self.frames@,
            sql: match self.sql {
                Some(s) => Some(s@),
                None => None,
            },
            params: self.params@,
            portal: self.portal@,
            step: self.step,
            described: self.described,
        }
    }
}

impl HeldSequence {
    /// The held bytes never exceed the bound.
    pub open spec fn wf(&self) -> bool {
        self@.frames.len() <= MAX_HELD_BYTES
    }

    /// A machine holding nothing.
    pub fn new() -> (r: HeldSequence)
        ensures
            r@ == empty_held(),
            r.wf(),
    {
        HeldSequence {
            frames: Vec::new(),
            sql: None,
            params: Vec::new(),
            portal: String::new(),
            step: Step::Nothing,
            described: false,
        }
    }

    /// Whether anything is held.
    pub fn is_empty(&self) -> (r: bool)
        ensures
            r == (self@.frames.len() == 0),
    {
        self.frames.len() == 0
    }

    /// The statement the sequence runs, once a frame has named one.
    pub fn sql(&self) -> (r: Option<&str>)
        ensures
            match r {
                Some(s) => self@.sql == Some(s@),
                None => self@.sql is None,
            },
    {
        match &self.sql {
            Some(s) => Some(s.as_str()),
            None => None,
        }
    }

    /// The parameter values to key on, empty when nothing was bound.
    pub fn params(&self) -> (r: &[u8])
        ensures
            r@ == self@.params,
    {
        self.params.as_slice()
    }

    /// Whether the client asked for a `RowDescription`.
    pub fn wants_row_description(&self) -> (r: bool)
        ensures
            r == self@.described,
    {
        self.described
    }

    /// The held frames, in the order they arrived.
    pub fn replay(&self) -> (r: Frames<'_>)
        ensures
            r@ == self@.frames,
    {
        Frames { rest: self.frames.as_slice() }
    }

    /// Forgets everything.
    pub fn clear(&mut self)
        ensures
            final(self)@ == empty_held(),
            final(self).wf(),
    {
        self.frames.clear();
        self.sql = None;
        self.params = Vec::new();
        self.portal = String::new();
        self.step = Step::Nothing;
        self.described = false;
    }

    /// Writes the answer this sequence is owed, out of a stored payload.
    ///
    /// Nothing is written on a refusal, so one cannot leave half an answer in
    /// the client's buffer. The closing `'I'` is an assertion rather than
    /// something relayed: withholding only starts with no connection held and
    /// no transaction open.
    pub fn assemble(&self, payload: &[u8], out: &mut Vec<u8>) -> (r: Result<(), Unservable>)
        ensures
            match spec_assemble(self@, payload@) {
                Ok(bytes) => r is Ok && final(out)@ == old(out)@ + bytes,
                Err(e) => r == Err::<(), Unservable>(e) && final(out)@ == old(out)@,
            },
    {
        if !matches!(self.step, Step::Executed) {
            return Err(Unservable::NothingRan);
        }
        let (description, rows) = match split(payload) {
            Ok(parts) => parts,
            Err(e) => return Err(e),
        };
        if self.described && description.is_none() {
            return Err(Unservable::NoRowDescription);
        }
        let empty: &[u8] = vstd::slice::slice_subrange(payload, 0, 0);
        let described: &[u8] = match description {
            Some(d) => d,
            None => empty,
        };
        let mut walk = self.replay();
        let ghost start = old(out)@;
        loop
            invariant
                out@ + answer_for(frame_tags(walk@), described@, rows@) == start + answer_for(
                    frame_tags(self@.frames),
                    described@,
                    rows@,
                ),
            ensures
                out@ == start + answer_for(frame_tags(self@.frames), described@, rows@),
            decreases walk@.len(),
        {
            let ghost before = walk@;
            match walk.next() {
                None => {
                    proof {
                        assert(frame_tags(before) =~= Seq::<Tag>::empty());
                        assert(out@ + Seq::<u8>::empty() =~= out@);
                    }
                    break;
                },
                Some((tag, _)) => {
                    let ghost piece = if tag.0 == Tag::PARSE {
                        parse_complete()
                    } else if tag.0 == Tag::BIND {
                        bind_complete()
                    } else if tag.0 == Tag::DESCRIBE {
                        described@
                    } else if tag.0 == Tag::EXECUTE {
                        rows@
                    } else {
                        Seq::empty()
                    };
                    assert(walk@.len() < before.len());
                    let ghost out_before = out@;
                    if tag.0 == Tag::PARSE {
                        out.push(0x31);
                        out.push(0);
                        out.push(0);
                        out.push(0);
                        out.push(4);
                    } else if tag.0 == Tag::BIND {
                        out.push(0x32);
                        out.push(0);
                        out.push(0);
                        out.push(0);
                        out.push(4);
                    } else if tag.0 == Tag::DESCRIBE {
                        out.extend_from_slice(described);
                    } else if tag.0 == Tag::EXECUTE {
                        out.extend_from_slice(rows);
                    }
                    proof {
                        assert(out@ =~= out_before + piece);
                        let tags = frame_tags(before);
                        assert(tags =~= seq![tag] + frame_tags(walk@));
                        assert(tags[0] == tag);
                        assert(tags.drop_first() =~= frame_tags(walk@));
                        assert(out_before + answer_for(tags, described@, rows@) =~= out_before + (piece
                            + answer_for(frame_tags(walk@), described@, rows@)));
                        assert(out_before + (piece + answer_for(frame_tags(walk@), described@, rows@))
                            =~= out@ + answer_for(frame_tags(walk@), described@, rows@));
                    }
                },
            }
        }
        let ghost mid = out@;
        out.push(0x5a);
        out.push(0);
        out.push(0);
        out.push(0);
        out.push(5);
        out.push(0x49);
        proof {
            assert(out@ =~= mid + ready_idle());
            assert(mid == start + answer_for(frame_tags(self@.frames), described@, rows@));
            match description {
                Some(d) => {},
                None => {
                    assert(described@ =~= Seq::<u8>::empty());
                },
            }
        }
        Ok(())
    }

    /// Feeds in one client frame.
    ///
    /// `body` is what would go upstream, so the statement name is already
    /// this proxy's own, and `tag` is its tag.
    pub fn feed(&mut self, message: &FrontendMessage, tag: Tag, body: &[u8], facts: Facts) -> (r: Held)
        requires
            old(self).wf(),
        ensures
            final(self).wf(),
            final(self)@.frames.len() <= MAX_HELD_BYTES,
            (final(self)@, r) == spec_feed(old(self)@, *message, tag, body@, facts),
    {
        let begins = matches!(message, FrontendMessage::Parse { .. } | FrontendMessage::Bind { .. });
        if self.frames.len() == 0 && !(facts.may_begin && begins) {
            return Held::Send;
        }
        if self.frames.len() != 0 && matches!(message, FrontendMessage::Sync) {
            return if matches!(self.step, Step::Executed) {
                Held::Complete
            } else {
                Held::Send
            };
        }
        if !self.may_hold(message, &facts) {
            return Held::Send;
        }
        if self.frames.len() + 5 > MAX_HELD_BYTES || body.len() > MAX_HELD_BYTES - 5 - self.frames.len() {
            return Held::Send;
        }
        self.record(message, &facts, body);
        let ghost recorded = self@;
        self.frames.push(tag.get());
        push_be32(&mut self.frames, (body.len() + 4) as u32);
        self.frames.extend_from_slice(body);
        proof {
            assert(self@.frames =~= old(self)@.frames + seq![tag.0] + be32_bytes((body@.len() + 4) as u32) + body@);
        }
        Held::Withheld
    }

    fn may_hold(&self, message: &FrontendMessage, facts: &Facts) -> (r: bool)
        ensures
            r == spec_may_hold(self@, *message, *facts),
    {
        match message {
            FrontendMessage::Parse { .. } => self.frames.len() == 0 && matches!(self.step, Step::Nothing)
                && facts.sql.is_some(),
            FrontendMessage::Bind { .. } => {
                let step_ok = matches!(self.step, Step::Nothing | Step::Parsed);
                match facts.sql {
                    None => false,
                    Some(sql) => step_ok && match &self.sql {
                        None => true,
                        Some(held) => str_eq(sql, held.as_str()),
                    },
                }
            },
            FrontendMessage::Describe { target, name } => matches!(target, Target::Portal) && matches!(
                self.step,
                Step::Bound
            ) && !self.described && str_eq(name, self.portal.as_str()),
            FrontendMessage::Execute { portal, max_rows } => matches!(self.step, Step::Bound)
                && *max_rows == 0 && str_eq(portal, self.portal.as_str()),
            _ => false,
        }
    }

    fn record(&mut self, message: &FrontendMessage, facts: &Facts, body: &[u8])
        ensures
            final(self)@ == spec_record(old(self)@, *message, *facts, body@),
            final(self)@.frames == old(self)@.frames,
    {
        match message {
            FrontendMessage::Parse { .. } => {
                self.step = Step::Parsed;
                self.sql = match facts.sql {
                    Some(s) => Some(s.to_owned()),
                    None => None,
                };
            },
            FrontendMessage::Bind { portal, .. } => {
                self.step = Step::Bound;
                self.sql = match facts.sql {
                    Some(s) => Some(s.to_owned()),
                    None => None,
                };
                self.portal = (*portal).to_owned();
                self.params = bind_parameters(body);
            },
            FrontendMessage::Describe { .. } => {
                self.described = true;
            },
            FrontendMessage::Execute { .. } => {
                self.step = Step::Executed;
            },
            _ => {},
        }
    }
}

// ---------------------------------------------------------------------------
// What the machine promises
// ---------------------------------------------------------------------------

/// Giving a sequence up changes nothing that is held: every frame withheld so
/// far is still there to be replayed.
pub proof fn law_giving_up_keeps_what_was_held(h: HeldModel, message: FrontendMessage, tag: Tag, body: Seq<u8>, facts: Facts)
    requires
        spec_feed(h, message, tag, body, facts).1 != Held::Withheld,
    ensures
        spec_feed(h, message, tag, body, facts).0 == h,
{
}

/// A withheld frame is appended whole, after everything held before it, and
/// the held bytes never pass the bound.
pub proof fn law_a_withheld_frame_is_appended_whole(h: HeldModel, message: FrontendMessage, tag: Tag, body: Seq<u8>, facts: Facts)
    requires
        spec_feed(h, message, tag, body, facts).1 == Held::Withheld,
    ensures
        spec_feed(h, message, tag, body, facts).0.frames == h.frames + seq![tag.0] + be32_bytes(
            (body.len() + 4) as u32,
        ) + body,
        spec_feed(h, message, tag, body, facts).0.frames.len() <= MAX_HELD_BYTES,
{
}

/// A sequence completes only once it has executed, and only at a `Sync`.
pub proof fn law_only_an_executed_sequence_completes(h: HeldModel, message: FrontendMessage, tag: Tag, body: Seq<u8>, facts: Facts)
    requires
        spec_feed(h, message, tag, body, facts).1 == Held::Complete,
    ensures
        h.step == Step::Executed,
        message is Sync,
{
}

/// A stored answer is never served to a sequence that has not run, and a
/// client that asked for a description is never served a payload without
/// one.
pub proof fn law_an_answer_matches_what_was_asked(h: HeldModel, payload: Seq<u8>)
    requires
        spec_assemble(h, payload) is Ok,
    ensures
        h.step == Step::Executed,
        h.described ==> (spec_split(payload) matches Ok((d, _)) && d is Some),
{
}

} // verus!
