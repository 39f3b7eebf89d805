//! Explicit routing instructions from the client.
//!
//! Two forms, because they answer different needs. `SET pgprox.route` changes
//! the session until it is changed back, which suits an application that knows
//! a whole connection is for reporting. A leading `/* pgprox:replica */`
//! comment applies to one statement, which suits an ORM that cannot easily
//! issue a `SET` but can prepend a comment.
//!
//! A hint is a request, not an assertion. [`RouteHint::Replica`] can admit a
//! statement the classifier could not vouch for, and can never admit a write
//! or override the watermark: both of those live in [`crate::route`].
//! [`RouteHint::Primary`] is always honoured, because it is always safe.
//!
//! Everything here reads the UTF-8 bytes of the text; the whitespace skipped
//! is Unicode whitespace, as `str::trim` skips.
use vstd::prelude::*;
use vstd::string::StringSliceAdditionalSpecFns;

use crate::route::RouteHint;
use crate::text::{
    eq_ignore_case, bytes_eq_ignore_case, ws_at, skip_ws, find_ws, trim, trim_start, trim_bytes,
    trim_start_bytes, bytes_eq, exec_skip_ws, exec_find_ws, lemma_skip_ws, lemma_find_ws,
};

verus! {

/// The prefix a per-statement hint comment must start with.
pub const COMMENT_PREFIX: &'static str = "pgprox:";

/// The parameter name a session-scoped hint is set through.
///
/// A `pgprox.` prefix rather than a bare name: Postgres accepts assignment to
/// any dotted parameter it does not recognise, so this reaches the proxy
/// without the server rejecting it, and it cannot collide with a real setting.
pub const ROUTE_PARAMETER: &'static str = "pgprox.route";

// ---------------------------------------------------------------------------
// Hint values
// ---------------------------------------------------------------------------

/// `v` with one layer of single or double quotes stripped, single quotes
/// checked first.
pub open spec fn spec_unquote(v: Seq<u8>) -> Seq<u8> {
    if v.len() >= 2 && v[0] == 0x27 && v[v.len() - 1] == 0x27 {
        v.subrange(1, v.len() - 1)
    } else if v.len() >= 2 && v[0] == 0x22 && v[v.len() - 1] == 0x22 {
        v.subrange(1, v.len() - 1)
    } else {
        v
    }
}

/// What a hint value means: the three values and their aliases, ignoring
/// ASCII case, after surrounding whitespace and one layer of quotes.
pub open spec fn spec_parse_hint_value(v: Seq<u8>) -> Option<RouteHint> {
    let t = spec_unquote(trim(v));
    if eq_ignore_case(t, "auto".spec_bytes()) || eq_ignore_case(t, "default".spec_bytes()) {
        Some(RouteHint::Auto)
    } else if eq_ignore_case(t, "primary".spec_bytes()) || eq_ignore_case(t, "writer".spec_bytes())
        || eq_ignore_case(t, "master".spec_bytes()) {
        Some(RouteHint::Primary)
    } else if eq_ignore_case(t, "replica".spec_bytes()) || eq_ignore_case(t, "reader".spec_bytes())
        || eq_ignore_case(t, "standby".spec_bytes()) {
        Some(RouteHint::Replica)
    } else {
        None
    }
}

/// Strips one layer of single or double quotes, as `SET` values may carry.
pub fn unquote(value: &[u8]) -> (r: &[u8])
    ensures
        r@ == spec_unquote(value@),
{
    let n = value.len();
    if n >= 2 && value[0] == 0x27 && value[n - 1] == 0x27 {
        return vstd::slice::slice_subrange(value, 1, n - 1);
    }
    if n >= 2 && value[0] == 0x22 && value[n - 1] == 0x22 {
        return vstd::slice::slice_subrange(value, 1, n - 1);
    }
    value
}

fn hint_value_bytes(value: &[u8]) -> (r: Option<RouteHint>)
    ensures
        r == spec_parse_hint_value(value@),
{
    let t = unquote(trim_bytes(value));
    if bytes_eq_ignore_case(t, "auto".as_bytes()) || bytes_eq_ignore_case(t, "default".as_bytes()) {
        Some(RouteHint::Auto)
    } else if bytes_eq_ignore_case(t, "primary".as_bytes()) || bytes_eq_ignore_case(
        t,
        "writer".as_bytes(),
    ) || bytes_eq_ignore_case(t, "master".as_bytes()) {
        Some(RouteHint::Primary)
    } else if bytes_eq_ignore_case(t, "replica".as_bytes()) || bytes_eq_ignore_case(
        t,
        "reader".as_bytes(),
    ) || bytes_eq_ignore_case(t, "standby".as_bytes()) {
        Some(RouteHint::Replica)
    } else {
        None
    }
}

/// Parses a hint value, as written on the right of `SET pgprox.route = ...`.
///
/// `None` for anything unrecognised rather than a default, so a caller can
/// tell "the client asked for something we do not understand" from "the
/// client asked for auto" and reject the former.
pub fn parse_hint_value(value: &str) -> (r: Option<RouteHint>)
    ensures
        r == spec_parse_hint_value(value.spec_bytes()),
{
    hint_value_bytes(value.as_bytes())
}

// ---------------------------------------------------------------------------
// SET and RESET of the route parameter
// ---------------------------------------------------------------------------

/// What a statement did to the session's route setting.
#[derive(Clone, Copy, Debug, PartialEq, Eq, Structural)]
pub enum RouteAssignment {
    /// `SET pgprox.route = <value>`, with a value that parsed.
    SetHint(RouteHint),
    /// `SET pgprox.route = <value>` where the value meant nothing.
    ///
    /// Distinguished from no assignment at all so the caller can tell the
    /// client it made a mistake.
    Invalid,
    /// `RESET pgprox.route`, or `RESET ALL`, which returns to `Auto`.
    Reset,
}

/// `input` with `prefix` stripped from its front, ignoring ASCII case, or
/// `None` if it does not start with it.
pub open spec fn spec_strip_prefix_ic(input: Seq<u8>, prefix: Seq<u8>) -> Option<Seq<u8>> {
    if input.len() >= prefix.len() && eq_ignore_case(input.subrange(0, prefix.len() as int), prefix) {
        Some(input.subrange(prefix.len() as int, input.len() as int))
    } else {
        None
    }
}

/// Strips a prefix case-insensitively, returning what follows.
///
/// Compared as bytes. For the ASCII prefixes this is used with, a prefix that
/// would end inside a multi-byte character cannot match, since such a
/// character's bytes are not ASCII.
pub fn strip_prefix_ignore_ascii_case<'a>(input: &'a [u8], prefix: &[u8]) -> (r: Option<&'a [u8]>)
    ensures
        match r {
            Some(rest) => spec_strip_prefix_ic(input@, prefix@) == Some(rest@),
            None => spec_strip_prefix_ic(input@, prefix@) is None,
        },
{
    if input.len() < prefix.len() {
        return None;
    }
    let candidate = vstd::slice::slice_subrange(input, 0, prefix.len());
    if bytes_eq_ignore_case(candidate, prefix) {
        Some(vstd::slice::slice_subrange(input, prefix.len(), input.len()))
    } else {
        None
    }
}

/// `s` with every trailing `b` removed.
pub open spec fn trim_end_byte(s: Seq<u8>, b: u8) -> Seq<u8>
    decreases s.len(),
{
    if s.len() > 0 && s[s.len() - 1] == b {
        trim_end_byte(s.drop_last(), b)
    } else {
        s
    }
}

fn trim_end_byte_bytes(s: &[u8], b: u8) -> (r: &[u8])
    ensures
        r@ == trim_end_byte(s@, b),
{
    let mut n = s.len();
    assert(s@.subrange(0, n as int) =~= s@);
    while n > 0 && s[n - 1] == b
        invariant
            n <= s.len(),
            trim_end_byte(s@, b) == trim_end_byte(s@.subrange(0, n as int), b),
        decreases n,
    {
        proof {
            assert(s@.subrange(0, n as int).drop_last() =~= s@.subrange(0, n - 1));
        }
        n = n - 1;
    }
    vstd::slice::slice_subrange(s, 0, n)
}

/// The value of `SET pgprox.route` once the part after the parameter name is
/// known: `= value` or `TO value`, with surrounding whitespace and trailing
/// semicolons dropped.
pub open spec fn assigned_value(after_name: Seq<u8>) -> Option<Seq<u8>> {
    let rest = trim_start(after_name);
    let value = if rest.len() > 0 && rest[0] == 0x3d {
        Some(rest.subrange(1, rest.len() as int))
    } else {
        spec_strip_prefix_ic(rest, "to".spec_bytes())
    };
    match value {
        Some(v) => Some(trim(trim_end_byte(trim(v), 0x3b))),
        None => None,
    }
}

/// What `SET` or `RESET` of the route parameter `sql` is, if it is one.
///
/// Words are split on Unicode whitespace. `RESET pgprox.route`, and `RESET
/// ALL` with nothing after it, reset the hint. For `SET`, the text after the
/// first as many bytes as the verb is long, with leading whitespace dropped,
/// has to start with the parameter name (ignoring ASCII case), then `=` or
/// `TO`; the value that follows decides between a hint and an invalid one. A
/// cut of the text that would fall inside a character is no assignment.
pub open spec fn spec_parse_route_assignment(s: Seq<u8>) -> Option<RouteAssignment> {
    let v0 = skip_ws(s, 0);
    let v1 = find_ws(s, v0);
    let verb = s.subrange(v0, v1);
    if v0 >= s.len() {
        None
    } else if eq_ignore_case(verb, "reset".spec_bytes()) {
        let t0 = skip_ws(s, v1);
        let t1 = find_ws(s, t0);
        let target = s.subrange(t0, t1);
        if t0 >= s.len() {
            None
        } else if eq_ignore_case(target, "pgprox.route".spec_bytes()) || (eq_ignore_case(
            target,
            "all".spec_bytes(),
        ) && skip_ws(s, t1) >= s.len()) {
            Some(RouteAssignment::Reset)
        } else {
            None
        }
    } else if !eq_ignore_case(verb, "set".spec_bytes()) {
        None
    } else if !vstd::utf8::is_char_boundary(s, verb.len() as int) {
        None
    } else {
        match spec_strip_prefix_ic(
            trim_start(s.subrange(verb.len() as int, s.len() as int)),
            "pgprox.route".spec_bytes(),
        ) {
            None => None,
            Some(after_name) => match assigned_value(after_name) {
                None => None,
                Some(value) => match spec_parse_hint_value(value) {
                    Some(hint) => Some(RouteAssignment::SetHint(hint)),
                    None => Some(RouteAssignment::Invalid),
                },
            },
        }
    }
}

/// Reads a `SET` or `RESET` of the route parameter.
///
/// `None` for any other statement, including a `SET` of something else. The
/// caller consumes what this recognises rather than forwarding it.
pub fn parse_route_assignment(sql: &str) -> (r: Option<RouteAssignment>)
    ensures
        r == spec_parse_route_assignment(sql.spec_bytes()),
{
    let s = sql.as_bytes();
    proof {
        lemma_skip_ws(s@, 0);
    }
    let v0 = exec_skip_ws(s, 0);
    proof {
        lemma_find_ws(s@, v0 as int);
    }
    let v1 = exec_find_ws(s, v0);
    if v0 >= s.len() {
        return None;
    }
    let verb = vstd::slice::slice_subrange(s, v0, v1);
    if bytes_eq_ignore_case(verb, "reset".as_bytes()) {
        proof {
            lemma_skip_ws(s@, v1 as int);
        }
        let t0 = exec_skip_ws(s, v1);
        proof {
            lemma_find_ws(s@, t0 as int);
        }
        let t1 = exec_find_ws(s, t0);
        if t0 >= s.len() {
            return None;
        }
        let target = vstd::slice::slice_subrange(s, t0, t1);
        proof {
            lemma_skip_ws(s@, t1 as int);
        }
        let matched = bytes_eq_ignore_case(target, "pgprox.route".as_bytes()) || (
        bytes_eq_ignore_case(target, "all".as_bytes()) && exec_skip_ws(s, t1) >= s.len());
        return if matched {
            Some(RouteAssignment::Reset)
        } else {
            None
        };
    }
    if !bytes_eq_ignore_case(verb, "set".as_bytes()) {
        return None;
    }
    let n = verb.len();
    if !sql.is_char_boundary(n) {
        return None;
    }
    let rest = trim_start_bytes(vstd::slice::slice_subrange(s, n, s.len()));
    let after_name = match strip_prefix_ignore_ascii_case(rest, "pgprox.route".as_bytes()) {
        Some(a) => a,
        None => return None,
    };
    let rest = trim_start_bytes(after_name);
    let value = if rest.len() > 0 && rest[0] == 0x3d {
        vstd::slice::slice_subrange(rest, 1, rest.len())
    } else {
        match strip_prefix_ignore_ascii_case(rest, "to".as_bytes()) {
            Some(v) => v,
            None => return None,
        }
    };
    let value = trim_bytes(trim_end_byte_bytes(trim_bytes(value), 0x3b));
    match hint_value_bytes(value) {
        Some(hint) => Some(RouteAssignment::SetHint(hint)),
        None => Some(RouteAssignment::Invalid),
    }
}

// ---------------------------------------------------------------------------
// Leading comments
// ---------------------------------------------------------------------------

/// Just past the `*/` that closes a block comment `depth` levels deep, from
/// position `i`, or `None` if it is never closed. Block comments nest.
pub open spec fn block_close(s: Seq<u8>, i: int, depth: nat) -> Option<int>
    decreases s.len() - i,
{
    if i < 0 || i + 1 >= s.len() {
        None
    } else if s[i] == 0x2f && s[i + 1] == 0x2a {
        block_close(s, i + 2, depth + 1)
    } else if s[i] == 0x2a && s[i + 1] == 0x2f {
        if depth <= 1 {
            Some(i + 2)
        } else {
            block_close(s, i + 2, (depth - 1) as nat)
        }
    } else {
        block_close(s, i + 1, depth)
    }
}

pub proof fn lemma_block_close(s: Seq<u8>, i: int, depth: nat)
    requires
        0 <= i,
    ensures
        block_close(s, i, depth) matches Some(e) ==> i + 2 <= e <= s.len(),
    decreases s.len() - i,
{
    if i + 1 < s.len() {
        if s[i] == 0x2f && s[i + 1] == 0x2a {
            lemma_block_close(s, i + 2, depth + 1);
        } else if s[i] == 0x2a && s[i + 1] == 0x2f {
            if depth > 1 {
                lemma_block_close(s, i + 2, (depth - 1) as nat);
            }
        } else {
            lemma_block_close(s, i + 1, depth);
        }
    }
}

/// Splits a leading block comment into its body and what follows it.
///
/// `None` if it is never closed. The server rejects that as a syntax error, so
/// there is no statement for a hint to apply to.
pub fn split_block_comment(input: &[u8]) -> (r: Option<(&[u8], &[u8])>)
    requires
        input@.len() >= 2,
        input@[0] == 0x2f,
        input@[1] == 0x2a,
    ensures
        match block_close(input@, 2, 1) {
            Some(e) => r matches Some((body, rest)) && body@ == input@.subrange(2, e - 2) && rest@
                == input@.subrange(e, input@.len() as int),
            None => r is None,
        },
{
    let mut depth: usize = 1;
    let mut i: usize = 2;
    while input.len() - i >= 2
        invariant
            2 <= i <= input@.len(),
            1 <= depth <= i,
            block_close(input@, 2, 1) == block_close(input@, i as int, depth as nat),
        decreases input.len() - i,
    {
        if input[i] == 0x2f && input[i + 1] == 0x2a {
            depth = depth + 1;
            i = i + 2;
        } else if input[i] == 0x2a && input[i + 1] == 0x2f {
            if depth <= 1 {
                let e = i + 2;
                return Some(
                    (
                        vstd::slice::slice_subrange(input, 2, e - 2),
                        vstd::slice::slice_subrange(input, e, input.len()),
                    ),
                );
            }
            depth = depth - 1;
            i = i + 2;
        } else {
            i = i + 1;
        }
    }
    None
}

/// `s` with every trailing `*` and `/` removed.
pub open spec fn trim_end_comment_marks(s: Seq<u8>) -> Seq<u8>
    decreases s.len(),
{
    if s.len() > 0 && (s[s.len() - 1] == 0x2a || s[s.len() - 1] == 0x2f) {
        trim_end_comment_marks(s.drop_last())
    } else {
        s
    }
}

/// The hint a comment body carries: after surrounding whitespace, the exact
/// prefix `pgprox:` and then a hint value, any trailing `*` and `/` aside.
pub open spec fn spec_hint_from_comment(body: Seq<u8>) -> Option<RouteHint> {
    let t = trim(body);
    let p = COMMENT_PREFIX.spec_bytes();
    if t.len() >= p.len() && t.subrange(0, p.len() as int) == p {
        spec_parse_hint_value(trim(trim_end_comment_marks(t.subrange(p.len() as int, t.len() as int))))
    } else {
        None
    }
}

fn trim_end_comment_marks_bytes(s: &[u8]) -> (r: &[u8])
    ensures
        r@ == trim_end_comment_marks(s@),
{
    let mut n = s.len();
    assert(s@.subrange(0, n as int) =~= s@);
    while n > 0 && (s[n - 1] == 0x2a || s[n - 1] == 0x2f)
        invariant
            n <= s.len(),
            trim_end_comment_marks(s@) == trim_end_comment_marks(s@.subrange(0, n as int)),
        decreases n,
    {
        proof {
            assert(s@.subrange(0, n as int).drop_last() =~= s@.subrange(0, n - 1));
        }
        n = n - 1;
    }
    vstd::slice::slice_subrange(s, 0, n)
}

/// Reads `pgprox:<value>` out of a comment body.
pub fn hint_from_comment(body: &[u8]) -> (r: Option<RouteHint>)
    ensures
        r == spec_hint_from_comment(body@),
{
    let t = trim_bytes(body);
    let p = COMMENT_PREFIX.as_bytes();
    if t.len() >= p.len() && bytes_eq(vstd::slice::slice_subrange(t, 0, p.len()), p) {
        let value = vstd::slice::slice_subrange(t, p.len(), t.len());
        hint_value_bytes(trim_bytes(trim_end_comment_marks_bytes(value)))
    } else {
        None
    }
}

/// The first position at or after `i` holding a line feed, or the end.
pub open spec fn newline_from(s: Seq<u8>, i: int) -> int
    decreases s.len() - i,
{
    if i < 0 || i >= s.len() {
        s.len() as int
    } else if s[i] == 0x0a {
        i
    } else {
        newline_from(s, i + 1)
    }
}

pub proof fn lemma_newline_from(s: Seq<u8>, i: int)
    requires
        0 <= i <= s.len(),
    ensures
        i <= newline_from(s, i) <= s.len(),
    decreases s.len() - i,
{
    if i < s.len() && s[i] != 0x0a {
        lemma_newline_from(s, i + 1);
    }
}

/// The hint carried by the leading comments of `s` from position `i` on.
///
/// Whitespace is skipped. A `--` comment runs to its line feed, and a block
/// comment to the `*/` that closes it, nesting as Postgres nests; the first
/// comment carrying a hint decides. An unclosed block comment, or anything
/// that is not whitespace or a comment, ends the search with no hint.
pub open spec fn hint_from(s: Seq<u8>, i: int) -> Option<RouteHint>
    decreases s.len() - i,
{
    let j = skip_ws(s, i);
    if i < 0 || i > s.len() || j < i || j > s.len() {
        None
    } else if s.len() - j >= 2 && s[j] == 0x2d && s[j + 1] == 0x2d {
        let nl = newline_from(s, j + 2);
        let line_stop = if nl <= s.len() {
            nl
        } else {
            s.len() as int
        };
        let next = if nl < s.len() {
            nl + 1
        } else {
            s.len() as int
        };
        match spec_hint_from_comment(s.subrange(j + 2, line_stop)) {
            Some(h) => Some(h),
            None => if next > i {
                hint_from(s, next)
            } else {
                None
            },
        }
    } else if j + 1 < s.len() && s[j] == 0x2f && s[j + 1] == 0x2a {
        match block_close(s, j + 2, 1) {
            None => None,
            Some(e) => match spec_hint_from_comment(s.subrange(j + 2, e - 2)) {
                Some(h) => Some(h),
                None => if i < e <= s.len() {
                    hint_from(s, e)
                } else {
                    None
                },
            },
        }
    } else {
        None
    }
}

/// Reads a per-statement hint from the leading comments.
///
/// Only leading comments count, and only up to the first real SQL token. A
/// `/* pgprox:replica */` in the middle of a statement, or inside a string, is
/// data as far as this is concerned.
pub fn statement_hint(sql: &str) -> (r: Option<RouteHint>)
    ensures
        r == hint_from(sql.spec_bytes(), 0),
{
    let s = sql.as_bytes();
    let mut i: usize = 0;
    loop
        invariant
            i <= s@.len(),
            s@ == sql.spec_bytes(),
            hint_from(s@, 0) == hint_from(s@, i as int),
        decreases s@.len() - i,
    {
        proof {
            lemma_skip_ws(s@, i as int);
        }
        let j = exec_skip_ws(s, i);
        if s.len() - j >= 2 && s[j] == 0x2d && s[j + 1] == 0x2d {
            proof {
                lemma_newline_from(s@, j + 2);
            }
            let mut nl = j + 2;
            while nl < s.len() && s[nl] != 0x0a
                invariant
                    j + 2 <= nl <= s@.len(),
                    newline_from(s@, j + 2) == newline_from(s@, nl as int),
                decreases s@.len() - nl,
            {
                nl = nl + 1;
            }
            let next = if nl < s.len() {
                nl + 1
            } else {
                s.len()
            };
            match hint_from_comment(vstd::slice::slice_subrange(s, j + 2, nl)) {
                Some(h) => return Some(h),
                None => {},
            }
            i = next;
        } else if s.len() - j >= 2 && s[j] == 0x2f && s[j + 1] == 0x2a {
            let rest = vstd::slice::slice_subrange(s, j, s.len());
            proof {
                lemma_block_close_shift(s@, j as int);
            }
            match split_block_comment(rest) {
                None => return None,
                Some((body, _)) => {
                    proof {
                        lemma_block_close(rest@, 2, 1);
                    }
                    let ghost e = block_close(rest@, 2, 1)->0 + j;
                    match hint_from_comment(body) {
                        Some(h) => {
                            proof {
                                assert(body@ =~= s@.subrange(j + 2, e - 2));
                            }
                            return Some(h);
                        },
                        None => {
                            proof {
                                assert(body@ =~= s@.subrange(j + 2, e - 2));
                            }
                        },
                    }
                    i = j + body.len() + 4;
                },
            }
        } else {
            return None;
        }
    }
}

proof fn lemma_block_close_shift(s: Seq<u8>, j: int)
    requires
        0 <= j <= s.len(),
    ensures
        block_close(s.subrange(j, s.len() as int), 2, 1) == match block_close(s, j + 2, 1) {
            Some(e) => Some(e - j),
            None => None::<int>,
        },
{
    lemma_block_close_shift_from(s, j, 2, 1);
}

proof fn lemma_block_close_shift_from(s: Seq<u8>, j: int, k: int, depth: nat)
    requires
        0 <= j <= s.len(),
        0 <= k,
    ensures
        block_close(s.subrange(j, s.len() as int), k, depth) == match block_close(s, j + k, depth) {
            Some(e) => Some(e - j),
            None => None::<int>,
        },
    decreases s.len() - j - k,
{
    let t = s.subrange(j, s.len() as int);
    if k + 1 < t.len() {
        assert(t[k] == s[j + k]);
        assert(t[k + 1] == s[j + k + 1]);
        if t[k] == 0x2f && t[k + 1] == 0x2a {
            lemma_block_close_shift_from(s, j, k + 2, depth + 1);
        } else if t[k] == 0x2a && t[k + 1] == 0x2f {
            if depth > 1 {
                lemma_block_close_shift_from(s, j, k + 2, (depth - 1) as nat);
            }
        } else {
            lemma_block_close_shift_from(s, j, k + 1, depth);
        }
    }
}

} // verus!
