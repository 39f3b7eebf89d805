//! Where a statement goes, and the session state that decides it.
//!
//! The target is chosen at a transaction's first statement and holds until
//! the transaction ends: a transaction spanning two servers would see two
//! snapshots, take locks in one place and release them in another. So
//! [`SessionRouter`] is a state machine. The rule itself is
//! [`crate::route::decide`]; this module supplies its inputs and remembers its
//! answer.
use vstd::prelude::*;
use vstd::string::StringSliceAdditionalSpecFns;

use crate::classify::{classify, begins_read_only_transaction, spec_classify, spec_begins_read_only};
use crate::hints::{
    RouteAssignment, parse_route_assignment, statement_hint, spec_parse_route_assignment, hint_from,
};
use crate::replica::{Replicas, Watermark, advanced};
use crate::route::{Lsn, ReplicaState, RouteCtx, RouteHint, RouteTarget, StmtClass, decide, spec_decide};
use crate::text::{eq_ignore_case, skip_ws, find_ws, bytes_eq_ignore_case, exec_skip_ws, exec_find_ws, lemma_skip_ws, lemma_find_ws};

verus! {

/// What happened to a statement offered to the router.
#[derive(Clone, Copy, Debug, PartialEq, Eq, Structural)]
pub enum Routed {
    /// Send it to this target.
    To(RouteTarget),
    /// It was a `SET pgprox.route`, consumed here rather than forwarded.
    HintAccepted,
    /// It was a `SET pgprox.route` with a value that meant nothing.
    HintRejected,
}

/// Routing state for one client session.
#[derive(Clone, Copy, Debug)]
pub struct SessionRouter {
    hint: RouteHint,
    watermark: Option<Lsn>,
    fixed: Option<RouteTarget>,
    read_only_transaction: bool,
    pinned: bool,
}

/// What a session router holds, as a value.
pub struct RouterModel {
    /// The session-scoped hint.
    pub hint: RouteHint,
    /// The read-your-writes floor.
    pub watermark: Option<Lsn>,
    /// The target this transaction was fixed to at its first statement.
    pub fixed: Option<RouteTarget>,
    /// Whether the open transaction promised the server it would not write.
    pub read_only_transaction: bool,
    /// Whether the session is bound to one upstream connection.
    pub pinned: bool,
}

impl View for SessionRouter {
    type V = RouterModel;

    closed spec fn view(&self) -> RouterModel {
        RouterModel {
            hint: self.hint,
            watermark: self.watermark,
            fixed: self.fixed,
            read_only_transaction: self.read_only_transaction,
            pinned: self.pinned,
        }
    }
}

/// A fresh session: no hint, no writes, no transaction, no pin.
pub open spec fn fresh_router() -> RouterModel {
    RouterModel {
        hint: RouteHint::Auto,
        watermark: None,
        fixed: None,
        read_only_transaction: false,
        pinned: false,
    }
}

/// Whether the first word of `s`, split on whitespace, is `begin` or `start`
/// in any ASCII case.
pub open spec fn spec_begins_transaction(s: Seq<u8>) -> bool {
    let w0 = skip_ws(s, 0);
    let w1 = find_ws(s, w0);
    let word = s.subrange(w0, w1);
    w0 < s.len() && (eq_ignore_case(word, "begin".spec_bytes()) || eq_ignore_case(
        word,
        "start".spec_bytes(),
    ))
}

/// One statement through the router: the state after it and what happened.
///
/// A `SET` or `RESET` of the route parameter changes the session hint and goes
/// nowhere. Otherwise an open transaction's fixed target is repeated. Otherwise
/// the rule decides, from the class (a read if the transaction was opened read
/// only), the session's floor and pin, and the statement's own leading-comment
/// hint ahead of the session's; and the target is fixed when a transaction is
/// open or the statement opens one.
pub open spec fn spec_route(
    r: RouterModel,
    sql: Seq<u8>,
    in_transaction: bool,
    states: Seq<ReplicaState>,
) -> (RouterModel, Routed) {
    match spec_parse_route_assignment(sql) {
        Some(RouteAssignment::SetHint(h)) => (RouterModel { hint: h, ..r }, Routed::HintAccepted),
        Some(RouteAssignment::Reset) => (
            RouterModel { hint: RouteHint::Auto, ..r },
            Routed::HintAccepted,
        ),
        Some(RouteAssignment::Invalid) => (r, Routed::HintRejected),
        None => match r.fixed {
            Some(t) => (r, Routed::To(t)),
            None => {
                let read_only = r.read_only_transaction || spec_begins_read_only(sql);
                let ctx = RouteCtx {
                    class: if read_only {
                        StmtClass::ReadOnly
                    } else {
                        spec_classify(sql)
                    },
                    watermark: r.watermark,
                    in_transaction: false,
                    pinned: r.pinned,
                    hint: match hint_from(sql, 0) {
                        Some(h) => h,
                        None => r.hint,
                    },
                };
                let target = spec_decide(ctx, states);
                (
                    RouterModel {
                        read_only_transaction: read_only,
                        fixed: if in_transaction || spec_begins_transaction(sql) {
                            Some(target)
                        } else {
                            None
                        },
                        ..r
                    },
                    Routed::To(target),
                )
            },
        },
    }
}

/// Whether a statement opens a transaction: only the explicit forms.
pub fn begins_transaction(sql: &str) -> (r: bool)
    ensures
        r == spec_begins_transaction(sql.spec_bytes()),
{
    let s = sql.as_bytes();
    proof {
        lemma_skip_ws(s@, 0);
    }
    let w0 = exec_skip_ws(s, 0);
    proof {
        lemma_find_ws(s@, w0 as int);
    }
    let w1 = exec_find_ws(s, w0);
    if w0 >= s.len() {
        return false;
    }
    let word = vstd::slice::slice_subrange(s, w0, w1);
    bytes_eq_ignore_case(word, "begin".as_bytes()) || bytes_eq_ignore_case(word, "start".as_bytes())
}

impl SessionRouter {
    /// A fresh session: no hint, no writes yet, no transaction open.
    pub fn new() -> (r: SessionRouter)
        ensures
            r@ == fresh_router(),
    {
        SessionRouter {
            hint: RouteHint::Auto,
            watermark: None,
            fixed: None,
            read_only_transaction: false,
            pinned: false,
        }
    }

    /// The session-scoped hint currently in force.
    pub fn hint(&self) -> (r: RouteHint)
        ensures
            r == self@.hint,
    {
        self.hint
    }

    /// The read-your-writes floor.
    pub fn watermark(&self) -> (r: Watermark)
        ensures
            r.spec_get() == self@.watermark,
    {
        let mut w = Watermark::new();
        match self.watermark {
            Some(lsn) => w.advance(lsn),
            None => {},
        }
        w
    }

    /// The target this transaction is fixed to, if one is open.
    pub fn fixed_target(&self) -> (r: Option<RouteTarget>)
        ensures
            r == self@.fixed,
    {
        self.fixed
    }

    /// Whether the session is pinned to one upstream connection.
    pub fn is_pinned(&self) -> (r: bool)
        ensures
            r == self@.pinned,
    {
        self.pinned
    }

    /// Records whether the session is pinned, which forces the primary.
    pub fn set_pinned(&mut self, pinned: bool)
        ensures
            final(self)@ == (RouterModel { pinned, ..old(self)@ }),
    {
        self.pinned = pinned;
    }

    /// Records where a write committed, so later reads see it.
    pub fn record_write(&mut self, lsn: Lsn)
        ensures
            final(self)@ == (RouterModel { watermark: advanced(old(self)@.watermark, lsn), ..old(self)@ }),
    {
        self.watermark = Some(
            match self.watermark {
                Some(current) => if current.0 >= lsn.0 {
                    current
                } else {
                    lsn
                },
                None => lsn,
            },
        );
    }

    /// Ends the session's routing state, as a new client on a reused
    /// connection needs.
    pub fn reset(&mut self)
        ensures
            final(self)@ == fresh_router(),
    {
        *self = SessionRouter::new();
    }

    /// Records that a transaction has ended, freeing the fixed target. The
    /// floor survives: it belongs to the session.
    pub fn end_transaction(&mut self)
        ensures
            final(self)@ == (RouterModel { fixed: None, read_only_transaction: false, ..old(self)@ }),
    {
        self.fixed = None;
        self.read_only_transaction = false;
    }

    /// Routes a statement.
    ///
    /// `in_transaction` is the transaction status the protocol layer tracks,
    /// passed in rather than inferred from the text.
    pub fn route(&mut self, sql: &str, in_transaction: bool, replicas: &Replicas, now: u64) -> (r: Routed)
        ensures
            (final(self)@, r) == spec_route(old(self)@, sql.spec_bytes(), in_transaction, replicas.spec_states(now)),
    {
        match parse_route_assignment(sql) {
            Some(RouteAssignment::SetHint(hint)) => {
                self.hint = hint;
                return Routed::HintAccepted;
            },
            Some(RouteAssignment::Reset) => {
                self.hint = RouteHint::Auto;
                return Routed::HintAccepted;
            },
            Some(RouteAssignment::Invalid) => {
                return Routed::HintRejected;
            },
            None => {},
        }
        match self.fixed {
            Some(target) => {
                return Routed::To(target);
            },
            None => {},
        }
        if begins_read_only_transaction(sql) {
            self.read_only_transaction = true;
        }
        let class = if self.read_only_transaction {
            StmtClass::ReadOnly
        } else {
            classify(sql)
        };
        let hint = match statement_hint(sql) {
            Some(h) => h,
            None => self.hint,
        };
        let ctx = RouteCtx {
            class,
            watermark: self.watermark,
            in_transaction: false,
            pinned: self.pinned,
            hint,
        };
        let states = replicas.states(now);
        let target = decide(&ctx, states.as_slice());
        if in_transaction || begins_transaction(sql) {
            self.fixed = Some(target);
        }
        Routed::To(target)
    }
}

impl Default for SessionRouter {
    fn default() -> (r: SessionRouter)
        ensures
            r@ == fresh_router(),
    {
        SessionRouter::new()
    }
}

/// The shared rule for callers that route one statement at a time with no
/// session state of their own. Not configurable: a router that could be told
/// to send a write to a replica would let tests pass against behaviour the
/// real one never produces.
#[derive(Clone, Copy, Debug, Default)]
pub struct StatelessRouter;

impl StatelessRouter {
    /// Routes by the shared rule.
    pub fn route(&self, ctx: &RouteCtx, replicas: &[ReplicaState]) -> (r: RouteTarget)
        ensures
            r == spec_decide(*ctx, replicas@),
    {
        decide(ctx, replicas)
    }
}

// ---------------------------------------------------------------------------
// What the router promises
// ---------------------------------------------------------------------------

/// Once a transaction's target is fixed, every statement in it goes there,
/// whatever it is, until the transaction ends; only a route-parameter
/// assignment is answered instead, and none of them unfixes the target.
pub proof fn law_a_transaction_keeps_its_target(
    r: RouterModel,
    sql: Seq<u8>,
    in_transaction: bool,
    states: Seq<ReplicaState>,
    t: RouteTarget,
)
    requires
        r.fixed == Some(t),
    ensures
        spec_route(r, sql, in_transaction, states).0.fixed == Some(t),
        spec_parse_route_assignment(sql) is None ==> spec_route(r, sql, in_transaction, states).1
            == Routed::To(t),
{
}

/// A route-parameter assignment never reaches the server, and a rejected one
/// leaves the session exactly as it was.
pub proof fn law_a_route_assignment_is_answered_here(
    r: RouterModel,
    sql: Seq<u8>,
    in_transaction: bool,
    states: Seq<ReplicaState>,
)
    requires
        spec_parse_route_assignment(sql) is Some,
    ensures
        !(spec_route(r, sql, in_transaction, states).1 is To),
        spec_parse_route_assignment(sql) == Some(RouteAssignment::Invalid) ==> spec_route(
            r,
            sql,
            in_transaction,
            states,
        ).0 == r,
{
}

/// A statement the router decides afresh reaches a replica only if that
/// replica is healthy and caught up with the session's floor, and only if the
/// session is not pinned and the statement is not a write, unless the
/// transaction was opened read only, which the server itself enforces.
pub proof fn law_a_fresh_decision_is_safe(
    r: RouterModel,
    sql: Seq<u8>,
    in_transaction: bool,
    states: Seq<ReplicaState>,
)
    requires
        r.fixed is None,
        spec_parse_route_assignment(sql) is None,
        states.len() <= usize::MAX,
    ensures
        spec_route(r, sql, in_transaction, states).1 matches Routed::To(RouteTarget::Replica(i)) ==> {
            &&& i < states.len()
            &&& states[i as int].healthy
            &&& (r.watermark matches Some(w) ==> states[i as int].replayed.0 >= w.0)
            &&& !r.pinned
            &&& (spec_classify(sql) == StmtClass::Write ==> r.read_only_transaction
                || spec_begins_read_only(sql))
        },
{
    let read_only = r.read_only_transaction || spec_begins_read_only(sql);
    let ctx = RouteCtx {
        class: if read_only {
            StmtClass::ReadOnly
        } else {
            spec_classify(sql)
        },
        watermark: r.watermark,
        in_transaction: false,
        pinned: r.pinned,
        hint: match hint_from(sql, 0) {
            Some(h) => h,
            None => r.hint,
        },
    };
    crate::route::law_a_chosen_replica_has_caught_up(ctx, states);
}

/// Whether a byte is ASCII whitespace: space, tab, line feed, vertical tab,
/// form feed or carriage return.
pub open spec fn ascii_space(b: u8) -> bool {
    b == 0x20 || (0x09 <= b && b <= 0x0d)
}

/// Whether `word` spells the lower-case ASCII word `kw`, each letter in
/// either case.
pub open spec fn spells(word: Seq<u8>, kw: Seq<u8>) -> bool {
    &&& word.len() == kw.len()
    &&& forall|i: int| 0 <= i < word.len() ==> word[i] == kw[i] || word[i] + 32 == kw[i]
}

/// `begin`, as bytes.
pub open spec fn word_begin() -> Seq<u8> {
    seq![0x62u8, 0x65, 0x67, 0x69, 0x6e]
}

/// `start`, as bytes.
pub open spec fn word_start() -> Seq<u8> {
    seq![0x73u8, 0x74, 0x61, 0x72, 0x74]
}

proof fn lemma_leading_space(s: Seq<u8>, lead: nat, i: int)
    requires
        0 <= i <= lead < s.len(),
        forall|k: int| 0 <= k < lead ==> ascii_space(#[trigger] s[k]),
        0x61 <= s[lead as int] + 32 <= 0x7a || 0x61 <= s[lead as int] <= 0x7a,
    ensures
        skip_ws(s, i) == lead,
    decreases lead - i,
{
    if i < lead {
        assert(ascii_space(s[i]));
        lemma_leading_space(s, lead, i + 1);
    }
}

proof fn lemma_letters_to_space(s: Seq<u8>, from: int, to: int, i: int)
    requires
        0 <= from <= i <= to <= s.len(),
        forall|k: int| from <= k < to ==> (0x61 <= #[trigger] s[k] + 32 <= 0x7a || 0x61 <= s[k] <= 0x7a),
        to == s.len() || ascii_space(s[to]),
    ensures
        find_ws(s, i) == to,
    decreases to - i,
{
    if i < to {
        assert(0x61 <= s[i] + 32 <= 0x7a || 0x61 <= s[i] <= 0x7a);
        lemma_letters_to_space(s, from, to, i + 1);
    }
}

/// A statement whose first whitespace-separated word is `BEGIN` or `START`,
/// in any ASCII case, opens a transaction: whatever the session held, routing
/// it sends it somewhere and leaves the transaction fixed to where it went,
/// so the statements after it follow it there.
pub proof fn law_begin_or_start_fixes_the_target(
    r: RouterModel,
    lead: Seq<u8>,
    word: Seq<u8>,
    rest: Seq<u8>,
    in_transaction: bool,
    states: Seq<ReplicaState>,
)
    requires
        forall|i: int| 0 <= i < lead.len() ==> ascii_space(#[trigger] lead[i]),
        spells(word, word_begin()) || spells(word, word_start()),
        rest.len() == 0 || ascii_space(rest[0]),
    ensures
        spec_route(r, lead + word + rest, in_transaction, states).1 matches Routed::To(t)
            && spec_route(r, lead + word + rest, in_transaction, states).0.fixed == Some(t),
{
    let s = lead + word + rest;
    let kw = if spells(word, word_begin()) {
        word_begin()
    } else {
        word_start()
    };
    let l = lead.len();
    let e: int = l as int + 5;
    assert forall|k: int| 0 <= k < l implies ascii_space(#[trigger] s[k]) by {
        assert(s[k] == lead[k]);
    }
    assert forall|k: int| l <= k < e implies (0x61 <= #[trigger] s[k] + 32 <= 0x7a || 0x61 <= s[k] <= 0x7a) by {
        assert(s[k] == word[k - l]);
        assert(word[k - l] == kw[k - l] || word[k - l] + 32 == kw[k - l]);
    }
    if rest.len() > 0 {
        assert(s[e] == rest[0]);
    }
    lemma_leading_space(s, l, 0);
    lemma_letters_to_space(s, l as int, e, l as int);
    assert(s.subrange(l as int, e) =~= word);
    proof_reveal_words();
    assert(eq_ignore_case(word, kw)) by {
        assert forall|i: int| 0 <= i < word.len() implies crate::text::ascii_lower(#[trigger] word[i])
            == crate::text::ascii_lower(kw[i]) by {
            assert(word[i] == kw[i] || word[i] + 32 == kw[i]);
        }
    }
    assert(spec_begins_transaction(s));
    assert(!eq_ignore_case(word, "reset".spec_bytes())) by {
        assert(crate::text::ascii_lower(word[0]) != crate::text::ascii_lower("reset".spec_bytes()[0]));
    }
    assert(!eq_ignore_case(word, "set".spec_bytes()));
    assert(spec_parse_route_assignment(s) is None);
}

/// The bytes of the words the router and its hints look for.
proof fn proof_reveal_words()
    ensures
        "begin".spec_bytes() == word_begin(),
        "start".spec_bytes() == word_start(),
        "reset".spec_bytes() == seq![0x72u8, 0x65, 0x73, 0x65, 0x74],
        "set".spec_bytes().len() == 3,
{
    reveal_strlit("begin");
    reveal_strlit("start");
    reveal_strlit("reset");
    reveal_strlit("set");
    vstd::string::is_ascii_spec_bytes("begin");
    vstd::string::is_ascii_spec_bytes("start");
    vstd::string::is_ascii_spec_bytes("reset");
    vstd::string::is_ascii_spec_bytes("set");
    assert(vstd::string::is_ascii("begin"));
    assert(vstd::string::is_ascii("start"));
    assert(vstd::string::is_ascii("reset"));
    assert(vstd::string::is_ascii("set"));
    assert("begin".spec_bytes() =~= word_begin());
    assert("start".spec_bytes() =~= word_start());
    assert("reset".spec_bytes() =~= seq![0x72u8, 0x65, 0x73, 0x65, 0x74]);
}

} // verus!
