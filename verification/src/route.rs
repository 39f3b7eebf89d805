//! The routing rule: where one statement may go, given what it does and how
//! far each replica has replayed.
//!
//! One rule, written down once. The session router supplies its inputs and
//! remembers its answer; nothing else decides.
use vstd::prelude::*;

verus! {

/// A position in the write-ahead log.
#[derive(Clone, Copy, Debug, PartialEq, Eq, Structural, PartialOrd, Ord, Hash)]
pub struct Lsn(pub u64);

impl Lsn {
    /// The position with this numeric value.
    pub fn new(value: u64) -> (r: Lsn)
        ensures
            r.0 == value,
    {
        Lsn(value)
    }

    /// Its numeric value.
    pub fn get(self) -> (r: u64)
        ensures
            r == self.0,
    {
        self.0
    }
}

/// What a statement does, as far as a lexical scan can tell.
#[derive(Clone, Copy, Debug, PartialEq, Eq, Structural)]
pub enum StmtClass {
    /// Reads only, and may run on a replica.
    ReadOnly,
    /// Modifies data.
    Write,
    /// Not vouched for. Treated as a write.
    Unknown,
}

/// Where the client asked for its statements to go.
#[derive(Clone, Copy, Debug, PartialEq, Eq, Structural)]
pub enum RouteHint {
    /// Let the rule decide.
    Auto,
    /// Always the primary.
    Primary,
    /// A replica where the rule allows one.
    Replica,
}

/// Where a statement is sent.
#[derive(Clone, Copy, Debug, PartialEq, Eq, Structural)]
pub enum RouteTarget {
    /// The primary.
    Primary,
    /// The replica at this index of the grant's replica list.
    Replica(usize),
}

/// What the router knows about one replica.
#[derive(Clone, Copy, Debug, PartialEq, Eq, Structural)]
pub struct ReplicaState {
    /// How far it has replayed.
    pub replayed: Lsn,
    /// Whether it may be used at all.
    pub healthy: bool,
}

/// Everything the rule reads about one statement and its session.
#[derive(Clone, Copy, Debug, PartialEq, Eq, Structural)]
pub struct RouteCtx {
    /// What the statement does.
    pub class: StmtClass,
    /// The session's read-your-writes floor, if it has written.
    pub watermark: Option<Lsn>,
    /// Whether the statement runs inside a transaction whose target is
    /// already decided elsewhere.
    pub in_transaction: bool,
    /// Whether the session is bound to one connection on the primary.
    pub pinned: bool,
    /// What the client asked for.
    pub hint: RouteHint,
}

impl RouteCtx {
    /// A statement nothing is known about: unknown, no writes, no hint.
    pub fn new() -> (r: RouteCtx)
        ensures
            r.class == StmtClass::Unknown,
            r.watermark is None,
            !r.in_transaction,
            !r.pinned,
            r.hint == RouteHint::Auto,
    {
        RouteCtx {
            class: StmtClass::Unknown,
            watermark: None,
            in_transaction: false,
            pinned: false,
            hint: RouteHint::Auto,
        }
    }
}

impl Default for RouteCtx {
    fn default() -> (r: RouteCtx)
        ensures
            r.class == StmtClass::Unknown,
            r.watermark is None,
            !r.in_transaction,
            !r.pinned,
            r.hint == RouteHint::Auto,
    {
        RouteCtx::new()
    }
}

/// Whether a replica in this state may serve a session with this floor: it
/// answers, and it has replayed at least as far as the session has written.
pub open spec fn caught_up(state: ReplicaState, watermark: Option<Lsn>) -> bool {
    &&& state.healthy
    &&& match watermark {
        Some(w) => state.replayed.0 >= w.0,
        None => true,
    }
}

/// Whether the statement may go to a replica at all, whatever the replicas
/// look like.
///
/// A pinned session, a statement inside a decided transaction, and a request
/// for the primary all mean the primary. A write never reaches a replica. A
/// statement the classifier could not vouch for reaches one only when the
/// client asked for a replica.
pub open spec fn replica_eligible(ctx: RouteCtx) -> bool {
    &&& !ctx.pinned
    &&& !ctx.in_transaction
    &&& ctx.hint != RouteHint::Primary
    &&& match ctx.class {
        StmtClass::ReadOnly => true,
        StmtClass::Unknown => ctx.hint == RouteHint::Replica,
        StmtClass::Write => false,
    }
}

/// The lowest index at or after `from` of a replica that can serve this floor.
pub open spec fn first_caught_up(states: Seq<ReplicaState>, watermark: Option<Lsn>, from: int) -> Option<int>
    decreases states.len() - from,
{
    if from < 0 || from >= states.len() {
        None
    } else if caught_up(states[from], watermark) {
        Some(from)
    } else {
        first_caught_up(states, watermark, from + 1)
    }
}

/// The rule: the first replica that has caught up with the session, when the
/// statement may go to a replica at all; the primary otherwise.
pub open spec fn spec_decide(ctx: RouteCtx, states: Seq<ReplicaState>) -> RouteTarget {
    if replica_eligible(ctx) {
        match first_caught_up(states, ctx.watermark, 0) {
            Some(i) => RouteTarget::Replica(i as usize),
            None => RouteTarget::Primary,
        }
    } else {
        RouteTarget::Primary
    }
}

pub proof fn lemma_first_caught_up(states: Seq<ReplicaState>, watermark: Option<Lsn>, from: int)
    requires
        0 <= from,
    ensures
        first_caught_up(states, watermark, from) matches Some(i) ==> from <= i < states.len()
            && caught_up(states[i], watermark) && forall|j: int|
            from <= j < i ==> !caught_up(#[trigger] states[j], watermark),
        first_caught_up(states, watermark, from) is None ==> forall|j: int|
            from <= j < states.len() ==> !caught_up(#[trigger] states[j], watermark),
    decreases states.len() - from,
{
    if from < states.len() && !caught_up(states[from], watermark) {
        lemma_first_caught_up(states, watermark, from + 1);
    }
}

fn exec_caught_up(state: &ReplicaState, watermark: Option<Lsn>) -> (r: bool)
    ensures
        r == caught_up(*state, watermark),
{
    state.healthy && match watermark {
        Some(w) => state.replayed.0 >= w.0,
        None => true,
    }
}

/// Decides where a statement goes.
pub fn decide(ctx: &RouteCtx, replicas: &[ReplicaState]) -> (r: RouteTarget)
    ensures
        r == spec_decide(*ctx, replicas@),
{
    let eligible = !ctx.pinned && !ctx.in_transaction && !matches!(ctx.hint, RouteHint::Primary)
        && match ctx.class {
        StmtClass::ReadOnly => true,
        StmtClass::Unknown => matches!(ctx.hint, RouteHint::Replica),
        StmtClass::Write => false,
    };
    if !eligible {
        return RouteTarget::Primary;
    }
    let mut i: usize = 0;
    while i < replicas.len()
        invariant
            i <= replicas@.len(),
            replica_eligible(*ctx),
            first_caught_up(replicas@, ctx.watermark, 0) == first_caught_up(
                replicas@,
                ctx.watermark,
                i as int,
            ),
        decreases replicas.len() - i,
    {
        if exec_caught_up(&replicas[i], ctx.watermark) {
            return RouteTarget::Replica(i);
        }
        i = i + 1;
    }
    RouteTarget::Primary
}

/// A write never reaches a replica, whatever the hint, the replicas or the
/// session say.
pub proof fn law_a_write_never_reaches_a_replica(ctx: RouteCtx, states: Seq<ReplicaState>)
    requires
        ctx.class == StmtClass::Write,
    ensures
        spec_decide(ctx, states) == RouteTarget::Primary,
{
}

/// A replica is chosen only if it is healthy and has replayed at least as far
/// as the session's floor, and only for a statement that may go to one.
pub proof fn law_a_chosen_replica_has_caught_up(ctx: RouteCtx, states: Seq<ReplicaState>)
    requires
        states.len() <= usize::MAX,
    ensures
        spec_decide(ctx, states) matches RouteTarget::Replica(i) ==> {
            &&& replica_eligible(ctx)
            &&& i < states.len()
            &&& states[i as int].healthy
            &&& (ctx.watermark matches Some(w) ==> states[i as int].replayed.0 >= w.0)
        },
{
    lemma_first_caught_up(states, ctx.watermark, 0);
}

/// Asking for the primary is always honoured, and so is a pin.
pub proof fn law_the_primary_is_always_available(ctx: RouteCtx, states: Seq<ReplicaState>)
    requires
        ctx.pinned || ctx.hint == RouteHint::Primary,
    ensures
        spec_decide(ctx, states) == RouteTarget::Primary,
{
}

/// A read-only statement with no floor reaches a replica whenever one is
/// healthy.
pub proof fn law_a_read_reaches_a_healthy_replica(ctx: RouteCtx, states: Seq<ReplicaState>, i: int)
    requires
        replica_eligible(ctx),
        ctx.watermark is None,
        0 <= i < states.len(),
        states[i].healthy,
    ensures
        spec_decide(ctx, states) is Replica,
{
    lemma_first_caught_up(states, ctx.watermark, 0);
}

} // verus!
