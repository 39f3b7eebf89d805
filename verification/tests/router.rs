use pgprox::replica::{ReplicaConfig, Replicas};
use pgprox::route::{Lsn, RouteCtx, RouteHint, RouteTarget, StmtClass};
use pgprox::router::{Routed, SessionRouter, StatelessRouter};

/// A moment on the monotonic clock, in nanoseconds.
fn clock() -> u64 {
    1_000_000_000_000
}

/// One replica, caught up and healthy.
fn replicas(replayed: u64) -> (Replicas, u64) {
    let now = clock();
    let mut replicas = Replicas::new(1, ReplicaConfig::default());
    replicas.observe(0, Lsn::new(replayed), true, now);
    (replicas, now)
}

fn route(router: &mut SessionRouter, sql: &str, in_transaction: bool) -> Routed {
    let (replicas, now) = replicas(1_000);
    router.route(sql, in_transaction, &replicas, now)
}

#[test]
fn a_read_goes_to_a_replica_and_a_write_to_the_primary() {
    let mut router = SessionRouter::new();
    assert_eq!(
        route(&mut router, "SELECT * FROM t", false),
        Routed::To(RouteTarget::Replica(0))
    );
    assert_eq!(
        route(&mut router, "DELETE FROM t", false),
        Routed::To(RouteTarget::Primary)
    );
}

#[test]
fn a_transaction_keeps_the_target_its_first_statement_chose() {
    // A transaction spanning two servers would see different snapshots and
    // take locks in one place while releasing them in another.
    let mut router = SessionRouter::new();
    assert_eq!(
        route(&mut router, "BEGIN", false),
        Routed::To(RouteTarget::Primary),
        "BEGIN is not a read, so it opens on the primary"
    );
    assert_eq!(router.fixed_target(), Some(RouteTarget::Primary));

    // A plain SELECT inside it stays put, even though on its own it would
    // reach a replica.
    assert_eq!(
        route(&mut router, "SELECT * FROM t", true),
        Routed::To(RouteTarget::Primary),
        "a read inside a write transaction escaped to a replica"
    );

    router.end_transaction();
    assert_eq!(router.fixed_target(), None);
    assert_eq!(
        route(&mut router, "SELECT * FROM t", false),
        Routed::To(RouteTarget::Replica(0)),
        "the target stayed fixed after the transaction ended"
    );
}

#[test]
fn a_read_only_transaction_reaches_a_replica_and_holds_there() {
    // The session has told the server to refuse writes for the whole
    // transaction, which is a stronger promise than the classifier can make
    // about any one statement.
    let mut router = SessionRouter::new();
    assert_eq!(
        route(&mut router, "BEGIN READ ONLY", false),
        Routed::To(RouteTarget::Replica(0))
    );
    assert_eq!(router.fixed_target(), Some(RouteTarget::Replica(0)));
    assert_eq!(
        route(&mut router, "SELECT * FROM t", true),
        Routed::To(RouteTarget::Replica(0))
    );
}

#[test]
fn a_read_only_transaction_admits_a_statement_the_classifier_would_not() {
    // The promise is to the server, which will reject a write outright, so
    // it covers constructs the lexical scan cannot vouch for.
    let mut router = SessionRouter::new();
    route(&mut router, "START TRANSACTION READ ONLY", false);
    router.end_transaction();
    assert_eq!(router.fixed_target(), None);

    let mut router = SessionRouter::new();
    assert_eq!(
        route(&mut router, "BEGIN READ ONLY", false),
        Routed::To(RouteTarget::Replica(0))
    );
    assert_eq!(
        route(&mut router, "SELECT pg_catalog.nextval('s')", true),
        Routed::To(RouteTarget::Replica(0)),
        "the transaction-wide promise was not honoured"
    );
}

#[test]
fn a_session_hint_is_consumed_rather_than_forwarded() {
    // The server never sees it. Forwarding it would store a value nothing
    // reads, in a second place that can disagree with this one.
    let mut router = SessionRouter::new();
    assert_eq!(
        route(&mut router, "SET pgprox.route = 'primary'", false),
        Routed::HintAccepted
    );
    assert_eq!(router.hint(), RouteHint::Primary);
    assert_eq!(
        route(&mut router, "SELECT * FROM t", false),
        Routed::To(RouteTarget::Primary),
        "the session hint was not applied"
    );

    assert_eq!(
        route(&mut router, "RESET pgprox.route", false),
        Routed::HintAccepted
    );
    assert_eq!(router.hint(), RouteHint::Auto);
    assert_eq!(
        route(&mut router, "SELECT * FROM t", false),
        Routed::To(RouteTarget::Replica(0))
    );
}

#[test]
fn a_bad_hint_value_is_rejected_rather_than_swallowed() {
    let mut router = SessionRouter::new();
    assert_eq!(
        route(&mut router, "SET pgprox.route = 'relpica'", false),
        Routed::HintRejected
    );
    assert_eq!(
        router.hint(),
        RouteHint::Auto,
        "a rejected hint changed the session anyway"
    );
}

#[test]
fn a_statement_comment_outranks_the_session_setting() {
    // The more specific of the two wins, which is what lets an ORM override
    // a connection-wide default for one query.
    let mut router = SessionRouter::new();
    route(&mut router, "SET pgprox.route = 'primary'", false);
    assert_eq!(
        route(&mut router, "/* pgprox:replica */ SELECT * FROM t", false),
        Routed::To(RouteTarget::Replica(0))
    );
    assert_eq!(
        router.hint(),
        RouteHint::Primary,
        "a per-statement comment changed the session"
    );
}

#[test]
fn a_hint_still_cannot_send_a_write_to_a_replica() {
    let mut router = SessionRouter::new();
    route(&mut router, "SET pgprox.route = 'replica'", false);
    assert_eq!(
        route(&mut router, "DELETE FROM t", false),
        Routed::To(RouteTarget::Primary)
    );
    assert_eq!(
        route(
            &mut router,
            "/* pgprox:replica */ UPDATE t SET a = 1",
            false
        ),
        Routed::To(RouteTarget::Primary)
    );
}

#[test]
fn a_write_keeps_later_reads_off_replicas_that_have_not_caught_up() {
    // Read-your-writes across statements, which is what the watermark is
    // for and why it outlives the transaction that set it.
    let now = clock();
    let mut lagging = Replicas::new(1, ReplicaConfig::default());
    lagging.observe(0, Lsn::new(499), true, now);

    let mut router = SessionRouter::new();
    router.record_write(Lsn::new(500));
    assert_eq!(
        router.route("SELECT * FROM t", false, &lagging, now),
        Routed::To(RouteTarget::Primary),
        "a session read from a replica behind its own write"
    );

    lagging.observe(0, Lsn::new(500), true, now);
    assert_eq!(
        router.route("SELECT * FROM t", false, &lagging, now),
        Routed::To(RouteTarget::Replica(0))
    );
}

#[test]
fn the_watermark_survives_the_transaction_that_set_it() {
    let mut router = SessionRouter::new();
    router.record_write(Lsn::new(500));
    router.end_transaction();
    assert_eq!(
        router.watermark().get(),
        Some(Lsn::new(500)),
        "the floor was cleared with the transaction"
    );
}

#[test]
fn a_pinned_session_stays_on_the_primary() {
    let mut router = SessionRouter::new();
    router.set_pinned(true);
    assert!(router.is_pinned());
    assert_eq!(
        route(&mut router, "SELECT * FROM t", false),
        Routed::To(RouteTarget::Primary)
    );

    // Even with a hint asking otherwise.
    route(&mut router, "SET pgprox.route = 'replica'", false);
    assert_eq!(
        route(&mut router, "SELECT * FROM t", false),
        Routed::To(RouteTarget::Primary)
    );
}

#[test]
fn no_healthy_replica_means_the_primary() {
    let now = clock();
    let empty = Replicas::new(0, ReplicaConfig::default());
    let mut router = SessionRouter::new();
    assert_eq!(
        router.route("SELECT * FROM t", false, &empty, now),
        Routed::To(RouteTarget::Primary)
    );
}

#[test]
fn reset_returns_the_session_to_a_fresh_one() {
    // A pooled client connection handed to a new client must not inherit
    // the last one's watermark or hint.
    let mut router = SessionRouter::new();
    router.record_write(Lsn::new(500));
    route(&mut router, "SET pgprox.route = 'primary'", false);
    router.set_pinned(true);

    router.reset();
    assert_eq!(router.watermark().get(), None);
    assert_eq!(router.hint(), RouteHint::Auto);
    assert!(!router.is_pinned());
    assert_eq!(router.fixed_target(), None);
}

#[test]
fn a_transaction_opened_without_begin_still_fixes_its_target() {
    // The status byte is authoritative. A transaction can open in ways a
    // text scan does not see, and the first statement routed under it is
    // still the one that decides.
    let mut router = SessionRouter::new();
    assert_eq!(
        route(&mut router, "SELECT * FROM t", true),
        Routed::To(RouteTarget::Replica(0))
    );
    assert_eq!(router.fixed_target(), Some(RouteTarget::Replica(0)));
    assert_eq!(
        route(&mut router, "SELECT * FROM other", true),
        Routed::To(RouteTarget::Replica(0))
    );
}

#[test]
fn a_single_statement_outside_a_transaction_fixes_nothing() {
    // Its implicit transaction ends at the same ReadyForQuery that releases
    // the connection, so there is nothing to remember.
    let mut router = SessionRouter::new();
    route(&mut router, "SELECT * FROM t", false);
    assert_eq!(router.fixed_target(), None);
}

#[test]
fn the_stateless_router_applies_the_shared_rule() {
    let now = clock();
    let (replicas, _) = replicas(1_000);
    let states = replicas.states(now);

    let router = StatelessRouter;
    let read = RouteCtx {
        class: StmtClass::ReadOnly,
        ..RouteCtx::default()
    };
    assert_eq!(router.route(&read, &states), RouteTarget::Replica(0));

    let write = RouteCtx {
        class: StmtClass::Write,
        ..RouteCtx::default()
    };
    assert_eq!(router.route(&write, &states), RouteTarget::Primary);
}
