use pgprox::hints::{RouteAssignment, parse_hint_value, parse_route_assignment, statement_hint};
use pgprox::route::{Lsn, ReplicaState, RouteCtx, RouteHint, RouteTarget, StmtClass, decide};

#[test]
fn the_three_values_parse_with_their_aliases() {
    assert_eq!(parse_hint_value("auto"), Some(RouteHint::Auto));
    assert_eq!(parse_hint_value("default"), Some(RouteHint::Auto));
    for primary in ["primary", "writer", "master", "PRIMARY", "Primary"] {
        assert_eq!(
            parse_hint_value(primary),
            Some(RouteHint::Primary),
            "{primary}"
        );
    }
    for replica in ["replica", "reader", "standby", "REPLICA"] {
        assert_eq!(
            parse_hint_value(replica),
            Some(RouteHint::Replica),
            "{replica}"
        );
    }
}

#[test]
fn quotes_and_whitespace_around_the_value_are_stripped() {
    for value in ["'replica'", "\"replica\"", "  replica  ", " 'replica' "] {
        assert_eq!(
            parse_hint_value(value),
            Some(RouteHint::Replica),
            "{value:?}"
        );
    }
}

#[test]
fn an_unrecognised_value_is_none_rather_than_a_default() {
    // A typo must be reportable. Quietly treating `relpica` as `auto` would
    // leave a client believing its reads were on replicas.
    for value in ["relpica", "", "'", "replicas", "primary replica", "1"] {
        assert_eq!(parse_hint_value(value), None, "{value:?}");
    }
}

#[test]
fn a_leading_comment_carries_a_hint() {
    assert_eq!(
        statement_hint("/* pgprox:replica */ SELECT 1"),
        Some(RouteHint::Replica)
    );
    assert_eq!(
        statement_hint("/*pgprox:primary*/SELECT 1"),
        Some(RouteHint::Primary)
    );
    assert_eq!(
        statement_hint("-- pgprox:replica\nSELECT 1"),
        Some(RouteHint::Replica)
    );
    assert_eq!(
        statement_hint("  \n /* pgprox:replica */ \n SELECT 1"),
        Some(RouteHint::Replica)
    );
}

#[test]
fn a_hint_after_the_sql_has_started_is_not_a_hint() {
    // Scanning the whole statement would let a row's contents change where
    // a query runs, since a hint could then arrive inside a literal.
    assert_eq!(statement_hint("SELECT 1 /* pgprox:replica */"), None);
    assert_eq!(statement_hint("SELECT '/* pgprox:replica */'"), None);
    assert_eq!(
        statement_hint("SELECT * FROM t WHERE note = '-- pgprox:replica'"),
        None
    );
}

#[test]
fn several_leading_comments_are_all_considered() {
    // ORMs and query loggers both prepend comments, so a hint is rarely the
    // only one there.
    assert_eq!(
        statement_hint("/* app:orders */ /* pgprox:replica */ SELECT 1"),
        Some(RouteHint::Replica)
    );
    assert_eq!(
        statement_hint("-- traceparent: 00-abc\n/* pgprox:primary */ SELECT 1"),
        Some(RouteHint::Primary)
    );
}

#[test]
fn an_unrelated_comment_yields_no_hint() {
    assert_eq!(statement_hint("/* just a comment */ SELECT 1"), None);
    assert_eq!(statement_hint("SELECT 1"), None);
    assert_eq!(statement_hint(""), None);
}

#[test]
fn an_unrecognised_hint_value_in_a_comment_is_no_hint() {
    assert_eq!(statement_hint("/* pgprox:relpica */ SELECT 1"), None);
    assert_eq!(statement_hint("/* pgprox: */ SELECT 1"), None);
}

#[test]
fn a_nested_comment_does_not_end_early_or_smuggle_a_hint() {
    // The outer comment is what a hint would be in. A hint inside a nested
    // one is a comment about a comment.
    assert_eq!(
        statement_hint("/* outer /* inner */ still outer */ SELECT 1"),
        None
    );
    assert_eq!(
        statement_hint("/* /* pgprox:replica */ */ SELECT 1"),
        None,
        "a nested hint was honoured"
    );
}

#[test]
fn an_unterminated_comment_yields_no_hint() {
    // The server rejects it as a syntax error, so there is no statement to
    // route. Taking instructions from malformed input is a habit worth not
    // starting.
    assert_eq!(statement_hint("/* pgprox:replica"), None);
    assert_eq!(statement_hint("/*"), None);

    // A well-formed comment earlier in the statement still counts. The
    // rule is about not reading a hint out of malformed text, not about
    // discarding one that was written properly.
    assert_eq!(
        statement_hint("/* pgprox:replica */ /* unterminated"),
        Some(RouteHint::Replica)
    );
}

#[test]
fn a_set_of_the_route_parameter_is_recognised_in_its_spellings() {
    for sql in [
        "SET pgprox.route = 'replica'",
        "SET pgprox.route='replica'",
        "SET pgprox.route TO replica",
        "set PGPROX.ROUTE to 'REPLICA'",
        "SET   pgprox.route   =   replica  ;",
    ] {
        assert_eq!(
            parse_route_assignment(sql),
            Some(RouteAssignment::SetHint(RouteHint::Replica)),
            "{sql:?}"
        );
    }
}

#[test]
fn a_bad_value_is_reported_rather_than_ignored() {
    // The client must be able to find out. Treating a typo as no
    // assignment leaves it believing its reads are on replicas.
    assert_eq!(
        parse_route_assignment("SET pgprox.route = 'relpica'"),
        Some(RouteAssignment::Invalid)
    );
    assert_eq!(
        parse_route_assignment("SET pgprox.route = "),
        Some(RouteAssignment::Invalid)
    );
}

#[test]
fn a_reset_returns_to_auto() {
    assert_eq!(
        parse_route_assignment("RESET pgprox.route"),
        Some(RouteAssignment::Reset)
    );
    assert_eq!(
        parse_route_assignment("reset ALL"),
        Some(RouteAssignment::Reset),
        "RESET ALL clears every parameter, this one included"
    );
}

#[test]
fn another_parameter_is_left_alone() {
    // Anything not recognised here is forwarded upstream untouched.
    for sql in [
        "SET work_mem = '1MB'",
        "SET pgprox.routex = 'replica'",
        "SET pgprox.other = 'replica'",
        "RESET work_mem",
        "RESET ALL EXTRA",
        "SELECT 1",
        "SET",
        "",
    ] {
        assert_eq!(parse_route_assignment(sql), None, "{sql:?}");
    }
}

#[test]
fn a_replica_hint_admits_an_unknown_statement_but_never_a_write() {
    // The one thing a hint buys: the client asserting it knows its own SQL
    // better than a lexical scan. It stops there.
    let replica = [ReplicaState {
        replayed: Lsn::new(100),
        healthy: true,
    }];

    let unknown = RouteCtx {
        class: StmtClass::Unknown,
        hint: RouteHint::Replica,
        ..RouteCtx::default()
    };
    assert_eq!(decide(&unknown, &replica), RouteTarget::Replica(0));

    let write = RouteCtx {
        class: StmtClass::Write,
        hint: RouteHint::Replica,
        ..RouteCtx::default()
    };
    assert_eq!(
        decide(&write, &replica),
        RouteTarget::Primary,
        "a hint sent a write to a replica"
    );
}

#[test]
fn a_replica_hint_never_overrides_the_watermark() {
    // Read-your-writes outranks a preference. The client cannot know how
    // far a replica has replayed, so its hint cannot speak to this.
    let behind = [ReplicaState {
        replayed: Lsn::new(499),
        healthy: true,
    }];
    let ctx = RouteCtx {
        class: StmtClass::ReadOnly,
        hint: RouteHint::Replica,
        watermark: Some(Lsn::new(500)),
        ..RouteCtx::default()
    };
    assert_eq!(
        decide(&ctx, &behind),
        RouteTarget::Primary,
        "a hint overrode the watermark and served a stale read"
    );
}

#[test]
fn a_primary_hint_is_always_honoured() {
    // Asking for the primary is always safe, so it has none of the limits
    // the replica hint has.
    let replica = [ReplicaState {
        replayed: Lsn::new(9_999),
        healthy: true,
    }];
    let ctx = RouteCtx {
        class: StmtClass::ReadOnly,
        hint: RouteHint::Primary,
        ..RouteCtx::default()
    };
    assert_eq!(decide(&ctx, &replica), RouteTarget::Primary);
}
