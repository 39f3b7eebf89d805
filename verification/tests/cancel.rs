#![allow(unused_mut)]

use std::sync::atomic::{AtomicU64, Ordering};

use pgprox::cancel::{Cancellation, Entropy, PoolKey, Registry, Routing};
use pgprox::connect::ServerId;
use pgprox::proto::{ConnId, NodeId};

/// Entropy that is not: a counter, so tests are deterministic.
///
/// Deliberately the thing production must never use, which is why the
/// unpredictability test below supplies a different source rather than
/// this one.
#[derive(Debug, Default)]
struct Counter(AtomicU64);

impl Entropy for Counter {
    fn next(&self) -> Option<u64> {
        Some(self.0.fetch_add(1, Ordering::SeqCst) + 1)
    }
}

/// A source that has nothing, which is what a broken machine looks like.
#[derive(Debug, Default)]
struct Dry;

impl Entropy for Dry {
    fn next(&self) -> Option<u64> {
        None
    }
}

/// A source with real spread, for the property that matters.
#[derive(Debug, Default)]
struct SplitMix(AtomicU64);

impl Entropy for SplitMix {
    fn next(&self) -> Option<u64> {
        // Not for production either, but it has the property under test:
        // consecutive outputs are not consecutive numbers.
        let mut z = self
            .0
            .fetch_add(0x9E37_79B9_7F4A_7C15, Ordering::SeqCst)
            .wrapping_add(0x9E37_79B9_7F4A_7C15);
        z = (z ^ (z >> 30)).wrapping_mul(0xBF58_476D_1CE4_E5B9);
        z = (z ^ (z >> 27)).wrapping_mul(0x94D0_49BB_1331_11EB);
        Some(z ^ (z >> 31))
    }
}

fn registry() -> Registry {
    Registry::new(NodeId::new(1), Box::new(Counter::default()))
}

fn cancellation() -> Cancellation {
    Cancellation {
        server: ServerId::new("db-1", 5432),
        key: PoolKey::new(ServerId::new("db-1", 5432), "acme", "acme_app"),
        backend_key: (4242, 0x0bad_beef),
    }
}

#[test]
fn a_source_with_no_entropy_issues_nothing() {
    // Rather than a fallback. Every fallback available is guessable, and a
    // client handed a guessable cancel key has no way to know it.
    let mut registry = Registry::new(NodeId::new(1), Box::new(Dry));

    assert!(registry.issue().is_none());
}

#[test]
fn the_registry_counts_what_it_holds_and_prints_none_of_it() {
    // Two things nothing asserted. The count is what an operator reads to
    // know whether a node still has cancellable queries, so it has to
    // move; and the Debug has to say the count without saying the keys,
    // each of which is a bearer token for cancelling somebody's query.
    // Printing nothing satisfies the second half and fails the first.
    let mut registry = registry();
    assert_eq!(registry.len(), 0);
    assert!(registry.is_empty());

    let conn = registry.issue().unwrap();
    registry.hold(conn, cancellation());
    assert_eq!(registry.len(), 1);
    assert!(!registry.is_empty());

    let shown = registry.summary();
    assert!(shown.contains("live: 1"), "{shown}");
    assert!(!shown.contains("4242"), "{shown}");
    assert!(!shown.contains(&0x0bad_beef_i32.to_string()), "{shown}");

    registry.release(conn);
    assert_eq!(registry.len(), 0);
    assert!(registry.is_empty());
}

#[test]
fn a_key_another_node_issued_is_forwarded_to_it() {
    // The whole reason the node is encoded in the key. Without this,
    // cancellation silently breaks the moment there is a second pod.
    let mut registry = registry();
    let elsewhere = ConnId::new(NodeId::new(7), 99);

    assert_eq!(registry.route(elsewhere), Routing::Peer(NodeId::new(7)));
}

#[test]
fn a_key_this_node_owns_and_does_not_hold_is_refused() {
    // A cancel for a query that already finished is normal. Treating an
    // unknown key as probably fine is how a leaked key stays useful.
    let mut registry = registry();
    let conn = registry.issue().unwrap();

    assert_eq!(registry.route(conn), Routing::Unknown);
}

#[test]
fn a_released_connection_can_no_longer_be_cancelled() {
    // The property this module exists for. The proxy multiplexes, so the
    // connection a client used a moment ago may belong to somebody else
    // now, and cancelling it would fail an unrelated tenant's query while
    // the client that asked watches its own finish normally.
    let mut registry = registry();
    let conn = registry.issue().unwrap();

    registry.hold(conn, cancellation());
    registry.release(conn);

    assert_eq!(
        registry.route(conn),
        Routing::Unknown,
        "a cancel outlived the connection it named"
    );
}

#[test]
fn holding_a_second_connection_replaces_the_first() {
    // A session that released and acquired again is on a different
    // upstream connection, with a different server-side key.
    let mut registry = registry();
    let conn = registry.issue().unwrap();
    registry.hold(conn, cancellation());

    let moved = Cancellation {
        backend_key: (9999, 1),
        ..cancellation()
    };
    registry.hold(conn, moved.clone());

    assert_eq!(registry.route(conn), Routing::Local(Box::new(moved)));
    assert_eq!(registry.len(), 1);
}

#[test]
fn every_issued_key_belongs_to_this_node() {
    let mut registry = Registry::new(NodeId::new(5), Box::new(SplitMix::default()));
    for _ in 0..100 {
        assert_eq!(registry.issue().unwrap().node(), NodeId::new(5));
    }
}

#[test]
fn issued_keys_are_not_derivable_from_one_another() {
    // The security property. With a counter, adding one to your own key
    // gives you your neighbour's, and "cancel your own query" becomes
    // "cancel anyone's".
    let mut registry = Registry::new(NodeId::new(1), Box::new(SplitMix::default()));
    let issued: Vec<u64> = (0..64)
        .map(|_| registry.issue().unwrap().secret())
        .collect();

    let sequential = issued.windows(2).filter(|w| w[1] == w[0] + 1).count();
    assert_eq!(
        sequential, 0,
        "issued keys are consecutive, so one client can derive another's"
    );

    let unique: std::collections::BTreeSet<u64> = issued.iter().copied().collect();
    assert_eq!(unique.len(), issued.len(), "two clients got the same key");
}

#[test]
fn a_counter_source_fails_the_property_the_random_one_passes() {
    // Proves the test above is measuring something. A counter is exactly
    // what the module docs forbid, and it must not pass.
    let mut registry = registry();
    let issued: Vec<u64> = (0..8).map(|_| registry.issue().unwrap().secret()).collect();

    assert!(
        issued.windows(2).all(|w| w[1] == w[0] + 1),
        "the counter source stopped counting, so the property test proves nothing"
    );
}

#[test]
fn a_registry_prints_no_cancel_keys() {
    // Each entry is a bearer token, and this will reach a log line.
    let mut registry = registry();
    let conn = registry.issue().unwrap();
    registry.hold(conn, cancellation());

    let rendered = registry.summary();
    assert!(!rendered.contains("beef"), "{rendered}");
    assert!(!rendered.contains("4242"), "{rendered}");
}

#[test]
fn an_issued_key_is_this_node_and_the_low_bits_of_the_draw() {
    let registry = Registry::new(NodeId::new(9), Box::new(Dry));
    assert_eq!(registry.issued(None), None);
    let conn = registry.issued(Some(0xdead_0000_0000_0007)).unwrap();
    assert_eq!(conn.node(), NodeId::new(9));
    assert_eq!(conn.secret(), 0x0000_0000_0007);
}
