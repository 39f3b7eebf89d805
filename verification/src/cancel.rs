//! Cancelling a query, on whichever node the request lands on.
//!
//! A `CancelRequest` arrives on a fresh connection carrying nothing but a key.
//! It is unauthenticated by design, and the load balancer will not send it to
//! the node holding the query.
//!
//! The key is a bearer token, so its secret half comes from an entropy source
//! rather than a counter. And a cancel is only valid while the connection is
//! held: the proxy multiplexes, so the upstream connection a client used a
//! moment ago may be running somebody else's query now.
use vstd::prelude::*;
use vstd::string::*;

use crate::auth::{decimal, decimal_text};
use crate::connect::ServerId;
use crate::proto::{ConnId, NodeId};

verus! {

/// The pool a connection came from: a server, a database and a user.
#[derive(Debug, Clone, PartialEq, Eq)]
pub struct PoolKey {
    /// The server.
    pub server: ServerId,
    /// The database.
    pub database: String,
    /// The user.
    pub user: String,
}

impl PoolKey {
    /// The pool for this server, database and user.
    pub fn new(server: ServerId, database: &str, user: &str) -> (r: PoolKey)
        ensures
            r.server == server,
            r.database@ == database@,
            r.user@ == user@,
    {
        PoolKey { server, database: database.to_owned(), user: user.to_owned() }
    }
}

/// What is needed to cancel one query upstream.
#[derive(Debug, PartialEq, Eq)]
pub struct Cancellation {
    /// The server holding the query.
    pub server: ServerId,
    /// The pool the connection came from, for dialling it again.
    pub key: PoolKey,
    /// The server's own cancel key, from its `BackendKeyData`. Postgres only
    /// cancels for the key it issued itself.
    pub backend_key: (i32, i32),
}

impl Clone for Cancellation {
    fn clone(&self) -> (r: Cancellation)
        ensures
            r == *self,
    {
        copy_of(self)
    }
}

/// Where a cancel request has to go.
#[derive(Debug, Clone, PartialEq, Eq)]
pub enum Routing {
    /// This node owns it: send a `CancelRequest` upstream with these details.
    Local(Box<Cancellation>),
    /// Another node owns it. Forward, and let it decide.
    Peer(NodeId),
    /// This node owns the key and has no such query running. Refused rather
    /// than ignored, so a leaked key stops being useful.
    Unknown,
}

/// A source of unpredictable bits.
///
/// A trait so tests can be deterministic and so this crate does not choose a
/// random number generator for its caller.
pub trait Entropy {
    /// The next value, or `None` when there is no entropy to be had. Only the
    /// low 48 bits are used.
    fn next(&self) -> Option<u64>;
}

/// The entry for `conn` in a list of live cancellations, if any.
pub open spec fn lookup(entries: Seq<(ConnId, Cancellation)>, conn: ConnId) -> Option<Cancellation>
    decreases entries.len(),
{
    if entries.len() == 0 {
        None
    } else if entries.last().0 == conn {
        Some(entries.last().1)
    } else {
        lookup(entries.drop_last(), conn)
    }
}

/// Whether no connection appears twice.
pub open spec fn distinct_keys(entries: Seq<(ConnId, Cancellation)>) -> bool {
    forall|i: int, j: int| 0 <= i < j < entries.len() ==> entries[i].0 != entries[j].0
}

/// Where a cancel for `conn` goes: to its own node if another one issued it,
/// and otherwise to the query it names, if one is held.
pub open spec fn spec_route(node: NodeId, entries: Seq<(ConnId, Cancellation)>, conn: ConnId) -> Routing {
    if conn.spec_node() != node {
        Routing::Peer(conn.spec_node())
    } else {
        match lookup(entries, conn) {
            Some(c) => Routing::Local(Box::new(c)),
            None => Routing::Unknown,
        }
    }
}

/// Every query this node could be asked to cancel.
pub struct Registry {
    node: NodeId,
    entropy: Box<dyn Entropy>,
    live: Vec<(ConnId, Cancellation)>,
}

impl View for Registry {
    type V = Seq<(ConnId, Cancellation)>;

    closed spec fn view(&self) -> Seq<(ConnId, Cancellation)> {
        self.live@
    }
}

proof fn lemma_lookup_index(entries: Seq<(ConnId, Cancellation)>, conn: ConnId)
    ensures
        lookup(entries, conn) is Some <==> exists|i: int| 0 <= i < entries.len() && entries[i].0 == conn,
        lookup(entries, conn) matches Some(c) ==> exists|i: int| 0 <= i < entries.len() && entries[i].0 == conn && entries[i].1 == c,
    decreases entries.len(),
{
    if entries.len() > 0 {
        lemma_lookup_index(entries.drop_last(), conn);
        if entries.last().0 != conn {
            assert forall|i: int| 0 <= i < entries.len() && entries[i].0 == conn implies 0 <= i < entries.drop_last().len() && entries.drop_last()[i].0 == conn by {
                assert(i != entries.len() - 1);
            }
            if lookup(entries.drop_last(), conn) is Some {
                let c = lookup(entries.drop_last(), conn)->0;
                let i = choose|i: int| 0 <= i < entries.drop_last().len() && entries.drop_last()[i].0 == conn && entries.drop_last()[i].1 == c;
                assert(entries[i] == entries.drop_last()[i]);
            }
        } else {
            assert(entries[entries.len() - 1].0 == conn);
        }
    }
}

proof fn lemma_lookup_removed(entries: Seq<(ConnId, Cancellation)>, k: int, conn: ConnId)
    requires
        distinct_keys(entries),
        0 <= k < entries.len(),
    ensures
        lookup(entries.remove(k), conn) == if entries[k].0 == conn {
            None
        } else {
            lookup(entries, conn)
        },
        distinct_keys(entries.remove(k)),
    decreases entries.len(),
{
    let r = entries.remove(k);
    if k == entries.len() - 1 {
        assert(r =~= entries.drop_last());
        if entries[k].0 == conn {
            lemma_lookup_index(r, conn);
            if lookup(r, conn) is Some {
                let i = choose|i: int| 0 <= i < r.len() && r[i].0 == conn;
                assert(entries[i] == r[i]);
            }
        }
    } else {
        assert(r.drop_last() =~= entries.drop_last().remove(k));
        assert(r.last() == entries.last());
        lemma_lookup_removed(entries.drop_last(), k, conn);
    }
}

proof fn lemma_lookup_pushed(entries: Seq<(ConnId, Cancellation)>, conn: ConnId, c: Cancellation, other: ConnId)
    ensures
        lookup(entries.push((conn, c)), other) == if other == conn {
            Some(c)
        } else {
            lookup(entries, other)
        },
{
    assert(entries.push((conn, c)).drop_last() =~= entries);
}

impl Registry {
    /// The node whose keys this registry issues.
    pub closed spec fn spec_node(&self) -> NodeId {
        self.node
    }

    /// Each connection held at most once.
    pub open spec fn wf(&self) -> bool {
        distinct_keys(self@)
    }

    /// A registry for connections this node owns.
    pub fn new(node: NodeId, entropy: Box<dyn Entropy>) -> (r: Registry)
        ensures
            r.spec_node() == node,
            r@ == Seq::<(ConnId, Cancellation)>::empty(),
            r.wf(),
    {
        Registry { node, entropy, live: Vec::new() }
    }

    /// A fresh connection identifier, with a random secret.
    ///
    /// `None` when the entropy source has none, which the caller turns into a
    /// refused connection: a key issued anyway would be guessable.
    pub fn issue(&self) -> (r: Option<ConnId>)
        ensures
            r matches Some(c) ==> c.spec_node() == self.spec_node(),
    {
        self.issued(self.entropy.next())
    }

    /// The identifier issued for what the entropy source drew: this node and
    /// the low 48 bits of the draw, and none when there was no draw.
    pub fn issued(&self, drawn: Option<u64>) -> (r: Option<ConnId>)
        ensures
            match drawn {
                Some(bits) => r matches Some(c) && c.spec_node() == self.spec_node() && c.spec_secret()
                    == crate::proto::low48(bits),
                None => r is None,
            },
    {
        match drawn {
            Some(bits) => Some(ConnId::new(self.node, bits)),
            None => None,
        }
    }

    /// How many queries are currently cancellable.
    pub fn len(&self) -> (r: usize)
        ensures
            r == self@.len(),
    {
        self.live.len()
    }

    /// Whether none are.
    pub fn is_empty(&self) -> (r: bool)
        ensures
            r == (self@.len() == 0),
    {
        self.live.len() == 0
    }

    fn position(&self, conn: ConnId) -> (r: Option<usize>)
        ensures
            match r {
                Some(i) => i < self@.len() && self@[i as int].0 == conn,
                None => forall|i: int| 0 <= i < self@.len() ==> self@[i].0 != conn,
            },
    {
        let mut i: usize = 0;
        while i < self.live.len()
            invariant
                i <= self@.len(),
                forall|j: int| 0 <= j < i ==> self@[j].0 != conn,
            decreases self@.len() - i,
        {
            if self.live[i].0 == conn {
                return Some(i);
            }
            i = i + 1;
        }
        None
    }

    /// Records that a client's session now holds an upstream connection.
    /// Holding a second one for the same client replaces the first.
    pub fn hold(&mut self, conn: ConnId, cancellation: Cancellation)
        requires
            old(self).wf(),
        ensures
            final(self).wf(),
            final(self).spec_node() == old(self).spec_node(),
            forall|other: ConnId| lookup(final(self)@, other) == if other == conn {
                Some(cancellation)
            } else {
                lookup(old(self)@, other)
            },
            final(self)@.len() == old(self)@.len() + if lookup(old(self)@, conn) is Some {
                0int
            } else {
                1int
            },
    {
        let ghost c = cancellation;
        match self.position(conn) {
            Some(i) => {
                proof {
                    assert forall|other: ConnId| lookup(self@.remove(i as int), other) == if self@[i as int].0 == other {
                        None
                    } else {
                        lookup(self@, other)
                    } by {
                        lemma_lookup_removed(self@, i as int, other);
                    }
                    lemma_lookup_removed(self@, i as int, conn);
                    lemma_lookup_index(self@, conn);
                }
                let _ = self.live.remove(i);
            },
            None => {
                proof {
                    lemma_lookup_index(self@, conn);
                }
            },
        }
        let ghost before = self@;
        self.live.push((conn, cancellation));
        proof {
            assert forall|other: ConnId| lookup(self@, other) == if other == conn {
                Some(c)
            } else {
                lookup(old(self)@, other)
            } by {
                lemma_lookup_pushed(before, conn, c, other);
            }
            assert forall|x: int, y: int| 0 <= x < y < self@.len() implies self@[x].0 != self@[y].0 by {
                if y == self@.len() - 1 {
                    assert(self@[x] == before[x]);
                    lemma_lookup_index(before, conn);
                }
            }
        }
    }

    /// Records that the connection went back to the pool. Forgetting to call
    /// it is the bug that cancels a stranger's query.
    pub fn release(&mut self, conn: ConnId)
        requires
            old(self).wf(),
        ensures
            final(self).wf(),
            final(self).spec_node() == old(self).spec_node(),
            forall|other: ConnId| lookup(final(self)@, other) == if other == conn {
                None
            } else {
                lookup(old(self)@, other)
            },
            final(self)@.len() == old(self)@.len() - if lookup(old(self)@, conn) is Some {
                1int
            } else {
                0int
            },
    {
        match self.position(conn) {
            Some(i) => {
                proof {
                    assert forall|other: ConnId| lookup(self@.remove(i as int), other) == if other == conn {
                        None
                    } else {
                        lookup(self@, other)
                    } by {
                        lemma_lookup_removed(self@, i as int, other);
                    }
                    lemma_lookup_removed(self@, i as int, conn);
                    lemma_lookup_index(self@, conn);
                }
                let _ = self.live.remove(i);
            },
            None => {
                proof {
                    lemma_lookup_index(self@, conn);
                    assert forall|other: ConnId| lookup(self@, other) == if other == conn {
                        None
                    } else {
                        lookup(self@, other)
                    } by {}
                }
            },
        }
    }

    /// Where a cancel request for this key has to go.
    pub fn route(&self, conn: ConnId) -> (r: Routing)
        requires
            self.wf(),
        ensures
            r == spec_route(self.spec_node(), self@, conn),
    {
        if conn.node() != self.node {
            return Routing::Peer(conn.node());
        }
        match self.position(conn) {
            Some(i) => {
                proof {
                    lemma_unique_lookup(self@, i as int);
                }
                let found = &self.live[i].1;
                Routing::Local(Box::new(copy_of(found)))
            },
            None => {
                proof {
                    lemma_lookup_index(self@, conn);
                }
                Routing::Unknown
            },
        }
    }

    /// A one-line description for a log line: the node and how many queries
    /// are cancellable, and none of the keys, each of which is a bearer token.
    pub fn summary(&self) -> (r: String)
        ensures
            r@ == "Registry { node: "@ + decimal(self.spec_node().0 as nat) + ", live: "@ + decimal(
                self@.len(),
            ) + ", .. }"@,
    {
        let mut s = String::from_str("Registry { node: ");
        let node = decimal_text(self.node.0 as u64);
        s.append(node.as_str());
        s.append(", live: ");
        let n = self.live.len();
        let live = decimal_text(n as u64);
        s.append(live.as_str());
        s.append(", .. }");
        proof {
            reveal_strlit("Registry { node: ");
            reveal_strlit(", live: ");
            reveal_strlit(", .. }");
        }
        s
    }
}

proof fn lemma_unique_lookup(entries: Seq<(ConnId, Cancellation)>, i: int)
    requires
        distinct_keys(entries),
        0 <= i < entries.len(),
    ensures
        lookup(entries, entries[i].0) == Some(entries[i].1),
    decreases entries.len(),
{
    if i < entries.len() - 1 {
        assert(entries.last().0 != entries[i].0);
        assert(entries.drop_last()[i] == entries[i]);
        lemma_unique_lookup(entries.drop_last(), i);
    }
}

fn copy_of(c: &Cancellation) -> (r: Cancellation)
    ensures
        r == *c,
{
    Cancellation {
        server: ServerId { host: c.server.host.clone(), port: c.server.port },
        key: PoolKey {
            server: ServerId { host: c.key.server.host.clone(), port: c.key.server.port },
            database: c.key.database.clone(),
            user: c.key.user.clone(),
        },
        backend_key: c.backend_key,
    }
}

/// Once a connection is released, a cancel naming it resolves to nothing:
/// it can never reach the query of whoever holds that upstream connection
/// next.
pub proof fn law_a_released_connection_cannot_be_cancelled(
    node: NodeId,
    before: Seq<(ConnId, Cancellation)>,
    after: Seq<(ConnId, Cancellation)>,
    conn: ConnId,
)
    requires
        conn.spec_node() == node,
        forall|other: ConnId| lookup(after, other) == if other == conn {
            None
        } else {
            lookup(before, other)
        },
    ensures
        spec_route(node, after, conn) == Routing::Unknown,
{
    assert(lookup(after, conn) is None);
}

/// A key another node issued is always forwarded to that node, whatever this
/// node holds.
pub proof fn law_another_nodes_key_goes_to_it(node: NodeId, entries: Seq<(ConnId, Cancellation)>, conn: ConnId)
    requires
        conn.spec_node() != node,
    ensures
        spec_route(node, entries, conn) == Routing::Peer(conn.spec_node()),
{
}

} // verus!
