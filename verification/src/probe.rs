//! What the proxy asks servers for itself: the parameters a client must be
//! told, how far a replica has replayed, and where the primary's writes have
//! reached. The connections and the round trips are the caller's; this is
//! what is read out of the answers.
use vstd::prelude::*;
use vstd::string::*;

use crate::backend::{BackendMessage, Decoded, decode, spec_decoded, as_i32};
use crate::connect::ServerId;
use crate::proto::{Tag, be16, be32, read_be16, read_be32, str_eq};
use crate::replica::Probe;
use crate::route::Lsn;
use crate::text::{text_of, lemma_text_of, str_from_utf8};

verus! {

/// The query a replica is asked, once per poll: how far it has replayed, and
/// whether it is still a replica at all.
pub const REPLICA_QUERY: &'static str = "SELECT pg_last_wal_replay_lsn(), pg_is_in_recovery()";

/// What the proxy asks the primary after a write. The insert position is at
/// or ahead of the flush position, so a floor taken from it is conservative.
pub const PRIMARY_LSN_QUERY: &'static str = "SELECT pg_current_wal_insert_lsn()";

/// The parameter the proxy sets for its own purposes and does not pass on.
pub const NOT_THE_CLIENTS: &'static str = "application_name";

// ---------------------------------------------------------------------------
// What clients are told
// ---------------------------------------------------------------------------

/// A server and database, as the cache is keyed: host, port, database.
pub type CacheKey = (Seq<char>, u16, Seq<char>);

/// A list of parameters, name and value, as text.
pub open spec fn params_view(v: Seq<(String, String)>) -> Seq<(Seq<char>, Seq<char>)> {
    v.map_values(|p: (String, String)| (p.0@, p.1@))
}

/// The parameters a client is told of, out of those a server sent: all of
/// them, in order, but [`NOT_THE_CLIENTS`].
pub open spec fn passed_on(ps: Seq<(Seq<char>, Seq<char>)>) -> Seq<(Seq<char>, Seq<char>)>
    decreases ps.len(),
{
    if ps.len() == 0 {
        Seq::empty()
    } else if ps.last().0 == NOT_THE_CLIENTS@ {
        passed_on(ps.drop_last())
    } else {
        passed_on(ps.drop_last()).push(ps.last())
    }
}

/// The proxy's own `application_name` never reaches a client, and every
/// other parameter the server sent does, in the order it was sent.
pub proof fn law_the_proxys_own_name_is_not_passed_on(ps: Seq<(Seq<char>, Seq<char>)>)
    ensures
        forall|i: int| 0 <= i < passed_on(ps).len() ==> (#[trigger] passed_on(ps)[i]).0 != NOT_THE_CLIENTS@,
        forall|i: int| 0 <= i < ps.len() && (#[trigger] ps[i]).0 != NOT_THE_CLIENTS@
            ==> passed_on(ps).contains(ps[i]),
        passed_on(ps).len() <= ps.len(),
        (forall|i: int| 0 <= i < ps.len() ==> (#[trigger] ps[i]).0 != NOT_THE_CLIENTS@) ==> passed_on(ps) == ps,
    decreases ps.len(),
{
    if ps.len() > 0 {
        let rest = ps.drop_last();
        law_the_proxys_own_name_is_not_passed_on(rest);
        assert forall|i: int| 0 <= i < ps.len() && (#[trigger] ps[i]).0 != NOT_THE_CLIENTS@
            implies passed_on(ps).contains(ps[i]) by {
            if i < ps.len() - 1 {
                assert(rest[i] == ps[i]);
                let w = choose|w: int| 0 <= w < passed_on(rest).len() && passed_on(rest)[w] == rest[i];
                assert(passed_on(ps)[w] == ps[i]);
            } else {
                assert(passed_on(ps).last() == ps[i]);
            }
        }
        if forall|i: int| 0 <= i < ps.len() ==> (#[trigger] ps[i]).0 != NOT_THE_CLIENTS@ {
            assert(ps.last() == ps[ps.len() - 1]);
            assert forall|i: int| 0 <= i < rest.len() implies (#[trigger] rest[i]).0 != NOT_THE_CLIENTS@ by {
                assert(rest[i] == ps[i]);
            }
            assert(passed_on(ps) =~= ps);
        }
    } else {
        assert(passed_on(ps) =~= ps);
    }
}

/// Recording the same server and database twice keeps the newer answer and
/// knows the pair once: a server upgraded under a running proxy is
/// described as it now is.
pub proof fn law_recording_twice_keeps_the_newer(
    known: Map<CacheKey, Seq<(Seq<char>, Seq<char>)>>,
    key: CacheKey,
    first: Seq<(Seq<char>, Seq<char>)>,
    second: Seq<(Seq<char>, Seq<char>)>,
)
    ensures
        known.insert(key, first).insert(key, second) == known.insert(key, second),
        known.insert(key, first).insert(key, second).dom() == known.insert(key, first).dom(),
{
    assert(known.insert(key, first).insert(key, second) =~= known.insert(key, second));
    assert(known.insert(key, first).insert(key, second).dom() =~= known.insert(key, first).dom());
}

/// The key of a server and database.
pub open spec fn key_of(server: ServerId, database: Seq<char>) -> CacheKey {
    (server.host@, server.port, database)
}

/// One `ParameterStatus` set per server and database, and a count of the
/// probe connections opened to fill it.
#[derive(Debug)]
pub struct ParameterCache {
    entries: Vec<(ServerId, String, Vec<(String, String)>)>,
    probes: u64,
}

impl ParameterCache {
    spec fn keys(&self) -> Seq<CacheKey> {
        self.entries@.map_values(|e: (ServerId, String, Vec<(String, String)>)| key_of(e.0, e.1@))
    }

    spec fn value_at(&self, k: CacheKey) -> Seq<(Seq<char>, Seq<char>)> {
        let i = choose|i: int| 0 <= i < self.keys().len() && self.keys()[i] == k;
        params_view(self.entries@[i].2@)
    }

    /// Each server and database is known once.
    pub closed spec fn wf(&self) -> bool {
        self.keys().no_duplicates()
    }

    /// What is known: for each server and database, what its clients are told.
    pub closed spec fn known(&self) -> Map<CacheKey, Seq<(Seq<char>, Seq<char>)>> {
        Map::new(|k: CacheKey| self.keys().contains(k), |k: CacheKey| self.value_at(k))
    }

    /// How many probe connections have been opened.
    pub closed spec fn spec_probes(&self) -> u64 {
        self.probes
    }

    /// An empty cache.
    pub fn new() -> (r: ParameterCache)
        ensures
            r.wf(),
            r.known() == Map::<CacheKey, Seq<(Seq<char>, Seq<char>)>>::empty(),
            r.spec_probes() == 0,
    {
        let r = ParameterCache { entries: Vec::new(), probes: 0 };
        proof {
            assert(r.known() =~= Map::<CacheKey, Seq<(Seq<char>, Seq<char>)>>::empty());
        }
        r
    }

    /// How many probe connections have been opened.
    pub fn probes(&self) -> (r: u64)
        ensures
            r == self.spec_probes(),
    {
        self.probes
    }

    /// Counts a probe connection, as a 64-bit counter does, wrapping.
    pub fn note_probe(&mut self)
        ensures
            final(self).known() == old(self).known(),
            final(self).wf() == old(self).wf(),
            final(self).spec_probes() == if old(self).spec_probes() < u64::MAX {
                (old(self).spec_probes() + 1) as u64
            } else {
                0u64
            },
    {
        self.probes = if self.probes < u64::MAX {
            self.probes + 1
        } else {
            0
        };
        proof {
            assert(final(self).keys() =~= old(self).keys());
        }
    }

    /// How many server-and-database pairs are known.
    pub fn len(&self) -> (r: usize)
        requires
            self.wf(),
        ensures
            r == self.known().dom().len(),
    {
        proof {
            self.keys().unique_seq_to_set();
            assert(self.known().dom() =~= self.keys().to_set());
        }
        self.entries.len()
    }

    /// Whether nothing is known yet.
    pub fn is_empty(&self) -> (r: bool)
        requires
            self.wf(),
        ensures
            r == (self.known().dom().len() == 0),
    {
        self.len() == 0
    }

    /// Where this server and database stand in the cache, if anywhere.
    fn position(&self, server: &ServerId, database: &str) -> (r: Option<usize>)
        ensures
            match r {
                Some(i) => i < self.keys().len() && self.keys()[i as int] == key_of(*server, database@),
                None => !self.keys().contains(key_of(*server, database@)),
            },
    {
        let mut i: usize = 0;
        while i < self.entries.len()
            invariant
                i <= self.entries@.len(),
                forall|j: int| 0 <= j < i ==> self.keys()[j] != key_of(*server, database@),
            decreases self.entries@.len() - i,
        {
            let e = &self.entries[i];
            if e.0.port == server.port && str_eq(e.0.host.as_str(), server.host.as_str())
                && str_eq(e.1.as_str(), database)
            {
                return Some(i);
            }
            i = i + 1;
        }
        None
    }

    /// What a client of this database should be told, if it is known.
    pub fn get(&self, server: &ServerId, database: &str) -> (r: Option<Vec<(String, String)>>)
        requires
            self.wf(),
        ensures
            match r {
                Some(v) => self.known().contains_key(key_of(*server, database@))
                    && params_view(v@) == self.known()[key_of(*server, database@)],
                None => !self.known().contains_key(key_of(*server, database@)),
            },
    {
        let i = match self.position(server, database) {
            Some(i) => i,
            None => return None,
        };
        let ghost k = key_of(*server, database@);
        let stored = &self.entries[i].2;
        let mut copy: Vec<(String, String)> = Vec::new();
        let mut j: usize = 0;
        while j < stored.len()
            invariant
                j <= stored@.len(),
                params_view(copy@) == params_view(stored@).subrange(0, j as int),
            decreases stored@.len() - j,
        {
            let name = stored[j].0.clone();
            let value = stored[j].1.clone();
            let ghost before = copy@;
            copy.push((name, value));
            j = j + 1;
            proof {
                assert(copy@ =~= before.push((name, value)));
                assert(params_view(copy@) =~= params_view(before).push((name@, value@)));
                assert(params_view(copy@) =~= params_view(stored@).subrange(0, j as int));
            }
        }
        proof {
            assert(params_view(stored@).subrange(0, stored@.len() as int) =~= params_view(stored@));
            let w = choose|w: int| 0 <= w < self.keys().len() && self.keys()[w] == k;
            assert(self.keys()[i as int] == k);
            assert(w == i);
        }
        Some(copy)
    }

    /// Records what a server said, from any connection, keeping what is
    /// passed on to clients and replacing what was known of it.
    pub fn record(&mut self, server: &ServerId, database: &str, parameters: &[(String, String)])
        requires
            old(self).wf(),
        ensures
            final(self).wf(),
            final(self).known() == old(self).known().insert(
                key_of(*server, database@),
                passed_on(params_view(parameters@)),
            ),
            final(self).spec_probes() == old(self).spec_probes(),
    {
        let mut kept: Vec<(String, String)> = Vec::new();
        let mut j: usize = 0;
        proof {
            assert(params_view(parameters@).subrange(0, 0) =~= Seq::<(Seq<char>, Seq<char>)>::empty());
        }
        while j < parameters.len()
            invariant
                j <= parameters@.len(),
                params_view(kept@) == passed_on(params_view(parameters@).subrange(0, j as int)),
            decreases parameters@.len() - j,
        {
            let ghost before = params_view(parameters@).subrange(0, j as int);
            let ghost after = params_view(parameters@).subrange(0, j + 1);
            proof {
                assert(after.drop_last() =~= before);
                assert(after.last() == (parameters@[j as int].0@, parameters@[j as int].1@));
            }
            if !str_eq(parameters[j].0.as_str(), NOT_THE_CLIENTS) {
                let name = parameters[j].0.clone();
                let value = parameters[j].1.clone();
                kept.push((name, value));
                proof {
                    assert(params_view(kept@) =~= passed_on(before).push(after.last()));
                }
            }
            j = j + 1;
        }
        proof {
            assert(params_view(parameters@).subrange(0, parameters@.len() as int) =~= params_view(parameters@));
        }
        let ghost k = key_of(*server, database@);
        let ghost v = passed_on(params_view(parameters@));
        let ghost old_keys = self.keys();
        let ghost old_known = self.known();
        match self.position(server, database) {
            Some(i) => {
                let owned_server = ServerId { host: server.host.clone(), port: server.port };
                self.entries.set(i, (owned_server, database.to_owned(), kept));
                proof {
                    assert(self.keys() =~= old_keys);
                    assert forall|x: CacheKey| #[trigger] self.known().contains_key(x) implies
                        self.known()[x] == old_known.insert(k, v)[x] by {
                        let w = choose|w: int| 0 <= w < self.keys().len() && self.keys()[w] == x;
                        if x == k {
                            assert(w == i);
                        } else {
                            assert(w != i);
                        }
                    }
                    assert(self.known() =~= old_known.insert(k, v));
                }
            },
            None => {
                let owned_server = ServerId { host: server.host.clone(), port: server.port };
                self.entries.push((owned_server, database.to_owned(), kept));
                proof {
                    assert(self.keys() =~= old_keys.push(k));
                    assert forall|x: CacheKey| #[trigger] self.known().contains_key(x) implies
                        self.known()[x] == old_known.insert(k, v)[x] by {
                        let w = choose|w: int| 0 <= w < self.keys().len() && self.keys()[w] == x;
                        if x == k {
                            assert(w == old_keys.len());
                        } else {
                            let w0 = choose|w0: int| 0 <= w0 < old_keys.len() && old_keys[w0] == x;
                            assert(self.keys()[w0] == x);
                            assert(w == w0);
                        }
                    }
                    assert forall|x: CacheKey| #[trigger] self.keys().contains(x) <==> (old_keys.contains(x) || x == k) by {
                        if old_keys.contains(x) {
                            let w0 = choose|w0: int| 0 <= w0 < old_keys.len() && old_keys[w0] == x;
                            assert(self.keys()[w0] == x);
                        }
                        if x == k {
                            assert(self.keys()[old_keys.len() as int] == x);
                        }
                    }
                    assert(self.known().dom() =~= old_known.insert(k, v).dom());
                    assert(self.known() =~= old_known.insert(k, v));
                }
            },
        }
    }
}

impl Default for ParameterCache {
    fn default() -> (r: ParameterCache)
        ensures
            r.wf(),
            r.known() == Map::<CacheKey, Seq<(Seq<char>, Seq<char>)>>::empty(),
            r.spec_probes() == 0,
    {
        ParameterCache::new()
    }
}

// ---------------------------------------------------------------------------
// Rows
// ---------------------------------------------------------------------------

/// The signed reading of a 16-bit big-endian value.
pub open spec fn as_i16(v: int) -> int {
    if v >= 0x8000 {
        v - 0x1_0000
    } else {
        v
    }
}

/// The `n` fields of a `DataRow` body from position `at`: each a 32-bit
/// length, negative for a SQL NULL, and otherwise that many bytes of UTF-8.
pub open spec fn row_fields(b: Seq<u8>, at: int, n: nat) -> Option<Seq<Option<Seq<u8>>>>
    decreases n,
{
    if n == 0 {
        Some(Seq::empty())
    } else if at < 0 || at + 4 > b.len() {
        None
    } else if as_i32(be32(b, at)) < 0 {
        match row_fields(b, at + 4, (n - 1) as nat) {
            Some(rest) => Some(seq![None] + rest),
            None => None,
        }
    } else if at + 4 + be32(b, at) > b.len() || !vstd::utf8::valid_utf8(b.subrange(at + 4, at + 4 + be32(b, at))) {
        None
    } else {
        match row_fields(b, at + 4 + be32(b, at), (n - 1) as nat) {
            Some(rest) => Some(seq![Some(b.subrange(at + 4, at + 4 + be32(b, at)))] + rest),
            None => None,
        }
    }
}

/// The text fields of a `DataRow` body, a SQL NULL as `None`: a 16-bit count,
/// none when negative, then the fields.
pub open spec fn spec_text_row(b: Seq<u8>) -> Option<Seq<Option<Seq<u8>>>> {
    if b.len() < 2 {
        None
    } else {
        row_fields(b, 2, if as_i16(be16(b, 0)) < 0 {
            0nat
        } else {
            as_i16(be16(b, 0)) as nat
        })
    }
}

/// The bytes of each field of a row.
pub open spec fn row_bytes(row: Seq<Option<String>>) -> Seq<Option<Seq<u8>>> {
    row.map_values(|f: Option<String>| match f {
        Some(s) => Some(vstd::utf8::encode_utf8(s@)),
        None => None,
    })
}

/// Splits a `DataRow` body into its text fields.
///
/// A SQL NULL is `None`, which the wire encodes as a negative length rather
/// than as an empty value: a NULL replay position is not LSN zero.
pub fn text_row(body: &[u8]) -> (r: Option<Vec<Option<String>>>)
    ensures
        match spec_text_row(body@) {
            Some(fields) => r matches Some(v) && row_bytes(v@) == fields,
            None => r is None,
        },
{
    let n = body.len();
    if n < 2 {
        return None;
    }
    let raw = read_be16(body, 0);
    let count: u16 = if raw >= 0x8000 {
        0
    } else {
        raw
    };
    let mut at: usize = 2;
    let mut left: u16 = count;
    let mut fields: Vec<Option<String>> = Vec::new();
    proof {
        assert(row_bytes(fields@) =~= Seq::<Option<Seq<u8>>>::empty());
        assert(seq![] + row_fields(body@, 2, count as nat)->0 =~= row_fields(body@, 2, count as nat)->0);
    }
    while left > 0
        invariant
            2 <= at <= n,
            n == body@.len(),
            spec_text_row(body@) == match row_fields(body@, at as int, left as nat) {
                Some(rest) => Some(row_bytes(fields@) + rest),
                None => None::<Seq<Option<Seq<u8>>>>,
            },
        decreases left,
    {
        if n - at < 4 {
            return None;
        }
        let len = read_be32(body, at);
        let ghost before = row_bytes(fields@);
        if len >= 0x8000_0000 {
            fields.push(None);
            at = at + 4;
            proof {
                assert(row_bytes(fields@) =~= before.push(None));
                match row_fields(body@, at as int, (left - 1) as nat) {
                    Some(rest) => {
                        assert(before + (seq![None] + rest) =~= before.push(None) + rest);
                    },
                    None => {},
                }
            }
        } else {
            if (len as usize) > n - at - 4 {
                return None;
            }
            let value = vstd::slice::slice_subrange(body, at + 4, at + 4 + len as usize);
            let text = match str_from_utf8(value) {
                Some(t) => t,
                None => return None,
            };
            fields.push(Some(text.to_owned()));
            proof {
                assert(row_bytes(fields@) =~= before.push(Some(value@)));
                match row_fields(body@, at + 4 + len, (left - 1) as nat) {
                    Some(rest) => {
                        assert(before + (seq![Some(value@)] + rest) =~= before.push(Some(value@)) + rest);
                    },
                    None => {},
                }
            }
            at = at + 4 + len as usize;
        }
        left = left - 1;
    }
    proof {
        assert(row_bytes(fields@) + Seq::<Option<Seq<u8>>>::empty() =~= row_bytes(fields@));
    }
    Some(fields)
}

// ---------------------------------------------------------------------------
// Positions in the write-ahead log
// ---------------------------------------------------------------------------

/// The value of an ASCII hexadecimal digit.
pub open spec fn hex_value(c: u8) -> Option<nat> {
    if 0x30 <= c <= 0x39 {
        Some((c - 0x30) as nat)
    } else if 0x41 <= c <= 0x46 {
        Some((c - 0x41 + 10) as nat)
    } else if 0x61 <= c <= 0x66 {
        Some((c - 0x61 + 10) as nat)
    } else {
        None
    }
}

/// The value of a run of hexadecimal digits.
pub open spec fn hex_number(s: Seq<u8>) -> Option<nat>
    decreases s.len(),
{
    if s.len() == 0 {
        Some(0)
    } else {
        match (hex_number(s.drop_last()), hex_value(s.last())) {
            (Some(hi), Some(d)) => Some(hi * 16 + d),
            _ => None,
        }
    }
}

/// The position a text LSN names: two runs of one to eight hexadecimal digits
/// separated by a slash, the high 32 bits first.
pub open spec fn spec_parse_lsn(s: Seq<u8>) -> Option<Lsn> {
    match crate::text::find_byte(s, 0x2f, 0) {
        None => None,
        Some(k) => {
            let hi = s.subrange(0, k);
            let lo = s.subrange(k + 1, s.len() as int);
            if hi.len() < 1 || hi.len() > 8 || lo.len() < 1 || lo.len() > 8 {
                None
            } else {
                match (hex_number(hi), hex_number(lo)) {
                    (Some(h), Some(l)) => if h < 0x1_0000_0000 && l < 0x1_0000_0000 {
                        Some(Lsn((h * 0x1_0000_0000 + l) as u64))
                    } else {
                        None
                    },
                    _ => None,
                }
            }
        },
    }
}

proof fn lemma_hex_bound(s: Seq<u8>)
    ensures
        hex_number(s) matches Some(v) ==> v < pow16(s.len()),
    decreases s.len(),
{
    if s.len() > 0 {
        lemma_hex_bound(s.drop_last());
        assert(pow16(s.len()) == pow16(s.drop_last().len()) * 16);
    }
}

/// Sixteen to the power `n`.
pub open spec fn pow16(n: nat) -> nat
    decreases n,
{
    if n == 0 {
        1
    } else {
        pow16((n - 1) as nat) * 16
    }
}

fn hex_digits(s: &[u8], from: usize, to: usize) -> (r: Option<u64>)
    requires
        from <= to <= s@.len(),
        to - from <= 8,
    ensures
        match hex_number(s@.subrange(from as int, to as int)) {
            Some(v) => r == Some(v as u64),
            None => r is None,
        },
{
    let mut i = from;
    let mut v: u64 = 0;
    proof {
        assert(s@.subrange(from as int, from as int) =~= Seq::<u8>::empty());
    }
    while i < to
        invariant
            from <= i <= to <= s@.len(),
            to - from <= 8,
            hex_number(s@.subrange(from as int, i as int)) == Some(v as nat),
            v < pow16((i - from) as nat),
            pow16((i - from) as nat) <= 0x1_0000_0000,
        decreases to - i,
    {
        let c = s[i];
        let d: u64 = if 0x30 <= c && c <= 0x39 {
            (c - 0x30) as u64
        } else if 0x41 <= c && c <= 0x46 {
            (c - 0x41 + 10) as u64
        } else if 0x61 <= c && c <= 0x66 {
            (c - 0x61 + 10) as u64
        } else {
            proof {
                let t = s@.subrange(from as int, i + 1);
                assert(t.drop_last() =~= s@.subrange(from as int, i as int));
                lemma_hex_none_extends(s@, from as int, i as int + 1, to as int);
            }
            return None;
        };
        proof {
            let t = s@.subrange(from as int, i + 1);
            assert(t.drop_last() =~= s@.subrange(from as int, i as int));
            assert(t.last() == c);
            assert(pow16((i + 1 - from) as nat) == pow16((i - from) as nat) * 16);
            lemma_pow16_bound((i + 1 - from) as nat);
        }
        v = v * 16 + d;
        i = i + 1;
    }
    Some(v)
}

proof fn lemma_pow16_bound(n: nat)
    requires
        n <= 8,
    ensures
        pow16(n) <= 0x1_0000_0000,
    decreases n,
{
    reveal_with_fuel(pow16, 9);
}

proof fn lemma_hex_none_extends(s: Seq<u8>, from: int, i: int, to: int)
    requires
        0 <= from < i <= to <= s.len(),
        hex_number(s.subrange(from, i)) is None,
    ensures
        hex_number(s.subrange(from, to)) is None,
    decreases to - i,
{
    if i < to {
        let t = s.subrange(from, i + 1);
        assert(t.drop_last() =~= s.subrange(from, i));
        lemma_hex_none_extends(s, from, i + 1, to);
    }
}

/// The character for the hexadecimal digit `d`: `0` to `9`, then `A` to `F`
/// or `a` to `f`.
pub open spec fn hex_char(d: nat, upper: bool) -> u8 {
    if d < 10 {
        (0x30 + d) as u8
    } else if upper {
        (0x41 + (d - 10)) as u8
    } else {
        (0x61 + (d - 10)) as u8
    }
}

/// `n` in hexadecimal, with no leading zeros, as Postgres prints each half
/// of a position.
pub open spec fn hex_text(n: nat, upper: bool) -> Seq<u8>
    decreases n,
{
    if n < 16 {
        seq![hex_char(n, upper)]
    } else {
        hex_text(n / 16, upper).push(hex_char(n % 16, upper))
    }
}

/// A number written in hexadecimal reads back as itself, with at least one
/// digit and, below 2^32, at most eight.
pub proof fn lemma_hex_text(n: nat, upper: bool)
    ensures
        hex_number(hex_text(n, upper)) == Some(n),
        1 <= hex_text(n, upper).len(),
        forall|k: nat| n < pow16(k) && k >= 1 ==> #[trigger] hex_text(n, upper).len() <= k,
        n < 0x1_0000_0000 ==> hex_text(n, upper).len() <= 8,
        forall|i: int| 0 <= i < hex_text(n, upper).len() ==> #[trigger] hex_text(n, upper)[i] != 0x2f,
    decreases n,
{
    reveal_with_fuel(pow16, 9);
    assert(pow16(8) == 0x1_0000_0000);
    let t = hex_text(n, upper);
    if n < 16 {
        assert(t.drop_last() =~= Seq::<u8>::empty());
        assert(hex_number(t.drop_last()) == Some(0nat));
    } else {
        let q = n / 16;
        let d = n % 16;
        lemma_hex_text(q, upper);
        assert(t.drop_last() == hex_text(q, upper));
        assert(t.last() == hex_char(d, upper));
        assert(hex_value(hex_char(d, upper)) == Some(d));
        assert(q * 16 + d == n);
        assert forall|k: nat| n < pow16(k) && k >= 1 implies #[trigger] t.len() <= k by {
            let k1 = (k - 1) as nat;
            assert(pow16(k) == pow16(k1) * 16);
            assert(q < pow16(k1)) by (nonlinear_arith)
                requires
                    n < pow16(k1) * 16,
                    q == n / 16,
            ;
            if k1 == 0 {
                assert(pow16(0) == 1);
                assert(false) by (nonlinear_arith)
                    requires
                        n >= 16,
                        n < pow16(k1) * 16,
                        pow16(k1) == 1,
                ;
            }
        }
    }
}

/// `n` zero digits.
pub open spec fn zeros(n: nat) -> Seq<u8> {
    Seq::new(n, |i: int| 0x30u8)
}

proof fn lemma_leading_zeros(z: nat, t: Seq<u8>)
    ensures
        hex_number(zeros(z) + t) == hex_number(t),
    decreases t.len(), z,
{
    if t.len() == 0 {
        assert(zeros(z) + t =~= zeros(z));
        if z > 0 {
            assert(zeros(z).drop_last() =~= zeros((z - 1) as nat));
            assert(zeros(z).last() == 0x30u8);
            lemma_leading_zeros((z - 1) as nat, t);
            assert(zeros((z - 1) as nat) + t =~= zeros((z - 1) as nat));
        }
    } else {
        assert((zeros(z) + t).drop_last() =~= zeros(z) + t.drop_last());
        assert((zeros(z) + t).last() == t.last());
        lemma_leading_zeros(z, t.drop_last());
    }
}

/// A position as Postgres prints it, each half in hexadecimal in either
/// case, with or without leading zeros up to eight digits, reads back as the
/// position: the high half times 2^32 plus the low half.
pub proof fn law_a_printed_lsn_reads_back(
    hi: nat,
    lo: nat,
    hi_upper: bool,
    lo_upper: bool,
    hi_zeros: nat,
    lo_zeros: nat,
)
    requires
        hi < 0x1_0000_0000,
        lo < 0x1_0000_0000,
        hi_zeros + hex_text(hi, hi_upper).len() <= 8,
        lo_zeros + hex_text(lo, lo_upper).len() <= 8,
    ensures
        spec_parse_lsn(zeros(hi_zeros) + hex_text(hi, hi_upper) + seq![0x2fu8] + zeros(lo_zeros) + hex_text(
            lo,
            lo_upper,
        )) == Some(Lsn((hi * 0x1_0000_0000 + lo) as u64)),
{
    let h = zeros(hi_zeros) + hex_text(hi, hi_upper);
    let l = zeros(lo_zeros) + hex_text(lo, lo_upper);
    let s = h + seq![0x2fu8] + l;
    assert(s =~= zeros(hi_zeros) + hex_text(hi, hi_upper) + seq![0x2fu8] + zeros(lo_zeros) + hex_text(lo, lo_upper));
    lemma_hex_text(hi, hi_upper);
    lemma_hex_text(lo, lo_upper);
    lemma_leading_zeros(hi_zeros, hex_text(hi, hi_upper));
    lemma_leading_zeros(lo_zeros, hex_text(lo, lo_upper));
    crate::text::lemma_find_byte(s, 0x2f, 0);
    assert(s[h.len() as int] == 0x2f);
    assert forall|j: int| 0 <= j < h.len() implies s[j] != 0x2f by {
        assert(s[j] == h[j]);
        if j >= hi_zeros {
            assert(h[j] == hex_text(hi, hi_upper)[j - hi_zeros]);
        }
    }
    assert(crate::text::find_byte(s, 0x2f, 0) == Some(h.len() as int));
    assert(s.subrange(0, h.len() as int) =~= h);
    assert(s.subrange(h.len() as int + 1, s.len() as int) =~= l);
}

/// Reads a text LSN, as `pg_last_wal_replay_lsn()` prints one.
pub fn parse_lsn(text: &str) -> (r: Option<Lsn>)
    ensures
        r == spec_parse_lsn(text.spec_bytes()),
{
    let s = text.as_bytes();
    let n = s.len();
    proof {
        crate::text::lemma_find_byte(s@, 0x2f, 0);
    }
    let k = match crate::text::exec_find_byte(s, 0x2f, 0) {
        Some(k) => k,
        None => return None,
    };
    if k < 1 || k > 8 || n - k - 1 < 1 || n - k - 1 > 8 {
        return None;
    }
    let hi = match hex_digits(s, 0, k) {
        Some(h) => h,
        None => return None,
    };
    let lo = match hex_digits(s, k + 1, n) {
        Some(l) => l,
        None => return None,
    };
    proof {
        lemma_hex_bound(s@.subrange(0, k as int));
        lemma_hex_bound(s@.subrange(k + 1, n as int));
        lemma_pow16_bound(k as nat);
        lemma_pow16_bound((n - k - 1) as nat);
    }
    assert(hi < 0x1_0000_0000 && lo < 0x1_0000_0000);
    Some(Lsn(hi * 0x1_0000_0000 + lo))
}

// ---------------------------------------------------------------------------
// Reading an answer
// ---------------------------------------------------------------------------

/// What reading one more frame of an answer concluded.
#[derive(Debug, PartialEq, Eq)]
pub enum Reading {
    /// Read another frame.
    Continue,
    /// The answer is complete.
    Finished,
    /// The question failed, for this reason.
    Failed(String),
}

/// The rows of an answer as they arrive, keeping the last one.
pub struct AnswerReader {
    row: Option<Vec<Option<String>>>,
}

/// The reason a replica's `ErrorResponse` gives: its message and code when
/// it decodes.
pub open spec fn refusal_text(body: Seq<u8>) -> Seq<char> {
    match spec_decoded(Tag(Tag::ERROR_RESPONSE), body) {
        Decoded::Error(message, code) => text_of(message) + " ("@ + text_of(code) + ")"@,
        _ => "the replica refused the query"@,
    }
}

/// What reading one more frame concluded, as values.
pub enum ReadingModel {
    /// Read another frame.
    Continue,
    /// The answer is complete.
    Finished,
    /// The question failed, for this reason.
    Failed(Seq<char>),
}

/// A [`Reading`] as values.
pub open spec fn reading_model(r: Reading) -> ReadingModel {
    match r {
        Reading::Continue => ReadingModel::Continue,
        Reading::Finished => ReadingModel::Finished,
        Reading::Failed(why) => ReadingModel::Failed(why@),
    }
}

/// One frame of a replica's answer: the row kept after it and what it
/// concluded. A readable `DataRow` is kept and an unreadable one fails; an
/// `ErrorResponse` fails with the replica's words; `ReadyForQuery` ends the
/// answer; anything else is read past.
pub open spec fn replica_step(row: Option<Seq<Option<Seq<u8>>>>, tag: Tag, body: Seq<u8>) -> (
    Option<Seq<Option<Seq<u8>>>>,
    ReadingModel,
) {
    if tag.0 == Tag::DATA_ROW {
        match spec_text_row(body) {
            Some(fields) => (Some(fields), ReadingModel::Continue),
            None => (row, ReadingModel::Failed("the replica sent an unreadable row"@)),
        }
    } else if tag.0 == Tag::ERROR_RESPONSE {
        (row, ReadingModel::Failed(refusal_text(body)))
    } else if tag.0 == Tag::READY_FOR_QUERY {
        (row, ReadingModel::Finished)
    } else {
        (row, ReadingModel::Continue)
    }
}

/// What a finished answer to [`REPLICA_QUERY`] says, from the last row read.
///
/// No row is an error. A NULL or missing replay position is LSN zero, and an
/// unparseable one is an error naming it; the server is still a replica when
/// the second column is `t`.
pub open spec fn spec_replica_probe(row: Option<Seq<Option<Seq<u8>>>>) -> Result<Probe, Seq<char>> {
    match row {
        None => Err("the replica answered with no rows"@),
        Some(row) => {
            let replayed = if row.len() > 0 {
                match row[0] {
                    None => Some(Lsn(0)),
                    Some(t) => spec_parse_lsn(t),
                }
            } else {
                Some(Lsn(0))
            };
            let in_recovery = row.len() > 1 && row[1] == Some(seq![0x74u8]);
            match replayed {
                Some(lsn) => Ok(Probe { replayed: lsn, in_recovery }),
                None => Err("the replica reported an unparseable LSN: "@ + text_of(row[0]->0)),
            }
        },
    }
}

/// What a replica's answer to [`REPLICA_QUERY`] gives, read frame by frame
/// from the row kept so far until it finishes or fails; `None` while it is
/// still being read.
pub open spec fn replica_answer(row: Option<Seq<Option<Seq<u8>>>>, frames: Seq<(Tag, Seq<u8>)>) -> Option<
    Result<Probe, Seq<char>>,
>
    decreases frames.len(),
{
    if frames.len() == 0 {
        None
    } else {
        let (next, reading) = replica_step(row, frames[0].0, frames[0].1);
        match reading {
            ReadingModel::Continue => replica_answer(next, frames.drop_first()),
            ReadingModel::Finished => Some(spec_replica_probe(next)),
            ReadingModel::Failed(why) => Some(Err(why)),
        }
    }
}

/// Whether a frame is read past or kept without ending the answer: neither
/// `ReadyForQuery`, nor an `ErrorResponse`, nor an unreadable `DataRow`.
pub open spec fn read_past(frame: (Tag, Seq<u8>)) -> bool {
    frame.0.0 != Tag::READY_FOR_QUERY && frame.0.0 != Tag::ERROR_RESPONSE && !(frame.0.0 == Tag::DATA_ROW
        && spec_text_row(frame.1) is None)
}

/// The last readable row among frames, or `row` if there is none.
pub open spec fn last_row(row: Option<Seq<Option<Seq<u8>>>>, frames: Seq<(Tag, Seq<u8>)>) -> Option<
    Seq<Option<Seq<u8>>>,
>
    decreases frames.len(),
{
    if frames.len() == 0 {
        row
    } else {
        last_row(
            if frames[0].0.0 == Tag::DATA_ROW && spec_text_row(frames[0].1) is Some {
                spec_text_row(frames[0].1)
            } else {
                row
            },
            frames.drop_first(),
        )
    }
}

proof fn lemma_read_past(row: Option<Seq<Option<Seq<u8>>>>, frames: Seq<(Tag, Seq<u8>)>, tail: Seq<(Tag, Seq<u8>)>)
    requires
        forall|i: int| 0 <= i < frames.len() ==> read_past(#[trigger] frames[i]),
    ensures
        replica_answer(row, frames + tail) == replica_answer(last_row(row, frames), tail),
    decreases frames.len(),
{
    if frames.len() > 0 {
        assert(read_past(frames[0]));
        let (next, reading) = replica_step(row, frames[0].0, frames[0].1);
        assert((frames + tail)[0] == frames[0]);
        assert((frames + tail).drop_first() =~= frames.drop_first() + tail);
        assert forall|i: int| 0 <= i < frames.drop_first().len() implies read_past(#[trigger] frames.drop_first()[i]) by {
            assert(frames.drop_first()[i] == frames[i + 1]);
        }
        lemma_read_past(next, frames.drop_first(), tail);
    } else {
        assert(frames + tail =~= tail);
    }
}

/// A whole answer, whatever comes before its end: frames read past keep the
/// last readable row; then `ReadyForQuery` gives what that row says, an
/// `ErrorResponse` fails with the replica's words, and an unreadable
/// `DataRow` fails as such. Nothing after the end is read, and an answer
/// with no end is still being read.
pub proof fn law_a_whole_replica_answer(
    rows: Seq<(Tag, Seq<u8>)>,
    end: (Tag, Seq<u8>),
    after: Seq<(Tag, Seq<u8>)>,
)
    requires
        forall|i: int| 0 <= i < rows.len() ==> read_past(#[trigger] rows[i]),
    ensures
        replica_answer(None, rows) is None,
        end.0.0 == Tag::READY_FOR_QUERY ==> replica_answer(None, rows + seq![end] + after) == Some(
            spec_replica_probe(last_row(None, rows)),
        ),
        end.0.0 == Tag::ERROR_RESPONSE ==> replica_answer(None, rows + seq![end] + after) == Some(
            Err::<Probe, Seq<char>>(refusal_text(end.1)),
        ),
        end.0.0 == Tag::DATA_ROW && spec_text_row(end.1) is None ==> replica_answer(None, rows + seq![end] + after)
            == Some(Err::<Probe, Seq<char>>("the replica sent an unreadable row"@)),
{
    lemma_read_past(None, rows, Seq::empty());
    assert(rows + Seq::<(Tag, Seq<u8>)>::empty() =~= rows);
    let tail = seq![end] + after;
    lemma_read_past(None, rows, tail);
    assert(rows + seq![end] + after =~= rows + tail);
    assert(tail[0] == end);
}

impl AnswerReader {
    /// The last row read, as bytes.
    pub closed spec fn spec_row(&self) -> Option<Seq<Option<Seq<u8>>>> {
        match self.row {
            Some(v) => Some(row_bytes(v@)),
            None => None,
        }
    }

    /// Nothing read yet.
    pub fn new() -> (r: AnswerReader)
        ensures
            r.spec_row() is None,
    {
        AnswerReader { row: None }
    }

    /// Feeds in one frame of a replica's answer to [`REPLICA_QUERY`].
    ///
    /// A `DataRow` is kept; an `ErrorResponse` fails with the replica's words
    /// where they decode; `ReadyForQuery` ends the answer. Anything else is
    /// read past.
    pub fn on_replica_frame(&mut self, tag: Tag, body: &[u8]) -> (r: Reading)
        ensures
            (final(self).spec_row(), reading_model(r)) == replica_step(old(self).spec_row(), tag, body@),
    {
        if tag.0 == Tag::DATA_ROW {
            match text_row(body) {
                Some(fields) => {
                    self.row = Some(fields);
                    Reading::Continue
                },
                None => {
                    let why = String::from_str("the replica sent an unreadable row");
                    Reading::Failed(why)
                },
            }
        } else if tag.0 == Tag::ERROR_RESPONSE {
            let why = match decode(tag, body) {
                Some(BackendMessage::ErrorResponse { message, code }) => {
                    let mut why = String::from_str(message);
                    why.append(" (");
                    why.append(code);
                    why.append(")");
                    proof {
                        lemma_text_of(message);
                        lemma_text_of(code);
                        reveal_strlit(" (");
                        reveal_strlit(")");
                    }
                    why
                },
                _ => String::from_str("the replica refused the query"),
            };
            Reading::Failed(why)
        } else if tag.0 == Tag::READY_FOR_QUERY {
            Reading::Finished
        } else {
            Reading::Continue
        }
    }

    /// Feeds in one frame of the primary's answer to [`PRIMARY_LSN_QUERY`].
    pub fn on_primary_frame(&mut self, tag: Tag, body: &[u8]) -> (r: Reading)
        ensures
            tag.0 == Tag::DATA_ROW ==> match spec_text_row(body@) {
                Some(fields) => r == Reading::Continue && final(self).spec_row() == Some(fields),
                None => r matches Reading::Failed(why) && why@ == "the primary sent an unreadable row"@,
            },
            tag.0 == Tag::ERROR_RESPONSE ==> (r matches Reading::Failed(why) && why@ == "the primary refused the position query"@),
            tag.0 == Tag::READY_FOR_QUERY ==> r == Reading::Finished && final(self).spec_row() == old(self).spec_row(),
            !(tag.0 == Tag::DATA_ROW || tag.0 == Tag::ERROR_RESPONSE || tag.0 == Tag::READY_FOR_QUERY)
                ==> r == Reading::Continue && final(self).spec_row() == old(self).spec_row(),
    {
        if tag.0 == Tag::DATA_ROW {
            match text_row(body) {
                Some(fields) => {
                    self.row = Some(fields);
                    Reading::Continue
                },
                None => Reading::Failed(String::from_str("the primary sent an unreadable row")),
            }
        } else if tag.0 == Tag::ERROR_RESPONSE {
            Reading::Failed(String::from_str("the primary refused the position query"))
        } else if tag.0 == Tag::READY_FOR_QUERY {
            Reading::Finished
        } else {
            Reading::Continue
        }
    }

    /// What a finished answer to [`REPLICA_QUERY`] says.
    ///
    /// A NULL replay position is LSN zero, which a server not replaying
    /// answers: whether it is still a replica decides whether it serves, and
    /// that is the second column, `t` for true.
    pub fn replica_probe(&self) -> (r: Result<Probe, String>)
        ensures
            match spec_replica_probe(self.spec_row()) {
                Ok(probe) => r == Ok::<Probe, String>(probe),
                Err(reason) => r matches Err(why) && why@ == reason,
            },
    {
        let row = match &self.row {
            Some(r) => r,
            None => return Err(String::from_str("the replica answered with no rows")),
        };
        let ghost bytes = row_bytes(row@);
        let replayed = if row.len() > 0 {
            match &row[0] {
                None => Lsn(0),
                Some(text) => {
                    proof {
                        assert(bytes[0] == Some(vstd::utf8::encode_utf8(text@)));
                    }
                    match parse_lsn(text.as_str()) {
                        Some(lsn) => lsn,
                        None => {
                            let mut why = String::from_str("the replica reported an unparseable LSN: ");
                            why.append(text.as_str());
                            proof {
                                reveal_strlit("the replica reported an unparseable LSN: ");
                                vstd::utf8::encode_utf8_decode_utf8(text@);
                            }
                            return Err(why);
                        },
                    }
                },
            }
        } else {
            Lsn(0)
        };
        let in_recovery = if row.len() > 1 {
            match &row[1] {
                Some(text) => {
                    proof {
                        assert(bytes[1] == Some(vstd::utf8::encode_utf8(text@)));
                        reveal_strlit("t");
                        vstd::utf8::encode_utf8_decode_utf8(text@);
                        vstd::utf8::encode_utf8_decode_utf8("t"@);
                        vstd::string::is_ascii_spec_bytes("t");
                        assert(vstd::string::is_ascii("t"));
                        assert("t".spec_bytes() =~= seq![0x74u8]);
                    }
                    str_eq(text.as_str(), "t")
                },
                None => false,
            }
        } else {
            false
        };
        Ok(Probe { replayed, in_recovery })
    }

    /// What a finished answer to [`PRIMARY_LSN_QUERY`] says. A NULL position,
    /// which a server not writing WAL answers, is unknown rather than zero: a
    /// floor of zero would admit every replica.
    pub fn primary_lsn(&self) -> (r: Result<Lsn, String>)
        ensures
            match self.spec_row() {
                Some(row) if row.len() > 0 && row[0] is Some => match spec_parse_lsn(row[0]->0) {
                    Some(lsn) => r == Ok::<Lsn, String>(lsn),
                    None => r matches Err(why) && why@ == "the primary reported an unparseable LSN: "@
                        + text_of(row[0]->0),
                },
                _ => r matches Err(why) && why@ == "the primary reported no position"@,
            },
    {
        let text = match &self.row {
            Some(row) if row.len() > 0 => match &row[0] {
                Some(t) => t,
                None => return Err(String::from_str("the primary reported no position")),
            },
            _ => return Err(String::from_str("the primary reported no position")),
        };
        proof {
            let row = self.row->0;
            assert(row_bytes(row@)[0] == Some(vstd::utf8::encode_utf8(text@)));
        }
        match parse_lsn(text.as_str()) {
            Some(lsn) => Ok(lsn),
            None => {
                let mut why = String::from_str("the primary reported an unparseable LSN: ");
                why.append(text.as_str());
                proof {
                    reveal_strlit("the primary reported an unparseable LSN: ");
                    vstd::utf8::encode_utf8_decode_utf8(text@);
                }
                Err(why)
            },
        }
    }
}

} // verus!
