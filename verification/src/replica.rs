//! How far each replica has replayed, and how far each session needs it to.
//!
//! A session that has written records an LSN floor, and a replica may serve
//! that session only once it has replayed at least that far. A poller writes
//! what each replica reports here; the router reads it with no I/O of its own.
//!
//! A poll result is out of date the moment it is taken, so a replica not heard
//! from recently is treated as ineligible rather than as last seen.
//!
//! Times are readings of a monotonic clock in nanoseconds, supplied by the
//! caller, which owns the clock.
use vstd::prelude::*;

use crate::route::{Lsn, ReplicaState};

verus! {

/// How stale a poll result may be before its replica stops being eligible.
#[derive(Clone, Copy, Debug, PartialEq, Eq, Structural)]
pub struct ReplicaConfig {
    /// How long a poll result stays usable, in nanoseconds.
    ///
    /// Should be a small multiple of the poll interval, so a single missed poll
    /// does not take a replica out of service but a stopped poller does.
    pub freshness: u64,
}

/// One second: four times the 250ms poll interval, so three consecutive
/// missed polls set a replica aside.
pub const DEFAULT_FRESHNESS: u64 = 1_000_000_000;

impl Default for ReplicaConfig {
    fn default() -> (r: ReplicaConfig)
        ensures
            r.freshness == DEFAULT_FRESHNESS,
    {
        ReplicaConfig { freshness: DEFAULT_FRESHNESS }
    }
}

/// The last thing a poller learned about one replica.
#[derive(Clone, Copy, Debug, PartialEq, Eq, Structural)]
pub struct Observation {
    /// How far it had replayed.
    pub replayed: Lsn,
    /// Whether it answered and is still in recovery. A promoted replica is a
    /// second primary, and sending reads to it is how a split brain starts.
    pub in_recovery: bool,
    /// When the answer arrived.
    pub at: u64,
}

/// What a replica reported about itself.
#[derive(Clone, Copy, Debug, PartialEq, Eq, Structural)]
pub struct Probe {
    /// How far it has replayed, from `pg_last_wal_replay_lsn()`.
    pub replayed: Lsn,
    /// Whether it is still a replica, from `pg_is_in_recovery()`.
    pub in_recovery: bool,
}

/// The state a replica with this last observation is in at `now`: healthy,
/// at the position it reported, only if it was polled, is still in recovery,
/// and was heard from no more than `freshness` before `now`. A reading stamped
/// after `now` is fresh. Anything else is unhealthy at LSN zero.
pub open spec fn observed_state(o: Option<Observation>, freshness: u64, now: u64) -> ReplicaState {
    match o {
        Some(obs) => if obs.in_recovery && (now <= obs.at || now - obs.at <= freshness) {
            ReplicaState { replayed: obs.replayed, healthy: true }
        } else {
            ReplicaState { replayed: Lsn(0), healthy: false }
        },
        None => ReplicaState { replayed: Lsn(0), healthy: false },
    }
}

/// What every replica has replayed, as the poller last saw it.
///
/// Positions are fixed: index `n` here is index `n` in the grant's replica
/// list, which is what [`crate::route::RouteTarget::Replica`] names. A replica
/// never polled occupies its slot as unhealthy rather than being absent.
#[derive(Clone, Debug)]
pub struct Replicas {
    config: ReplicaConfig,
    observations: Vec<Option<Observation>>,
}

impl View for Replicas {
    type V = Seq<Option<Observation>>;

    closed spec fn view(&self) -> Seq<Option<Observation>> {
        self.observations@
    }
}

impl Replicas {
    /// The configuration the tracker was made with.
    pub closed spec fn spec_config(&self) -> ReplicaConfig {
        self.config
    }

    /// The state of replica `index` at `now`; unhealthy past the end.
    pub open spec fn spec_state(&self, index: int, now: u64) -> ReplicaState {
        if 0 <= index < self@.len() {
            observed_state(self@[index], self.spec_config().freshness, now)
        } else {
            ReplicaState { replayed: Lsn(0), healthy: false }
        }
    }

    /// The state of every replica at `now`, in position order.
    pub open spec fn spec_states(&self, now: u64) -> Seq<ReplicaState> {
        Seq::new(self@.len(), |i: int| self.spec_state(i, now))
    }

    /// Tracking for `count` replicas, none of them yet polled.
    pub fn new(count: usize, config: ReplicaConfig) -> (r: Replicas)
        ensures
            r@ == Seq::new(count as nat, |i: int| None::<Observation>),
            r.spec_config() == config,
    {
        let mut observations: Vec<Option<Observation>> = Vec::new();
        let mut i: usize = 0;
        while i < count
            invariant
                i <= count,
                observations@ == Seq::new(i as nat, |k: int| None::<Observation>),
            decreases count - i,
        {
            observations.push(None);
            i = i + 1;
            assert(observations@ =~= Seq::new(i as nat, |k: int| None::<Observation>));
        }
        Replicas { config, observations }
    }

    /// How many replicas are tracked.
    pub fn len(&self) -> (r: usize)
        ensures
            r == self@.len(),
    {
        self.observations.len()
    }

    /// Whether there are no replicas at all.
    pub fn is_empty(&self) -> (r: bool)
        ensures
            r == (self@.len() == 0),
    {
        self.observations.len() == 0
    }

    /// Records a poll result.
    ///
    /// An out-of-range index is ignored rather than panicking: the replica
    /// list comes from a grant and can change under a poller mid-flight.
    pub fn observe(&mut self, index: usize, replayed: Lsn, in_recovery: bool, at: u64)
        ensures
            final(self).spec_config() == old(self).spec_config(),
            final(self)@ == if index < old(self)@.len() {
                old(self)@.update(
                    index as int,
                    Some(Observation { replayed, in_recovery, at }),
                )
            } else {
                old(self)@
            },
    {
        if index < self.observations.len() {
            self.observations.set(index, Some(Observation { replayed, in_recovery, at }));
        }
    }

    /// Records that a replica did not answer.
    ///
    /// Clears the reading rather than keeping the old one: a replica that has
    /// stopped answering has an unknown position.
    pub fn observe_failure(&mut self, index: usize)
        ensures
            final(self).spec_config() == old(self).spec_config(),
            final(self)@ == if index < old(self)@.len() {
                old(self)@.update(index as int, None)
            } else {
                old(self)@
            },
    {
        if index < self.observations.len() {
            self.observations.set(index, None);
        }
    }

    /// Records one probe's outcome: its answer, or the failure to get one.
    pub fn record_probe(&mut self, index: usize, result: &Result<Probe, String>, at: u64)
        ensures
            final(self).spec_config() == old(self).spec_config(),
            final(self)@ == if index < old(self)@.len() {
                match result {
                    Ok(p) => old(self)@.update(
                        index as int,
                        Some(Observation { replayed: p.replayed, in_recovery: p.in_recovery, at }),
                    ),
                    Err(_) => old(self)@.update(index as int, None),
                }
            } else {
                old(self)@
            },
    {
        match result {
            Ok(probe) => self.observe(index, probe.replayed, probe.in_recovery, at),
            Err(_) => self.observe_failure(index),
        }
    }

    /// The state of one replica.
    pub fn state(&self, index: usize, now: u64) -> (r: ReplicaState)
        ensures
            r == self.spec_state(index as int, now),
    {
        let unhealthy = ReplicaState { replayed: Lsn(0), healthy: false };
        if index >= self.observations.len() {
            return unhealthy;
        }
        match self.observations[index] {
            None => unhealthy,
            Some(obs) => {
                if !obs.in_recovery {
                    return unhealthy;
                }
                let age = if now > obs.at {
                    now - obs.at
                } else {
                    0
                };
                if age > self.config.freshness {
                    return unhealthy;
                }
                ReplicaState { replayed: obs.replayed, healthy: true }
            },
        }
    }

    /// Writes the state of every replica into `out`, replacing its contents.
    ///
    /// The allocation-free form, for a router that keeps one buffer.
    pub fn fill_states(&self, out: &mut Vec<ReplicaState>, now: u64)
        ensures
            final(out)@ == self.spec_states(now),
    {
        out.clear();
        let mut i: usize = 0;
        while i < self.observations.len()
            invariant
                i <= self@.len(),
                out@ == Seq::new(i as nat, |k: int| self.spec_state(k, now)),
            decreases self@.len() - i,
        {
            let s = self.state(i, now);
            out.push(s);
            i = i + 1;
            assert(out@ =~= Seq::new(i as nat, |k: int| self.spec_state(k, now)));
        }
    }

    /// The state of every replica, in the order the router expects.
    ///
    /// Anything unpolled, stale, promoted or failed reports as unhealthy.
    pub fn states(&self, now: u64) -> (r: Vec<ReplicaState>)
        ensures
            r@ == self.spec_states(now),
    {
        let mut out: Vec<ReplicaState> = Vec::new();
        self.fill_states(&mut out, now);
        out
    }

    /// How far behind a primary position a replica is, saturating at zero.
    ///
    /// `None` when the replica is not healthy, since a lag figure invented
    /// from missing data would read as healthy.
    pub fn lag_behind(&self, index: usize, primary: Lsn, now: u64) -> (r: Option<u64>)
        ensures
            r == if self.spec_state(index as int, now).healthy {
                Some(
                    if primary.0 >= self.spec_state(index as int, now).replayed.0 {
                        (primary.0 - self.spec_state(index as int, now).replayed.0) as u64
                    } else {
                        0u64
                    },
                )
            } else {
                None
            },
    {
        let state = self.state(index, now);
        if state.healthy {
            Some(primary.0.saturating_sub(state.replayed.0))
        } else {
            None
        }
    }
}

/// The floor after a write committed at `lsn`: the later of the two.
pub open spec fn advanced(floor: Option<Lsn>, lsn: Lsn) -> Option<Lsn> {
    match floor {
        Some(current) => if current.0 >= lsn.0 {
            Some(current)
        } else {
            Some(lsn)
        },
        None => Some(lsn),
    }
}

/// A session's read-your-writes floor.
///
/// Only ever moves forward: a floor that went backwards would let a session
/// read from a replica it had already outrun.
#[derive(Clone, Copy, Debug, PartialEq, Eq, Structural)]
pub struct Watermark(Option<Lsn>);

impl Watermark {
    /// The floor, as a value.
    pub closed spec fn spec_get(self) -> Option<Lsn> {
        self.0
    }

    /// A session that has not written.
    pub fn new() -> (r: Watermark)
        ensures
            r.spec_get() is None,
    {
        Watermark(None)
    }

    /// The floor, or `None` if the session has never written.
    pub fn get(self) -> (r: Option<Lsn>)
        ensures
            r == self.spec_get(),
    {
        self.0
    }

    /// Whether this session has written at all.
    pub fn is_set(self) -> (r: bool)
        ensures
            r == self.spec_get() is Some,
    {
        self.0.is_some()
    }

    /// Records the LSN a write committed at.
    ///
    /// Monotonic: an out-of-order or replayed report cannot lower the floor.
    pub fn advance(&mut self, lsn: Lsn)
        ensures
            final(self).spec_get() == advanced(old(self).spec_get(), lsn),
    {
        self.0 = Some(
            match self.0 {
                Some(current) => if current.0 >= lsn.0 {
                    current
                } else {
                    lsn
                },
                None => lsn,
            },
        );
    }

    /// Clears the floor, as ending a session does.
    pub fn reset(&mut self)
        ensures
            final(self).spec_get() is None,
    {
        self.0 = None;
    }
}

impl Default for Watermark {
    fn default() -> (r: Watermark)
        ensures
            r.spec_get() is None,
    {
        Watermark::new()
    }
}

/// A floor never drops: after an advance it is at least where it was, and
/// at least the position advanced to.
pub proof fn law_a_watermark_only_moves_forward(floor: Option<Lsn>, lsn: Lsn)
    ensures
        advanced(floor, lsn) matches Some(w) && w.0 >= lsn.0 && (floor matches Some(b) ==> w.0
            >= b.0),
{
}

/// Two commit positions reported in either order leave the same floor: the
/// order in which their round trips complete does not matter.
pub proof fn law_the_order_of_reports_does_not_matter(floor: Option<Lsn>, a: Lsn, b: Lsn)
    ensures
        advanced(advanced(floor, a), b) == advanced(advanced(floor, b), a),
{
}

/// An unpolled replica is unhealthy, never a healthy replica at LSN zero.
pub proof fn law_an_unpolled_replica_is_unhealthy(r: Replicas, index: int, now: u64)
    requires
        0 <= index < r@.len(),
        r@[index] is None,
    ensures
        !r.spec_state(index, now).healthy,
{
}

} // verus!
