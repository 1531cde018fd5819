//! Utility types for network operations: per-peer statistics and the
//! peer tracker.

use vstd::prelude::*;
use crate::types::{Endpoint, PeerId};

verus! {

/// Tracker for peer statistics.
pub struct PeerStatistics {
    /// When the peer was first connected.
    pub first_connected_ms: u64,
    /// Last time we had activity from this peer.
    pub last_activity_ms: u64,
    /// Total bytes sent to this peer.
    pub bytes_sent: u64,
    /// Total bytes received from this peer.
    pub bytes_received: u64,
    /// Total messages sent to this peer.
    pub messages_sent: u64,
    /// Total messages received from this peer.
    pub messages_received: u64,
    /// Recent latency measurements in milliseconds.
    pub recent_latencies: Vec<u64>,
}

/// Saturating 64-bit addition.
pub open spec fn spec_sat_add64(a: u64, b: u64) -> u64 {
    if a + b <= u64::MAX {
        (a + b) as u64
    } else {
        u64::MAX
    }
}

/// The sum of a sequence of 64-bit values as an unbounded integer.
pub open spec fn spec_sum64(s: Seq<u64>) -> int
    decreases s.len(),
{
    if s.len() == 0 {
        0int
    } else {
        s[0] + spec_sum64(s.drop_first())
    }
}

impl PeerStatistics {
    /// At most ten latency samples are retained.
    pub open spec fn wf(self) -> bool {
        self.recent_latencies@.len() <= 10
    }

    /// Create new peer statistics at connection time.
    pub fn new(now: u64) -> (r: PeerStatistics)
        ensures
            r.wf(),
            r.first_connected_ms == now,
            r.last_activity_ms == now,
            r.bytes_sent == 0,
            r.bytes_received == 0,
            r.messages_sent == 0,
            r.messages_received == 0,
            r.recent_latencies@.len() == 0,
    {
        PeerStatistics {
            first_connected_ms: now,
            last_activity_ms: now,
            bytes_sent: 0,
            bytes_received: 0,
            messages_sent: 0,
            messages_received: 0,
            recent_latencies: Vec::new(),
        }
    }

    /// Update the last activity time.
    pub fn update_activity(&mut self, now: u64)
        requires
            old(self).wf(),
        ensures
            final(self).wf(),
            final(self).last_activity_ms == now,
            final(self).first_connected_ms == old(self).first_connected_ms,
            final(self).bytes_sent == old(self).bytes_sent,
            final(self).bytes_received == old(self).bytes_received,
            final(self).messages_sent == old(self).messages_sent,
            final(self).messages_received == old(self).messages_received,
            final(self).recent_latencies@ == old(self).recent_latencies@,
    {
        self.last_activity_ms = now;
    }

    /// Record bytes sent, saturating at the maximum.
    pub fn record_bytes_sent(&mut self, bytes: u64, now: u64)
        requires
            old(self).wf(),
        ensures
            final(self).wf(),
            final(self).bytes_sent == spec_sat_add64(old(self).bytes_sent, bytes),
            final(self).last_activity_ms == now,
    {
        self.bytes_sent = if self.bytes_sent <= u64::MAX - bytes {
            self.bytes_sent + bytes
        } else {
            u64::MAX
        };
        self.update_activity(now);
    }

    /// Record bytes received, saturating at the maximum.
    pub fn record_bytes_received(&mut self, bytes: u64, now: u64)
        requires
            old(self).wf(),
        ensures
            final(self).wf(),
            final(self).bytes_received == spec_sat_add64(old(self).bytes_received, bytes),
            final(self).last_activity_ms == now,
    {
        self.bytes_received = if self.bytes_received <= u64::MAX - bytes {
            self.bytes_received + bytes
        } else {
            u64::MAX
        };
        self.update_activity(now);
    }

    /// Record a message sent.
    pub fn record_message_sent(&mut self, now: u64)
        requires
            old(self).wf(),
        ensures
            final(self).wf(),
            final(self).messages_sent == spec_sat_add64(old(self).messages_sent, 1),
            final(self).last_activity_ms == now,
    {
        self.messages_sent = if self.messages_sent < u64::MAX {
            self.messages_sent + 1
        } else {
            u64::MAX
        };
        self.update_activity(now);
    }

    /// Record a message received.
    pub fn record_message_received(&mut self, now: u64)
        requires
            old(self).wf(),
        ensures
            final(self).wf(),
            final(self).messages_received == spec_sat_add64(old(self).messages_received, 1),
            final(self).last_activity_ms == now,
    {
        self.messages_received = if self.messages_received < u64::MAX {
            self.messages_received + 1
        } else {
            u64::MAX
        };
        self.update_activity(now);
    }

    /// Record a latency measurement, keeping only the last ten.
    pub fn record_latency(&mut self, latency_ms: u64)
        requires
            old(self).wf(),
        ensures
            final(self).wf(),
            final(self).recent_latencies@.len() >= 1,
            final(self).recent_latencies@.last() == latency_ms,
            old(self).recent_latencies@.len() < 10 ==> final(self).recent_latencies@ == old(
                self,
            ).recent_latencies@.push(latency_ms),
            old(self).recent_latencies@.len() >= 10 ==> final(self).recent_latencies@ == old(
                self,
            ).recent_latencies@.drop_first().push(latency_ms),
    {
        if self.recent_latencies.len() >= 10 {
            self.recent_latencies.remove(0);
            proof {
                assert(self.recent_latencies@ =~= old(self).recent_latencies@.drop_first());
            }
        }
        self.recent_latencies.push(latency_ms);
    }

    /// The average of the recent latency measurements.
    pub fn average_latency(&self) -> (r: Option<u64>)
        requires
            self.wf(),
        ensures
            self.recent_latencies@.len() == 0 <==> r is None,
            self.recent_latencies@.len() > 0 ==> r == Some(
                ((if spec_sum64(self.recent_latencies@) <= u64::MAX {
                    spec_sum64(self.recent_latencies@)
                } else {
                    u64::MAX as int
                }) / self.recent_latencies@.len() as int) as u64,
            ),
    {
        if self.recent_latencies.len() == 0 {
            return None;
        }
        // track the sum with saturation at the 64-bit maximum
        let mut sum: u64 = 0;
        let mut i: usize = 0;
        let mut saturated = false;
        while i < self.recent_latencies.len()
            invariant
                i <= self.recent_latencies@.len(),
                !saturated ==> sum == spec_sum64(self.recent_latencies@.take(i as int)),
                saturated ==> spec_sum64(self.recent_latencies@.take(i as int)) > u64::MAX,
                saturated ==> sum == u64::MAX,
            decreases self.recent_latencies@.len() - i,
        {
            proof {
                lemma_sum64_take(self.recent_latencies@, i as int);
            }
            let v = self.recent_latencies[i];
            if !saturated && sum <= u64::MAX - v {
                sum = sum + v;
            } else {
                saturated = true;
                sum = u64::MAX;
            }
            i = i + 1;
        }
        proof {
            assert(self.recent_latencies@.take(self.recent_latencies@.len() as int)
                =~= self.recent_latencies@);
        }
        Some(sum / (self.recent_latencies.len() as u64))
    }

    /// Time since the peer first connected.
    pub fn uptime(&self, now: u64) -> (r: u64)
        ensures
            r == if now >= self.first_connected_ms {
                (now - self.first_connected_ms) as u64
            } else {
                0u64
            },
    {
        if now >= self.first_connected_ms {
            now - self.first_connected_ms
        } else {
            0
        }
    }

    /// Time since the last activity.
    pub fn idle_time(&self, now: u64) -> (r: u64)
        ensures
            r == if now >= self.last_activity_ms {
                (now - self.last_activity_ms) as u64
            } else {
                0u64
            },
    {
        if now >= self.last_activity_ms {
            now - self.last_activity_ms
        } else {
            0
        }
    }
}

/// Prefix sums of 64-bit sequences extend one element at a time.
proof fn lemma_sum64_take(s: Seq<u64>, i: int)
    requires
        0 <= i < s.len(),
    ensures
        spec_sum64(s.take(i + 1)) == spec_sum64(s.take(i)) + s[i],
    decreases i,
{
    if i == 0 {
        assert(s.take(1).drop_first() =~= Seq::<u64>::empty());
        assert(s.take(1)[0] == s[0]);
        assert(s.take(0) =~= Seq::<u64>::empty());
    } else {
        assert(s.take(i + 1).drop_first() =~= s.drop_first().take(i));
        assert(s.take(i).drop_first() =~= s.drop_first().take(i - 1));
        assert(s.take(i + 1)[0] == s[0]);
        assert(s.take(i)[0] == s[0]);
        assert(s.drop_first()[i - 1] == s[i]);
        lemma_sum64_take(s.drop_first(), i - 1);
    }
}

/// Utility to track active peer connections by identity and by endpoint.
pub struct PeerTracker {
    pub by_id: Vec<(PeerId, Endpoint)>,
    pub by_addr: Vec<(Endpoint, PeerId)>,
    pub statistics: Vec<(PeerId, PeerStatistics)>,
}

/// Whether a peer is present.
pub open spec fn spec_tracker_has(s: Seq<(PeerId, Endpoint)>, p: PeerId) -> bool {
    exists|i: int| 0 <= i < s.len() && (#[trigger] s[i]).0 == p
}

impl PeerTracker {
    /// The two direction maps mirror each other entry for entry.
    pub open spec fn wf(self) -> bool {
        &&& self.by_addr@.len() == self.by_id@.len()
        &&& forall|i: int|
            0 <= i < self.by_id@.len() ==> (#[trigger] self.by_addr@[i]) == (
                self.by_id@[i].1,
                self.by_id@[i].0,
            )
    }

    /// Create a new peer tracker.
    pub fn new() -> (r: PeerTracker)
        ensures
            r.wf(),
            r.by_id@.len() == 0,
            r.statistics@.len() == 0,
    {
        PeerTracker { by_id: Vec::new(), by_addr: Vec::new(), statistics: Vec::new() }
    }

    /// Add a new peer.
    pub fn add_peer(&mut self, id: PeerId, addr: Endpoint, now: u64)
        requires
            old(self).wf(),
        ensures
            final(self).wf(),
            final(self).by_id@ == old(self).by_id@.push((id, addr)),
            spec_tracker_has(final(self).by_id@, id),
    {
        self.by_id.push((id, addr));
        self.by_addr.push((addr, id));
        self.statistics.push((id, PeerStatistics::new(now)));
        proof {
            assert(self.by_id@[self.by_id@.len() - 1].0 == id);
        }
    }

    /// Remove a peer and its statistics.
    pub fn remove_peer(&mut self, id: &PeerId)
        requires
            old(self).wf(),
        ensures
            final(self).wf(),
            !spec_tracker_has(final(self).by_id@, *id),
    {
        let mut by_id: Vec<(PeerId, Endpoint)> = Vec::new();
        let mut by_addr: Vec<(Endpoint, PeerId)> = Vec::new();
        let mut i: usize = 0;
        while i < self.by_id.len()
            invariant
                i <= self.by_id@.len(),
                self.wf(),
                by_addr@.len() == by_id@.len(),
                forall|j: int|
                    0 <= j < by_id@.len() ==> (#[trigger] by_addr@[j]) == (
                        by_id@[j].1,
                        by_id@[j].0,
                    ),
                forall|j: int| 0 <= j < by_id@.len() ==> (#[trigger] by_id@[j]).0 != *id,
            decreases self.by_id@.len() - i,
        {
            let entry = self.by_id[i];
            if !(entry.0 == *id) {
                by_id.push(entry);
                by_addr.push((entry.1, entry.0));
            }
            i = i + 1;
        }
        self.by_id = by_id;
        self.by_addr = by_addr;
        let mut stats: Vec<(PeerId, PeerStatistics)> = Vec::new();
        while self.statistics.len() > 0
            invariant
                self.wf(),
                forall|j: int| 0 <= j < self.by_id@.len() ==> (#[trigger] self.by_id@[j]).0 != *id,
            decreases self.statistics@.len(),
        {
            let entry = self.statistics.remove(0);
            if !(entry.0 == *id) {
                stats.push(entry);
            }
        }
        self.statistics = stats;
    }

    /// Get peer count.
    pub fn peer_count(&self) -> (r: usize)
        ensures
            r == self.by_id@.len(),
    {
        self.by_id.len()
    }

    /// Get a peer's identity by its endpoint.
    pub fn get_id_by_addr(&self, addr: &Endpoint) -> (r: Option<PeerId>)
        requires
            self.wf(),
        ensures
            r matches Some(p) ==> exists|i: int|
                0 <= i < self.by_id@.len() && (#[trigger] self.by_id@[i]) == (p, *addr),
    {
        let mut i: usize = 0;
        while i < self.by_addr.len()
            invariant
                i <= self.by_addr@.len(),
                self.wf(),
            decreases self.by_addr@.len() - i,
        {
            if self.by_addr[i].0 == *addr {
                let ghost ii = i as int;
                proof {
                    assert(self.by_id@[ii] == (self.by_addr@[ii].1, *addr));
                }
                return Some(self.by_addr[i].1);
            }
            i = i + 1;
        }
        None
    }

    /// Get a peer's endpoint by its identity.
    pub fn get_addr_by_id(&self, id: &PeerId) -> (r: Option<Endpoint>)
        ensures
            r matches Some(a) ==> exists|i: int|
                0 <= i < self.by_id@.len() && (#[trigger] self.by_id@[i]) == (*id, a),
    {
        let mut i: usize = 0;
        while i < self.by_id.len()
            invariant
                i <= self.by_id@.len(),
            decreases self.by_id@.len() - i,
        {
            if self.by_id[i].0 == *id {
                let ghost ii = i as int;
                proof {
                    assert(self.by_id@[ii] == (*id, self.by_id@[ii].1));
                }
                return Some(self.by_id[i].1);
            }
            i = i + 1;
        }
        None
    }

    /// Apply a latency sample to a peer's statistics.
    pub fn record_peer_latency(&mut self, id: &PeerId, latency_ms: u64)
        requires
            old(self).wf(),
            forall|i: int|
                0 <= i < old(self).statistics@.len() ==> (
                #[trigger] old(self).statistics@[i]).1.wf(),
        ensures
            final(self).wf(),
            final(self).by_id@ == old(self).by_id@,
            forall|i: int|
                0 <= i < final(self).statistics@.len() ==> (
                #[trigger] final(self).statistics@[i]).1.wf(),
    {
        let mut i: usize = 0;
        while i < self.statistics.len()
            invariant
                i <= self.statistics@.len(),
                self.wf(),
                self.by_id@ == old(self).by_id@,
                forall|j: int|
                    0 <= j < self.statistics@.len() ==> (#[trigger] self.statistics@[j]).1.wf(),
            decreases self.statistics@.len() - i,
        {
            if self.statistics[i].0 == *id {
                let ghost sbefore = self.statistics@;
                let mut entry = self.statistics.remove(i);
                entry.1.record_latency(latency_ms);
                self.statistics.push(entry);
                proof {
                    let t = self.statistics@;
                    let mid = sbefore.remove(i as int);
                    assert forall|j: int| 0 <= j < t.len() implies (#[trigger] t[j]).1.wf() by {
                        if j < t.len() - 1 {
                            assert(t[j] == mid[j]);
                            if j < i as int {
                                assert(mid[j] == sbefore[j]);
                            } else {
                                assert(mid[j] == sbefore[j + 1]);
                            }
                        }
                    };
                }
                return;
            }
            i = i + 1;
        }
    }
}

} // verus!
