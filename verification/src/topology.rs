//! Network topology management: who to keep, caps, eviction and regional
//! grouping.

use vstd::prelude::*;
use crate::counters::{CountKey, CountMap};
use crate::types::{DisconnectReason, Endpoint, IpAddress, PeerId};

verus! {

/// Region identifier (geographic area).
pub type RegionId = String;

/// Basic peer information.
#[derive(Clone, Debug)]
pub struct Peer {
    pub id: PeerId,
    pub address: Endpoint,
    pub connection_type: crate::types::ConnectionType,
    pub region: Option<RegionId>,
}

/// Requested connection actions, handed to the connection manager.
pub struct ConnectionActions {
    pub connect: Vec<PeerId>,
    pub disconnect: Vec<(PeerId, DisconnectReason)>,
}

/// Topology configuration.
#[derive(Clone, Debug)]
pub struct TopologyConfig {
    pub target_outbound: usize,
    pub max_inbound: usize,
    pub max_peers_per_ip: u32,
    pub preferred_nodes: Vec<String>,
    pub preferred_regions: Vec<String>,
}

/// The number of entries bound to an IP address.
pub open spec fn spec_pair_ip_count(s: Seq<(PeerId, Endpoint)>, ip: IpAddress) -> int
    decreases s.len(),
{
    if s.len() == 0 {
        0int
    } else {
        (if s[0].1.ip == ip {
            1int
        } else {
            0int
        }) + spec_pair_ip_count(s.drop_first(), ip)
    }
}

proof fn lemma_pair_ip_count_bounds(s: Seq<(PeerId, Endpoint)>, ip: IpAddress)
    ensures
        0 <= spec_pair_ip_count(s, ip) <= s.len(),
    decreases s.len(),
{
    if s.len() > 0 {
        lemma_pair_ip_count_bounds(s.drop_first(), ip);
    }
}

proof fn lemma_pair_ip_count_push(s: Seq<(PeerId, Endpoint)>, e: (PeerId, Endpoint), ip: IpAddress)
    ensures
        spec_pair_ip_count(s.push(e), ip) == spec_pair_ip_count(s, ip) + if e.1.ip == ip {
            1int
        } else {
            0int
        },
    decreases s.len(),
{
    let t = s.push(e);
    if s.len() == 0 {
        assert(t.drop_first() =~= Seq::<(PeerId, Endpoint)>::empty());
        assert(t[0] == e);
        assert(spec_pair_ip_count(t, ip) == (if e.1.ip == ip {
            1int
        } else {
            0int
        }) + spec_pair_ip_count(t.drop_first(), ip));
    } else {
        assert(t.drop_first() =~= s.drop_first().push(e));
        lemma_pair_ip_count_push(s.drop_first(), e, ip);
        assert(t[0] == s[0]);
        assert(spec_pair_ip_count(t, ip) == (if s[0].1.ip == ip {
            1int
        } else {
            0int
        }) + spec_pair_ip_count(t.drop_first(), ip));
        assert(spec_pair_ip_count(s, ip) == (if s[0].1.ip == ip {
            1int
        } else {
            0int
        }) + spec_pair_ip_count(s.drop_first(), ip));
    }
}

proof fn lemma_pair_ip_count_remove(s: Seq<(PeerId, Endpoint)>, i: int, ip: IpAddress)
    requires
        0 <= i < s.len(),
    ensures
        spec_pair_ip_count(s.remove(i), ip) == spec_pair_ip_count(s, ip) - if s[i].1.ip == ip {
            1int
        } else {
            0int
        },
    decreases s.len(),
{
    let t = s.remove(i);
    if i == 0 {
        assert(t =~= s.drop_first());
    } else {
        assert(t.drop_first() =~= s.drop_first().remove(i - 1));
        assert(s.drop_first()[i - 1] == s[i]);
        lemma_pair_ip_count_remove(s.drop_first(), i - 1, ip);
        assert(t[0] == s[0]);
    }
}

proof fn lemma_pair_ip_count_at_least_one(s: Seq<(PeerId, Endpoint)>, i: int)
    requires
        0 <= i < s.len(),
    ensures
        spec_pair_ip_count(s, s[i].1.ip) >= 1,
    decreases s.len(),
{
    lemma_pair_ip_count_bounds(s.drop_first(), s[i].1.ip);
    if i > 0 {
        assert(s.drop_first()[i - 1] == s[i]);
        lemma_pair_ip_count_at_least_one(s.drop_first(), i - 1);
    }
}

/// Whether a peer identifier is present in an association list.
pub open spec fn spec_pairs_have_peer(s: Seq<(PeerId, Endpoint)>, p: PeerId) -> bool {
    exists|i: int| 0 <= i < s.len() && (#[trigger] s[i]).0 == p
}

/// A peer is recorded under a region tag.
pub open spec fn spec_region_has(s: Seq<(PeerId, String)>, p: PeerId, region: Seq<char>) -> bool {
    exists|j: int| 0 <= j < s.len() && (#[trigger] s[j]).0 == p && s[j].1@ == region
}

/// The absolute score recorded for a peer; unscored peers sit in the middle
/// of the zero-to-a-thousand scale.
pub open spec fn spec_topo_score(s: Seq<(PeerId, u32)>, p: PeerId) -> u32
    decreases s.len(),
{
    if s.len() == 0 {
        500
    } else if s[0].0 == p {
        s[0].1
    } else {
        spec_topo_score(s.drop_first(), p)
    }
}

/// The number of inbound peers that are not preferred.
pub open spec fn spec_evictable_count(s: Seq<(PeerId, Endpoint)>, preferred: Seq<PeerId>) -> int
    decreases s.len(),
{
    if s.len() == 0 {
        0int
    } else {
        spec_evictable_count(s.drop_last(), preferred) + (if preferred.contains(s.last().0) {
            0int
        } else {
            1int
        })
    }
}

/// Topology manager: decides who to keep.
pub struct TopologyManager {
    pub config: TopologyConfig,
    pub inbound_connections: Vec<(PeerId, Endpoint)>,
    pub outbound_connections: Vec<(PeerId, Endpoint)>,
    pub ip_connections: CountMap,
    pub preferred_peers: Vec<PeerId>,
    pub peer_scores: Vec<(PeerId, u32)>,
    pub peer_regions: Vec<(PeerId, String)>,
}

impl TopologyManager {
    /// Every peer appears at most once over both tables, and the per-IP
    /// counters track both tables in lock-step.
    pub open spec fn wf(self) -> bool {
        &&& forall|i: int, j: int|
            0 <= i < j < self.inbound_connections@.len() ==> (
            #[trigger] self.inbound_connections@[i]).0 != (
            #[trigger] self.inbound_connections@[j]).0
        &&& forall|i: int, j: int|
            0 <= i < j < self.outbound_connections@.len() ==> (
            #[trigger] self.outbound_connections@[i]).0 != (
            #[trigger] self.outbound_connections@[j]).0
        &&& forall|i: int, j: int|
            0 <= i < self.inbound_connections@.len() && 0 <= j
                < self.outbound_connections@.len() ==> (
            #[trigger] self.inbound_connections@[i]).0 != (
            #[trigger] self.outbound_connections@[j]).0
        &&& self.ip_connections.wf()
        &&& forall|ip: IpAddress| #[trigger]
            self.ip_connections.spec_get(CountKey::Ip(ip)) == spec_pair_ip_count(
                self.inbound_connections@,
                ip,
            ) + spec_pair_ip_count(self.outbound_connections@, ip)
        &&& self.ip_connections.spec_sum() == self.inbound_connections@.len()
            + self.outbound_connections@.len()
        &&& self.inbound_connections@.len() + self.outbound_connections@.len() < u32::MAX
    }

    /// Create a new topology manager.
    pub fn new(config: TopologyConfig) -> (r: TopologyManager)
        ensures
            r.wf(),
            r.inbound_connections@.len() == 0,
            r.outbound_connections@.len() == 0,
            r.config == config,
    {
        let r = TopologyManager {
            config,
            inbound_connections: Vec::new(),
            outbound_connections: Vec::new(),
            ip_connections: CountMap::new(),
            preferred_peers: Vec::new(),
            peer_scores: Vec::new(),
            peer_regions: Vec::new(),
        };
        proof {
            assert forall|ip: IpAddress| #[trigger]
                r.ip_connections.spec_get(CountKey::Ip(ip)) == spec_pair_ip_count(
                    r.inbound_connections@,
                    ip,
                ) + spec_pair_ip_count(r.outbound_connections@, ip) by {}
        }
        r
    }

    /// Check if a new inbound connection fits the caps.
    pub fn can_accept_inbound(&self, addr: &Endpoint) -> (r: bool)
        requires
            self.wf(),
        ensures
            r == (self.inbound_connections@.len() < self.config.max_inbound
                && self.ip_connections.spec_get(CountKey::Ip(addr.ip))
                < self.config.max_peers_per_ip),
    {
        if self.inbound_connections.len() >= self.config.max_inbound {
            return false;
        }
        let ip_count = self.ip_connections.get(CountKey::Ip(addr.ip));
        ip_count < self.config.max_peers_per_ip
    }

    /// Register a new inbound connection.
    pub fn register_inbound(&mut self, peer_id: PeerId, addr: Endpoint)
        requires
            old(self).wf(),
            !spec_pairs_have_peer(old(self).inbound_connections@, peer_id),
            !spec_pairs_have_peer(old(self).outbound_connections@, peer_id),
            old(self).inbound_connections@.len() + old(self).outbound_connections@.len() + 1
                < u32::MAX,
        ensures
            final(self).wf(),
            final(self).inbound_connections@ == old(self).inbound_connections@.push(
                (peer_id, addr),
            ),
            final(self).outbound_connections@ == old(self).outbound_connections@,
            final(self).config == old(self).config,
            final(self).preferred_peers == old(self).preferred_peers,
    {
        let ghost s = self.inbound_connections@;
        proof {
            lemma_pair_ip_count_bounds(s, addr.ip);
            lemma_pair_ip_count_bounds(self.outbound_connections@, addr.ip);
        }
        self.ip_connections.add(CountKey::Ip(addr.ip), 1);
        self.inbound_connections.push((peer_id, addr));
        proof {
            assert forall|ip2: IpAddress| #[trigger]
                self.ip_connections.spec_get(CountKey::Ip(ip2)) == spec_pair_ip_count(
                    self.inbound_connections@,
                    ip2,
                ) + spec_pair_ip_count(self.outbound_connections@, ip2) by {
                lemma_pair_ip_count_push(s, (peer_id, addr), ip2);
                if ip2 != addr.ip {
                    assert(CountKey::Ip(ip2) != CountKey::Ip(addr.ip));
                }
            };
        }
    }

    /// Register a new outbound connection.
    pub fn register_outbound(&mut self, peer_id: PeerId, addr: Endpoint)
        requires
            old(self).wf(),
            !spec_pairs_have_peer(old(self).inbound_connections@, peer_id),
            !spec_pairs_have_peer(old(self).outbound_connections@, peer_id),
            old(self).inbound_connections@.len() + old(self).outbound_connections@.len() + 1
                < u32::MAX,
        ensures
            final(self).wf(),
            final(self).outbound_connections@ == old(self).outbound_connections@.push(
                (peer_id, addr),
            ),
            final(self).inbound_connections@ == old(self).inbound_connections@,
            final(self).config == old(self).config,
            final(self).preferred_peers == old(self).preferred_peers,
    {
        let ghost s = self.outbound_connections@;
        proof {
            lemma_pair_ip_count_bounds(s, addr.ip);
            lemma_pair_ip_count_bounds(self.inbound_connections@, addr.ip);
        }
        self.ip_connections.add(CountKey::Ip(addr.ip), 1);
        self.outbound_connections.push((peer_id, addr));
        proof {
            assert forall|ip2: IpAddress| #[trigger]
                self.ip_connections.spec_get(CountKey::Ip(ip2)) == spec_pair_ip_count(
                    self.inbound_connections@,
                    ip2,
                ) + spec_pair_ip_count(self.outbound_connections@, ip2) by {
                lemma_pair_ip_count_push(s, (peer_id, addr), ip2);
                if ip2 != addr.ip {
                    assert(CountKey::Ip(ip2) != CountKey::Ip(addr.ip));
                }
            };
        }
    }

    fn find_in(list: &Vec<(PeerId, Endpoint)>, peer_id: &PeerId) -> (r: Option<usize>)
        ensures
            r matches Some(i) ==> i < list@.len() && list@[i as int].0 == *peer_id,
            r is None ==> !spec_pairs_have_peer(list@, *peer_id),
    {
        let mut i: usize = 0;
        while i < list.len()
            invariant
                i <= list@.len(),
                forall|j: int| 0 <= j < i ==> (#[trigger] list@[j]).0 != *peer_id,
            decreases list@.len() - i,
        {
            if list[i].0 == *peer_id {
                return Some(i);
            }
            i = i + 1;
        }
        None
    }

    /// Remove a connection from whichever side holds it.  Only that peer's
    /// entry leaves; an unknown peer leaves the state untouched.
    pub fn remove_connection(&mut self, peer_id: &PeerId)
        requires
            old(self).wf(),
        ensures
            final(self).wf(),
            !spec_pairs_have_peer(final(self).inbound_connections@, *peer_id),
            !spec_pairs_have_peer(final(self).outbound_connections@, *peer_id),
            final(self).config == old(self).config,
            final(self).preferred_peers@ == old(self).preferred_peers@,
            final(self).peer_scores@ == old(self).peer_scores@,
            final(self).peer_regions@ == old(self).peer_regions@,
            // every other entry stays
            forall|k: int|
                0 <= k < old(self).inbound_connections@.len() && (#[trigger] old(self).inbound_connections@[k]).0 != *peer_id ==> final(self).inbound_connections@.contains(old(self).inbound_connections@[k]),
            forall|k: int|
                0 <= k < old(self).outbound_connections@.len() && (#[trigger] old(self).outbound_connections@[k]).0 != *peer_id ==> final(self).outbound_connections@.contains(old(self).outbound_connections@[k]),
            final(self).inbound_connections@.len() == old(self).inbound_connections@.len()
                - (if spec_pairs_have_peer(old(self).inbound_connections@, *peer_id) {
                1int
            } else {
                0int
            }),
            final(self).outbound_connections@.len() == old(self).outbound_connections@.len()
                - (if spec_pairs_have_peer(old(self).outbound_connections@, *peer_id) {
                1int
            } else {
                0int
            }),
            !spec_pairs_have_peer(old(self).inbound_connections@, *peer_id)
                && !spec_pairs_have_peer(old(self).outbound_connections@, *peer_id) ==> *final(self) == *old(self),
    {
        match Self::find_in(&self.inbound_connections, peer_id) {
            Some(index) => {
                let ghost s = self.inbound_connections@;
                let addr = self.inbound_connections[index].1;
                proof {
                    lemma_pair_ip_count_at_least_one(s, index as int);
                    lemma_pair_ip_count_bounds(self.outbound_connections@, addr.ip);
                }
                self.ip_connections.sub(CountKey::Ip(addr.ip), 1);
                self.inbound_connections.remove(index);
                proof {
                    let t = self.inbound_connections@;
                    assert(t == s.subrange(0, index as int) + s.subrange(
                        index as int + 1,
                        s.len() as int,
                    ));
                    assert forall|i2: int| 0 <= i2 < t.len() implies (#[trigger] t[i2]).0
                        != *peer_id by {
                        if i2 < index as int {
                            assert(t[i2] == s[i2]);
                        } else {
                            assert(t[i2] == s[i2 + 1]);
                        }
                    };
                    assert forall|i2: int, j2: int| 0 <= i2 < j2 < t.len() implies (
                    #[trigger] t[i2]).0 != (#[trigger] t[j2]).0 by {
                        if j2 < index as int {
                        } else if i2 < index as int {
                            assert(t[i2] == s[i2] && t[j2] == s[j2 + 1]);
                        } else {
                            assert(t[i2] == s[i2 + 1] && t[j2] == s[j2 + 1]);
                        }
                    };
                    assert forall|i2: int, j2: int|
                        0 <= i2 < t.len() && 0 <= j2
                            < self.outbound_connections@.len() implies (#[trigger] t[i2]).0 != (
                    #[trigger] self.outbound_connections@[j2]).0 by {
                        if i2 < index as int {
                            assert(t[i2] == s[i2]);
                        } else {
                            assert(t[i2] == s[i2 + 1]);
                        }
                    };
                    assert forall|ip2: IpAddress| #[trigger]
                        self.ip_connections.spec_get(CountKey::Ip(ip2)) == spec_pair_ip_count(
                            self.inbound_connections@,
                            ip2,
                        ) + spec_pair_ip_count(self.outbound_connections@, ip2) by {
                        lemma_pair_ip_count_remove(s, index as int, ip2);
                        if ip2 != addr.ip {
                            assert(CountKey::Ip(ip2) != CountKey::Ip(addr.ip));
                        }
                    };
                    // every other inbound entry survives the removal
                    assert forall|k: int|
                        0 <= k < s.len() && (#[trigger] s[k]).0 != *peer_id implies t.contains(
                        s[k],
                    ) by {
                        if k < index as int {
                            assert(t[k] == s[k]);
                        } else {
                            assert(t[k - 1] == s[k]);
                        }
                    };
                    assert forall|k: int|
                        0 <= k < self.outbound_connections@.len() implies self.outbound_connections@.contains(
                        #[trigger] self.outbound_connections@[k],
                    ) by {};
                    assert(spec_pairs_have_peer(s, *peer_id));
                }
            },
            None => {
                match Self::find_in(&self.outbound_connections, peer_id) {
                    Some(index) => {
                        let ghost s = self.outbound_connections@;
                        let addr = self.outbound_connections[index].1;
                        proof {
                            lemma_pair_ip_count_at_least_one(s, index as int);
                            lemma_pair_ip_count_bounds(self.inbound_connections@, addr.ip);
                        }
                        self.ip_connections.sub(CountKey::Ip(addr.ip), 1);
                        self.outbound_connections.remove(index);
                        proof {
                            let t = self.outbound_connections@;
                            assert(t == s.subrange(0, index as int) + s.subrange(
                                index as int + 1,
                                s.len() as int,
                            ));
                            assert forall|i2: int| 0 <= i2 < t.len() implies (#[trigger] t[i2]).0
                                != *peer_id by {
                                if i2 < index as int {
                                    assert(t[i2] == s[i2]);
                                } else {
                                    assert(t[i2] == s[i2 + 1]);
                                }
                            };
                            assert forall|i2: int, j2: int| 0 <= i2 < j2 < t.len() implies (
                            #[trigger] t[i2]).0 != (#[trigger] t[j2]).0 by {
                                if j2 < index as int {
                                } else if i2 < index as int {
                                    assert(t[i2] == s[i2] && t[j2] == s[j2 + 1]);
                                } else {
                                    assert(t[i2] == s[i2 + 1] && t[j2] == s[j2 + 1]);
                                }
                            };
                            assert forall|i2: int, j2: int|
                                0 <= i2 < self.inbound_connections@.len() && 0 <= j2
                                    < t.len() implies (
                            #[trigger] self.inbound_connections@[i2]).0 != (
                            #[trigger] t[j2]).0 by {
                                if j2 < index as int {
                                    assert(t[j2] == s[j2]);
                                } else {
                                    assert(t[j2] == s[j2 + 1]);
                                }
                            };
                            assert forall|ip2: IpAddress| #[trigger]
                                self.ip_connections.spec_get(CountKey::Ip(ip2))
                                    == spec_pair_ip_count(self.inbound_connections@, ip2)
                                    + spec_pair_ip_count(t, ip2) by {
                                lemma_pair_ip_count_remove(s, index as int, ip2);
                                if ip2 != addr.ip {
                                    assert(CountKey::Ip(ip2) != CountKey::Ip(addr.ip));
                                }
                            };
                            // every other outbound entry survives the removal
                            assert forall|k: int|
                                0 <= k < s.len() && (#[trigger] s[k]).0 != *peer_id implies t.contains(
                                s[k],
                            ) by {
                                if k < index as int {
                                    assert(t[k] == s[k]);
                                } else {
                                    assert(t[k - 1] == s[k]);
                                }
                            };
                            assert forall|k: int|
                                0 <= k < self.inbound_connections@.len() implies self.inbound_connections@.contains(
                                #[trigger] self.inbound_connections@[k],
                            ) by {};
                            assert(spec_pairs_have_peer(s, *peer_id));
                        }
                    },
                    None => {},
                }
            },
        }
    }

    /// Check if we should make more outbound connections.
    pub fn needs_more_outbound(&self) -> (r: bool)
        ensures
            r == (self.outbound_connections@.len() < self.config.target_outbound),
    {
        self.outbound_connections.len() < self.config.target_outbound
    }

    /// Mark a peer as preferred.
    pub fn mark_preferred(&mut self, peer_id: PeerId)
        requires
            old(self).wf(),
        ensures
            final(self).wf(),
            final(self).preferred_peers@.contains(peer_id),
            final(self).inbound_connections@ == old(self).inbound_connections@,
            final(self).outbound_connections@ == old(self).outbound_connections@,
    {
        self.preferred_peers.push(peer_id);
        proof {
            assert(self.preferred_peers@[self.preferred_peers@.len() - 1] == peer_id);
        }
    }

    /// Check if a peer is preferred.
    pub fn is_preferred(&self, peer_id: &PeerId) -> (r: bool)
        ensures
            r == self.preferred_peers@.contains(*peer_id),
    {
        let mut i: usize = 0;
        while i < self.preferred_peers.len()
            invariant
                i <= self.preferred_peers@.len(),
                forall|j: int| 0 <= j < i ==> #[trigger] self.preferred_peers@[j] != *peer_id,
            decreases self.preferred_peers@.len() - i,
        {
            if self.preferred_peers[i] == *peer_id {
                proof {
                    assert(self.preferred_peers@[i as int] == *peer_id);
                }
                return true;
            }
            i = i + 1;
        }
        false
    }

    /// Get current peer counts (inbound, outbound).
    pub fn peer_counts(&self) -> (r: (usize, usize))
        ensures
            r.0 == self.inbound_connections@.len(),
            r.1 == self.outbound_connections@.len(),
    {
        (self.inbound_connections.len(), self.outbound_connections.len())
    }

    /// Update peer score on the zero-to-a-thousand scale.
    pub fn update_peer_score(&mut self, peer_id: PeerId, score: u32)
        requires
            old(self).wf(),
        ensures
            final(self).wf(),
            spec_topo_score(final(self).peer_scores@, peer_id) == score,
            final(self).inbound_connections@ == old(self).inbound_connections@,
            final(self).outbound_connections@ == old(self).outbound_connections@,
    {
        let mut i: usize = 0;
        proof {
            assert(self.peer_scores@.skip(0) =~= self.peer_scores@);
        }
        while i < self.peer_scores.len()
            invariant
                old(self).wf(),
                i <= self.peer_scores@.len(),
                spec_topo_score(self.peer_scores@, peer_id) == spec_topo_score(
                    self.peer_scores@.skip(i as int),
                    peer_id,
                ),
                forall|j: int| 0 <= j < i ==> (#[trigger] self.peer_scores@[j]).0 != peer_id,
                self.peer_scores@ == old(self).peer_scores@,
                self.inbound_connections@ == old(self).inbound_connections@,
                self.outbound_connections@ == old(self).outbound_connections@,
                self.ip_connections == old(self).ip_connections,
                self.config == old(self).config,
                self.preferred_peers@ == old(self).preferred_peers@,
                self.peer_regions@ == old(self).peer_regions@,
            decreases self.peer_scores@.len() - i,
        {
            proof {
                assert(self.peer_scores@.skip(i as int)[0] == self.peer_scores@[i as int]);
                assert(self.peer_scores@.skip(i as int).drop_first() =~= self.peer_scores@.skip(
                    i as int + 1,
                ));
            }
            if self.peer_scores[i].0 == peer_id {
                self.peer_scores.set(i, (peer_id, score));
                proof {
                    lemma_topo_score_at(self.peer_scores@, i as int);
                }
                return;
            }
            i = i + 1;
        }
        let ghost s = self.peer_scores@;
        self.peer_scores.push((peer_id, score));
        proof {
            lemma_topo_score_push_fresh(s, peer_id, score);
        }
    }

    /// Set region for a peer.
    pub fn set_peer_region(&mut self, peer_id: PeerId, region: String)
        requires
            old(self).wf(),
        ensures
            final(self).wf(),
            final(self).peer_regions@.contains((peer_id, region)),
            final(self).inbound_connections@ == old(self).inbound_connections@,
            final(self).outbound_connections@ == old(self).outbound_connections@,
    {
        self.peer_regions.push((peer_id, region));
        proof {
            assert(self.peer_regions@[self.peer_regions@.len() - 1] == (
                peer_id,
                self.peer_regions@[self.peer_regions@.len() - 1].1,
            ));
        }
    }

    /// Get peers tagged with a region, in recording order.
    pub fn get_peers_by_region(&self, region: &String) -> (r: Vec<PeerId>)
        ensures
            forall|i: int|
                0 <= i < r@.len() ==> spec_region_has(
                    self.peer_regions@,
                    #[trigger] r@[i],
                    region@,
                ),
    {
        let mut out: Vec<PeerId> = Vec::new();
        let mut i: usize = 0;
        while i < self.peer_regions.len()
            invariant
                i <= self.peer_regions@.len(),
                forall|i2: int|
                    0 <= i2 < out@.len() ==> spec_region_has(
                        self.peer_regions@,
                        #[trigger] out@[i2],
                        region@,
                    ),
            decreases self.peer_regions@.len() - i,
        {
            let entry = &self.peer_regions[i];
            if entry.1 == *region {
                let ghost jj = i as int;
                out.push(entry.0);
                proof {
                    assert((#[trigger] self.peer_regions@[jj]).0 == out@[out@.len() - 1]
                        && self.peer_regions@[jj].1@ == region@);
                }
            }
            i = i + 1;
        }
        out
    }

    /// Select inbound peers for eviction: non-preferred peers, lowest score
    /// first, up to the requested count.
    pub fn select_eviction_candidates(&self, count: usize) -> (r: Vec<PeerId>)
        requires
            self.wf(),
        ensures
            r@.len() <= count,
            // as many candidates as fit: all of them, up to the request
            r@.len() == if spec_evictable_count(
                self.inbound_connections@,
                self.preferred_peers@,
            ) <= count {
                spec_evictable_count(self.inbound_connections@, self.preferred_peers@)
            } else {
                count as int
            },
            // every candidate is a non-preferred inbound peer
            forall|i: int|
                0 <= i < r@.len() ==> spec_pairs_have_peer(
                    self.inbound_connections@,
                    #[trigger] r@[i],
                ) && !self.preferred_peers@.contains(r@[i]),
            // lowest scores come first
            forall|i: int, j: int|
                0 <= i < j < r@.len() ==> spec_topo_score(self.peer_scores@, #[trigger] r@[i])
                    <= spec_topo_score(self.peer_scores@, #[trigger] r@[j]),
    {
        // gather the candidates
        let mut candidates: Vec<PeerId> = Vec::new();
        let mut i: usize = 0;
        proof {
            assert(self.inbound_connections@.take(0) =~= Seq::<(PeerId, Endpoint)>::empty());
        }
        while i < self.inbound_connections.len()
            invariant
                i <= self.inbound_connections@.len(),
                self.wf(),
                forall|i2: int|
                    0 <= i2 < candidates@.len() ==> spec_pairs_have_peer(
                        self.inbound_connections@,
                        #[trigger] candidates@[i2],
                    ) && !self.preferred_peers@.contains(candidates@[i2]),
                candidates@.len() == spec_evictable_count(
                    self.inbound_connections@.take(i as int),
                    self.preferred_peers@,
                ),
            decreases self.inbound_connections@.len() - i,
        {
            let peer = self.inbound_connections[i].0;
            proof {
                assert(self.inbound_connections@.take(i as int + 1).drop_last()
                    =~= self.inbound_connections@.take(i as int));
                assert(self.inbound_connections@.take(i as int + 1).last()
                    == self.inbound_connections@[i as int]);
            }
            if !self.is_preferred(&peer) {
                proof {
                    assert(self.inbound_connections@[i as int].0 == peer);
                }
                candidates.push(peer);
            }
            i = i + 1;
        }
        proof {
            assert(self.inbound_connections@.take(self.inbound_connections@.len() as int)
                =~= self.inbound_connections@);
        }
        let ghost total = candidates@.len() as int;
        // repeatedly extract the lowest-scored candidate
        let mut sorted: Vec<PeerId> = Vec::new();
        while sorted.len() < count && candidates.len() > 0
            invariant
                self.wf(),
                sorted@.len() <= count,
                sorted@.len() + candidates@.len() == total,
                total == spec_evictable_count(self.inbound_connections@, self.preferred_peers@),
                forall|i2: int|
                    0 <= i2 < candidates@.len() ==> spec_pairs_have_peer(
                        self.inbound_connections@,
                        #[trigger] candidates@[i2],
                    ) && !self.preferred_peers@.contains(candidates@[i2]),
                forall|i2: int|
                    0 <= i2 < sorted@.len() ==> spec_pairs_have_peer(
                        self.inbound_connections@,
                        #[trigger] sorted@[i2],
                    ) && !self.preferred_peers@.contains(sorted@[i2]),
                forall|i2: int, j2: int|
                    0 <= i2 < j2 < sorted@.len() ==> spec_topo_score(
                        self.peer_scores@,
                        #[trigger] sorted@[i2],
                    ) <= spec_topo_score(self.peer_scores@, #[trigger] sorted@[j2]),
                // everything sorted is at most everything still waiting
                forall|i2: int, j2: int|
                    0 <= i2 < sorted@.len() && 0 <= j2 < candidates@.len() ==> spec_topo_score(
                        self.peer_scores@,
                        #[trigger] sorted@[i2],
                    ) <= spec_topo_score(self.peer_scores@, #[trigger] candidates@[j2]),
            decreases count - sorted@.len(),
        {
            let mut best: usize = 0;
            let mut k: usize = 1;
            while k < candidates.len()
                invariant
                    candidates@.len() >= 1,
                    best < k <= candidates@.len(),
                    forall|j2: int|
                        0 <= j2 < k ==> spec_topo_score(
                            self.peer_scores@,
                            candidates@[best as int],
                        ) <= spec_topo_score(self.peer_scores@, #[trigger] candidates@[j2]),
                decreases candidates@.len() - k,
            {
                let sk = self.score_of(&candidates[k]);
                let sb = self.score_of(&candidates[best]);
                if sk < sb {
                    best = k;
                }
                k = k + 1;
            }
            let ghost cs = candidates@;
            let chosen = candidates[best];
            candidates.remove(best);
            proof {
                assert(candidates@ == cs.subrange(0, best as int) + cs.subrange(
                    best as int + 1,
                    cs.len() as int,
                ));
                assert forall|j2: int| 0 <= j2 < candidates@.len() implies spec_topo_score(
                    self.peer_scores@,
                    chosen,
                ) <= spec_topo_score(self.peer_scores@, #[trigger] candidates@[j2])
                    && spec_pairs_have_peer(self.inbound_connections@, candidates@[j2])
                    && !self.preferred_peers@.contains(candidates@[j2]) by {
                    if j2 < best as int {
                        assert(candidates@[j2] == cs[j2]);
                    } else {
                        assert(candidates@[j2] == cs[j2 + 1]);
                    }
                };
            }
            sorted.push(chosen);
        }
        sorted
    }

    /// Look up a peer's score.
    pub fn score_of(&self, peer_id: &PeerId) -> (r: u32)
        ensures
            r == spec_topo_score(self.peer_scores@, *peer_id),
    {
        let mut i: usize = 0;
        proof {
            assert(self.peer_scores@.skip(0) =~= self.peer_scores@);
        }
        while i < self.peer_scores.len()
            invariant
                i <= self.peer_scores@.len(),
                spec_topo_score(self.peer_scores@, *peer_id) == spec_topo_score(
                    self.peer_scores@.skip(i as int),
                    *peer_id,
                ),
            decreases self.peer_scores@.len() - i,
        {
            proof {
                assert(self.peer_scores@.skip(i as int)[0] == self.peer_scores@[i as int]);
                assert(self.peer_scores@.skip(i as int).drop_first() =~= self.peer_scores@.skip(
                    i as int + 1,
                ));
            }
            if self.peer_scores[i].0 == *peer_id {
                return self.peer_scores[i].1;
            }
            i = i + 1;
        }
        proof {
            assert(self.peer_scores@.skip(self.peer_scores@.len() as int) =~= Seq::<
                (PeerId, u32),
            >::empty());
        }
        500
    }
}

/// With the key at one index updated, the score for that key is the new one.
proof fn lemma_topo_score_at(s: Seq<(PeerId, u32)>, i: int)
    requires
        0 <= i < s.len(),
        forall|j: int| 0 <= j < i ==> (#[trigger] s[j]).0 != s[i].0,
    ensures
        spec_topo_score(s, s[i].0) == s[i].1,
    decreases s.len(),
{
    if i > 0 {
        assert(s.drop_first()[i - 1] == s[i]);
        assert forall|j: int| 0 <= j < i - 1 implies (#[trigger] s.drop_first()[j]).0
            != s.drop_first()[i - 1].0 by {
            assert(s.drop_first()[j] == s[j + 1]);
        };
        lemma_topo_score_at(s.drop_first(), i - 1);
    }
}

/// Pushing a fresh key sets its score.
proof fn lemma_topo_score_push_fresh(s: Seq<(PeerId, u32)>, p: PeerId, v: u32)
    requires
        forall|j: int| 0 <= j < s.len() ==> (#[trigger] s[j]).0 != p,
    ensures
        spec_topo_score(s.push((p, v)), p) == v,
    decreases s.len(),
{
    let t = s.push((p, v));
    if s.len() == 0 {
        assert(t[0] == (p, v));
    } else {
        assert(t[0] == s[0]);
        assert(t.drop_first() =~= s.drop_first().push((p, v)));
        assert forall|j: int| 0 <= j < s.drop_first().len() implies (
        #[trigger] s.drop_first()[j]).0 != p by {
            assert(s.drop_first()[j] == s[j + 1]);
        };
        lemma_topo_score_push_fresh(s.drop_first(), p, v);
    }
}

} // verus!
