//! Peer discovery: the address book fed by bootstrap seeds, DNS seeds,
//! peer exchange and inbound observations.
//!
//! Name resolution is I/O and happens outside this crate; callers hand in
//! the endpoints they resolved and this module applies the book-keeping
//! rules: source trust priorities, the endpoint upgrade rule, and attempt
//! and ban filtering.

use vstd::prelude::*;
use crate::hash::{spec_mix, LANE_SEED_0, LANE_SEED_1, LANE_SEED_2, LANE_SEED_3};
use crate::types::{Endpoint, IpAddress, PeerId};

verus! {

/// Bootstrap configuration.
#[derive(Clone, Debug)]
pub struct BootstrapConfig {
    pub bootstrap_nodes: Vec<String>,
    pub dns_seeds: Vec<String>,
    pub enable_local_discovery: bool,
    pub static_peers: Vec<String>,
    pub dns_lookup_interval_ms: u64,
}

/// Peer information surfaced to callers.
#[derive(Clone, Debug)]
pub struct PeerInfo {
    pub id: PeerId,
    pub address: Endpoint,
    pub protocol_version: u32,
    pub user_agent: String,
    pub capabilities: Vec<String>,
    pub service_bits: u64,
}

impl PeerInfo {
    /// A copy of the peer information with equal fields, string views
    /// included.
    pub fn clone_info(&self) -> (r: PeerInfo)
        ensures
            r.id == self.id,
            r.address == self.address,
            r.protocol_version == self.protocol_version,
            r.user_agent@ == self.user_agent@,
            r.service_bits == self.service_bits,
            r.capabilities@.len() == self.capabilities@.len(),
            forall|j: int|
                0 <= j < r.capabilities@.len() ==> (#[trigger] r.capabilities@[j])@
                    == self.capabilities@[j]@,
    {
        let mut capabilities: Vec<String> = Vec::new();
        let mut i: usize = 0;
        while i < self.capabilities.len()
            invariant
                i <= self.capabilities@.len(),
                capabilities@.len() == i,
                forall|j: int|
                    0 <= j < i ==> (#[trigger] capabilities@[j])@ == self.capabilities@[j]@,
            decreases self.capabilities@.len() - i,
        {
            capabilities.push(self.capabilities[i].clone());
            i = i + 1;
        }
        PeerInfo {
            id: self.id,
            address: self.address,
            protocol_version: self.protocol_version,
            user_agent: self.user_agent.clone(),
            capabilities,
            service_bits: self.service_bits,
        }
    }
}

/// Source of peer information, ordered by trust.
#[derive(Clone, Copy, Debug, PartialEq, Eq, Structural)]
pub enum PeerSource {
    Bootstrap,
    DNSSeed,
    PeerExchange,
    LocalDiscovery,
    ManuallyAdded,
    Incoming,
}

/// The trust priority of a peer source; higher wins on upgrade.
pub open spec fn spec_source_priority(source: PeerSource) -> u8 {
    match source {
        PeerSource::ManuallyAdded => 5,
        PeerSource::Incoming => 4,
        PeerSource::LocalDiscovery => 3,
        PeerSource::Bootstrap => 2,
        PeerSource::PeerExchange => 1,
        PeerSource::DNSSeed => 0,
    }
}

/// Get priority of peer source.
pub fn source_priority(source: &PeerSource) -> (r: u8)
    ensures
        r == spec_source_priority(*source),
{
    match source {
        PeerSource::ManuallyAdded => 5,
        PeerSource::Incoming => 4,
        PeerSource::LocalDiscovery => 3,
        PeerSource::Bootstrap => 2,
        PeerSource::PeerExchange => 1,
        PeerSource::DNSSeed => 0,
    }
}

/// Address book record for a peer.
#[derive(Clone, Debug)]
pub struct LocalPeerRecord {
    pub first_seen_ms: u64,
    pub last_seen_ms: u64,
    pub address: Endpoint,
    pub protocol_version: u32,
    pub user_agent: String,
    pub source: PeerSource,
}

/// The record after observing the same peer again: the last-seen time moves
/// forward, the endpoint is overwritten only when the observation did not
/// come from an inbound socket, and the source may only be upgraded.
pub open spec fn spec_upgraded_record(
    rec: LocalPeerRecord,
    addr: Endpoint,
    protocol_version: u32,
    user_agent: String,
    source: PeerSource,
    now: u64,
) -> LocalPeerRecord {
    LocalPeerRecord {
        first_seen_ms: rec.first_seen_ms,
        last_seen_ms: now,
        address: if source != PeerSource::Incoming {
            addr
        } else {
            rec.address
        },
        protocol_version,
        user_agent,
        source: if spec_source_priority(source) > spec_source_priority(rec.source) {
            source
        } else {
            rec.source
        },
    }
}

/// The fresh record for a peer seen for the first time.
pub open spec fn spec_fresh_record(
    addr: Endpoint,
    protocol_version: u32,
    user_agent: String,
    source: PeerSource,
    now: u64,
) -> LocalPeerRecord {
    LocalPeerRecord {
        first_seen_ms: now,
        last_seen_ms: now,
        address: addr,
        protocol_version,
        user_agent,
        source,
    }
}

/// The byte encoding of an endpoint, fed to the identity fingerprint.
pub open spec fn spec_endpoint_bytes(addr: Endpoint) -> Seq<u8> {
    (match addr.ip {
        IpAddress::V4(bits) => seq![
            4u8,
            (bits >> 24) as u8,
            (bits >> 16) as u8,
            (bits >> 8) as u8,
            bits as u8,
        ],
        IpAddress::V6(hi, lo) => seq![
            6u8,
            (hi >> 56) as u8,
            (hi >> 48) as u8,
            (hi >> 40) as u8,
            (hi >> 32) as u8,
            (hi >> 24) as u8,
            (hi >> 16) as u8,
            (hi >> 8) as u8,
            hi as u8,
            (lo >> 56) as u8,
            (lo >> 48) as u8,
            (lo >> 40) as u8,
            (lo >> 32) as u8,
            (lo >> 24) as u8,
            (lo >> 16) as u8,
            (lo >> 8) as u8,
            lo as u8,
        ],
    }) + seq![(addr.port >> 8) as u8, addr.port as u8]
}

/// The stable identity derived from an endpoint when the remote announced
/// none: the fingerprint of the endpoint's bytes.
pub open spec fn spec_peer_id_from_endpoint(addr: Endpoint) -> PeerId {
    let bytes = spec_endpoint_bytes(addr);
    PeerId {
        w0: spec_mix(bytes, LANE_SEED_0),
        w1: spec_mix(bytes, LANE_SEED_1),
        w2: spec_mix(bytes, LANE_SEED_2),
        w3: spec_mix(bytes, LANE_SEED_3),
    }
}

/// Derive a stable temporary peer identity from an endpoint.
pub fn peer_id_from_endpoint(addr: &Endpoint) -> (r: PeerId)
    ensures
        r == spec_peer_id_from_endpoint(*addr),
{
    let mut bytes: Vec<u8> = Vec::new();
    match addr.ip {
        IpAddress::V4(bits) => {
            bytes.push(4u8);
            bytes.push((bits >> 24) as u8);
            bytes.push((bits >> 16) as u8);
            bytes.push((bits >> 8) as u8);
            bytes.push(bits as u8);
        },
        IpAddress::V6(hi, lo) => {
            bytes.push(6u8);
            bytes.push((hi >> 56) as u8);
            bytes.push((hi >> 48) as u8);
            bytes.push((hi >> 40) as u8);
            bytes.push((hi >> 32) as u8);
            bytes.push((hi >> 24) as u8);
            bytes.push((hi >> 16) as u8);
            bytes.push((hi >> 8) as u8);
            bytes.push(hi as u8);
            bytes.push((lo >> 56) as u8);
            bytes.push((lo >> 48) as u8);
            bytes.push((lo >> 40) as u8);
            bytes.push((lo >> 32) as u8);
            bytes.push((lo >> 24) as u8);
            bytes.push((lo >> 16) as u8);
            bytes.push((lo >> 8) as u8);
            bytes.push(lo as u8);
        },
    }
    bytes.push((addr.port >> 8) as u8);
    bytes.push(addr.port as u8);
    proof {
        assert(bytes@ =~= spec_endpoint_bytes(*addr));
    }
    let d = crate::hash::digest_of_bytes(&bytes);
    PeerId { w0: d.w0, w1: d.w1, w2: d.w2, w3: d.w3 }
}

/// Whether the address book holds a peer.
pub open spec fn spec_book_has(s: Seq<(PeerId, LocalPeerRecord)>, p: PeerId) -> bool {
    exists|i: int| 0 <= i < s.len() && (#[trigger] s[i]).0 == p
}

/// A surfaced peer carries a given identity.
pub open spec fn spec_surfaced_has(r: Seq<PeerInfo>, p: PeerId) -> bool {
    exists|i: int| 0 <= i < r.len() && (#[trigger] r[i]).id == p
}

/// An endpoint is a dialling candidate: neither attempted nor banned.
pub open spec fn spec_candidate(
    attempted: Seq<Endpoint>,
    banned: Seq<Endpoint>,
    a: Endpoint,
) -> bool {
    !attempted.contains(a) && !banned.contains(a)
}

/// The candidate endpoints of a batch, in order.
pub open spec fn spec_candidate_endpoints(
    addrs: Seq<Endpoint>,
    attempted: Seq<Endpoint>,
    banned: Seq<Endpoint>,
) -> Seq<Endpoint>
    decreases addrs.len(),
{
    if addrs.len() == 0 {
        Seq::empty()
    } else {
        spec_candidate_endpoints(addrs.drop_last(), attempted, banned) + (if spec_candidate(
            attempted,
            banned,
            addrs.last(),
        ) {
            seq![addrs.last()]
        } else {
            Seq::empty()
        })
    }
}

/// Peer discovery: the address book and its filters.
pub struct PeerDiscovery {
    pub config: BootstrapConfig,
    pub known_peers: Vec<(PeerId, LocalPeerRecord)>,
    pub attempted_peers: Vec<Endpoint>,
    pub banned_peers: Vec<Endpoint>,
    pub last_dns_lookup_ms: Option<u64>,
    pub local_address: Option<Endpoint>,
}

impl PeerDiscovery {
    /// Address book keys are pairwise distinct.
    pub open spec fn wf(self) -> bool {
        forall|i: int, j: int|
            0 <= i < j < self.known_peers@.len() ==> (#[trigger] self.known_peers@[i]).0 != (
            #[trigger] self.known_peers@[j]).0
    }

    /// Create a new peer discovery instance.
    pub fn new(config: BootstrapConfig) -> (r: PeerDiscovery)
        ensures
            r.wf(),
            r.config == config,
            r.known_peers@.len() == 0,
            r.attempted_peers@.len() == 0,
            r.banned_peers@.len() == 0,
            r.last_dns_lookup_ms is None,
    {
        PeerDiscovery {
            config,
            known_peers: Vec::new(),
            attempted_peers: Vec::new(),
            banned_peers: Vec::new(),
            last_dns_lookup_ms: None,
            local_address: None,
        }
    }

    /// Add or refresh a peer in the address book.
    ///
    /// A known peer keeps its first-seen time and only upgrades its source;
    /// its endpoint is overwritten unless the observation came from an
    /// inbound socket.
    pub fn add_peer(
        &mut self,
        peer_id: PeerId,
        addr: Endpoint,
        protocol_version: u32,
        user_agent: String,
        source: PeerSource,
        now: u64,
    )
        requires
            old(self).wf(),
        ensures
            final(self).wf(),
            final(self).config == old(self).config,
            final(self).attempted_peers@ == old(self).attempted_peers@,
            final(self).banned_peers@ == old(self).banned_peers@,
            final(self).last_dns_lookup_ms == old(self).last_dns_lookup_ms,
            final(self).local_address == old(self).local_address,
            final(self).known_peers@.len() == old(self).known_peers@.len() + (if spec_book_has(
                old(self).known_peers@,
                peer_id,
            ) {
                0int
            } else {
                1int
            }),
            !spec_book_has(old(self).known_peers@, peer_id) ==> final(self).known_peers@ == old(
                self,
            ).known_peers@.push(
                (peer_id, spec_fresh_record(addr, protocol_version, user_agent, source, now)),
            ),
            spec_book_has(old(self).known_peers@, peer_id) ==> exists|i: int|
                0 <= i < old(self).known_peers@.len() && (#[trigger] old(self).known_peers@[i]).0
                    == peer_id && final(self).known_peers@ == old(self).known_peers@.update(
                    i,
                    (
                        peer_id,
                        spec_upgraded_record(
                            old(self).known_peers@[i].1,
                            addr,
                            protocol_version,
                            user_agent,
                            source,
                            now,
                        ),
                    ),
                ),
            spec_book_has(final(self).known_peers@, peer_id),
            forall|p: PeerId| #[trigger]
                spec_book_has(final(self).known_peers@, p) == (spec_book_has(
                    old(self).known_peers@,
                    p,
                ) || p == peer_id),
    {
        let ghost s = self.known_peers@;
        let mut i: usize = 0;
        let mut found: Option<usize> = None;
        while i < self.known_peers.len()
            invariant
                i <= s.len(),
                self.known_peers@ == s,
                found matches Some(fi) ==> fi < s.len() && s[fi as int].0 == peer_id,
                found is None ==> forall|j: int| 0 <= j < i ==> (#[trigger] s[j]).0 != peer_id,
            decreases s.len() - i,
        {
            if found.is_none() && self.known_peers[i].0 == peer_id {
                found = Some(i);
            }
            i = i + 1;
        }
        match found {
            Some(index) => {
                let rec = &self.known_peers[index].1;
                let new_address = if !matches!(source, PeerSource::Incoming) {
                    addr
                } else {
                    rec.address
                };
                let new_source = if source_priority(&source) > source_priority(&rec.source) {
                    source
                } else {
                    rec.source
                };
                let updated = LocalPeerRecord {
                    first_seen_ms: rec.first_seen_ms,
                    last_seen_ms: now,
                    address: new_address,
                    protocol_version,
                    user_agent,
                    source: new_source,
                };
                self.known_peers.set(index, (peer_id, updated));
                proof {
                    assert(s[index as int].0 == peer_id);
                    assert(forall|i2: int|
                        0 <= i2 < self.known_peers@.len() ==> (#[trigger] self.known_peers@[i2]).0
                            == s[i2].0);
                    assert(self.known_peers@[index as int].0 == peer_id);
                    assert forall|p: PeerId| #[trigger]
                        spec_book_has(self.known_peers@, p) == (spec_book_has(s, p) || p
                            == peer_id) by {
                        if spec_book_has(self.known_peers@, p) {
                            let k = choose|k: int|
                                0 <= k < self.known_peers@.len() && (
                                #[trigger] self.known_peers@[k]).0 == p;
                            assert(s[k].0 == p);
                        }
                        if spec_book_has(s, p) {
                            let k = choose|k: int|
                                0 <= k < s.len() && (#[trigger] s[k]).0 == p;
                            assert(self.known_peers@[k].0 == p);
                        }
                    };
                }
            },
            None => {
                let fresh = LocalPeerRecord {
                    first_seen_ms: now,
                    last_seen_ms: now,
                    address: addr,
                    protocol_version,
                    user_agent,
                    source,
                };
                self.known_peers.push((peer_id, fresh));
                proof {
                    let t = self.known_peers@;
                    assert forall|i2: int, j2: int| 0 <= i2 < j2 < t.len() implies (
                    #[trigger] t[i2]).0 != (#[trigger] t[j2]).0 by {
                        if j2 == t.len() - 1 {
                            assert(t[i2] == s[i2]);
                        }
                    };
                    assert(t[t.len() - 1].0 == peer_id);
                    assert forall|p: PeerId| #[trigger]
                        spec_book_has(t, p) == (spec_book_has(s, p) || p == peer_id) by {
                        if spec_book_has(t, p) {
                            let k = choose|k: int|
                                0 <= k < t.len() && (#[trigger] t[k]).0 == p;
                            if k < t.len() - 1 {
                                assert(s[k].0 == p);
                            }
                        }
                        if spec_book_has(s, p) {
                            let k = choose|k: int|
                                0 <= k < s.len() && (#[trigger] s[k]).0 == p;
                            assert(t[k].0 == p);
                        }
                    };
                }
            },
        }
    }

    /// The number of peers in the address book.
    pub fn known_peer_count(&self) -> (r: usize)
        ensures
            r == self.known_peers@.len(),
    {
        self.known_peers.len()
    }

    /// Whether the bootstrap procedure should also query the DNS seeds:
    /// fewer than ten peers are known.
    pub fn needs_dns_bootstrap(&self) -> (r: bool)
        ensures
            r == (self.known_peers@.len() < 10),
    {
        self.known_peers.len() < 10
    }

    /// Whether enough time has passed for another DNS seed query.
    pub fn should_query_dns(&self, now: u64) -> (r: bool)
        ensures
            r == match self.last_dns_lookup_ms {
                Option::None => true,
                Option::Some(t) => now > t && now - t > self.config.dns_lookup_interval_ms,
            },
    {
        match self.last_dns_lookup_ms {
            Option::None => true,
            Option::Some(t) => now > t && now - t > self.config.dns_lookup_interval_ms,
        }
    }

    /// Record that the DNS seeds were queried.
    pub fn record_dns_lookup(&mut self, now: u64)
        requires
            old(self).wf(),
        ensures
            final(self).wf(),
            final(self).last_dns_lookup_ms == Some(now),
            final(self).known_peers@ == old(self).known_peers@,
    {
        self.last_dns_lookup_ms = Some(now);
    }

    /// Whether an endpoint may still be dialled: neither attempted nor
    /// banned.
    pub fn is_candidate(&self, addr: &Endpoint) -> (r: bool)
        ensures
            r == (!self.attempted_peers@.contains(*addr) && !self.banned_peers@.contains(*addr)),
    {
        !Self::endpoint_list_contains(&self.attempted_peers, addr)
            && !Self::endpoint_list_contains(&self.banned_peers, addr)
    }

    fn endpoint_list_contains(list: &Vec<Endpoint>, addr: &Endpoint) -> (r: bool)
        ensures
            r == list@.contains(*addr),
    {
        let mut i: usize = 0;
        while i < list.len()
            invariant
                i <= list@.len(),
                forall|j: int| 0 <= j < i ==> #[trigger] list@[j] != *addr,
            decreases list@.len() - i,
        {
            if list[i] == *addr {
                proof {
                    assert(list@[i as int] == *addr);
                }
                return true;
            }
            i = i + 1;
        }
        false
    }

    /// Mark a peer endpoint as attempted.
    pub fn mark_attempted(&mut self, addr: Endpoint)
        requires
            old(self).wf(),
        ensures
            final(self).wf(),
            final(self).attempted_peers@ == old(self).attempted_peers@.push(addr),
            final(self).known_peers@ == old(self).known_peers@,
    {
        self.attempted_peers.push(addr);
    }

    /// Mark a peer endpoint as banned.
    pub fn mark_banned(&mut self, addr: Endpoint)
        requires
            old(self).wf(),
        ensures
            final(self).wf(),
            final(self).banned_peers@ == old(self).banned_peers@.push(addr),
            final(self).known_peers@ == old(self).known_peers@,
    {
        self.banned_peers.push(addr);
    }

    /// Set the local listening address.
    pub fn set_local_address(&mut self, addr: Endpoint)
        requires
            old(self).wf(),
        ensures
            final(self).wf(),
            final(self).local_address == Some(addr),
            final(self).known_peers@ == old(self).known_peers@,
    {
        self.local_address = Some(addr);
    }

    /// Ingest a batch of resolved endpoints into the address book, deriving
    /// a stable identity for each.  With `filter_attempted` set, endpoints
    /// already attempted or banned are skipped; without it, every endpoint
    /// is surfaced.  Returns the surfaced peers in batch order.
    pub fn ingest_resolved_peers(
        &mut self,
        addrs: &Vec<Endpoint>,
        source: PeerSource,
        filter_attempted: bool,
        now: u64,
    ) -> (r: Vec<PeerInfo>)
        requires
            old(self).wf(),
        ensures
            final(self).wf(),
            final(self).config == old(self).config,
            final(self).attempted_peers@ == old(self).attempted_peers@,
            final(self).banned_peers@ == old(self).banned_peers@,
            final(self).last_dns_lookup_ms == old(self).last_dns_lookup_ms,
            final(self).local_address == old(self).local_address,
            // exactly the candidate endpoints are surfaced, in order; without
            // filtering, every endpoint is
            r@.len() == if filter_attempted {
                spec_candidate_endpoints(
                    addrs@,
                    old(self).attempted_peers@,
                    old(self).banned_peers@,
                ).len() as int
            } else {
                addrs@.len() as int
            },
            forall|i: int|
                0 <= i < r@.len() ==> (#[trigger] r@[i]).address == (if filter_attempted {
                    spec_candidate_endpoints(
                        addrs@,
                        old(self).attempted_peers@,
                        old(self).banned_peers@,
                    )[i]
                } else {
                    addrs@[i]
                }),
            // every surfaced peer carries the derived identity and the
            // defaults a resolved-only peer gets
            forall|i: int|
                0 <= i < r@.len() ==> {
                    &&& (#[trigger] r@[i]).id == spec_peer_id_from_endpoint(r@[i].address)
                    &&& r@[i].protocol_version == 1
                    &&& r@[i].service_bits == 1
                    &&& r@[i].user_agent@ == "unknown"@
                    &&& r@[i].capabilities@.len() == 1
                    &&& r@[i].capabilities@[0]@ == "FULL_NODE"@
                },
            // the book gains exactly the surfaced identities
            forall|p: PeerId| #[trigger]
                spec_book_has(final(self).known_peers@, p) == (spec_book_has(
                    old(self).known_peers@,
                    p,
                ) || spec_surfaced_has(r@, p)),
            // an empty batch changes nothing
            addrs@.len() == 0 ==> *final(self) == *old(self) && r@.len() == 0,
    {
        let ghost att = self.attempted_peers@;
        let ghost ban = self.banned_peers@;
        let mut discovered: Vec<PeerInfo> = Vec::new();
        if addrs.len() == 0 {
            return discovered;
        }
        let mut i: usize = 0;
        proof {
            assert(addrs@.take(0) =~= Seq::<Endpoint>::empty());
        }
        while i < addrs.len()
            invariant
                i <= addrs@.len(),
                self.wf(),
                self.config == old(self).config,
                self.attempted_peers@ == att && att == old(self).attempted_peers@,
                self.banned_peers@ == ban && ban == old(self).banned_peers@,
                self.last_dns_lookup_ms == old(self).last_dns_lookup_ms,
                self.local_address == old(self).local_address,
                discovered@.len() == if filter_attempted {
                    spec_candidate_endpoints(addrs@.take(i as int), att, ban).len() as int
                } else {
                    i as int
                },
                forall|j: int|
                    0 <= j < discovered@.len() ==> (#[trigger] discovered@[j]).address == (
                    if filter_attempted {
                        spec_candidate_endpoints(addrs@.take(i as int), att, ban)[j]
                    } else {
                        addrs@[j]
                    }),
                forall|j: int|
                    0 <= j < discovered@.len() ==> {
                        &&& (#[trigger] discovered@[j]).id == spec_peer_id_from_endpoint(
                            discovered@[j].address,
                        )
                        &&& discovered@[j].protocol_version == 1
                        &&& discovered@[j].service_bits == 1
                        &&& discovered@[j].user_agent@ == "unknown"@
                        &&& discovered@[j].capabilities@.len() == 1
                        &&& discovered@[j].capabilities@[0]@ == "FULL_NODE"@
                    },
                forall|p: PeerId| #[trigger]
                    spec_book_has(self.known_peers@, p) == (spec_book_has(
                        old(self).known_peers@,
                        p,
                    ) || spec_surfaced_has(discovered@, p)),
            decreases addrs@.len() - i,
        {
            let addr = addrs[i];
            proof {
                assert(addrs@.take(i as int + 1).drop_last() =~= addrs@.take(i as int));
                assert(addrs@.take(i as int + 1).last() == addrs@[i as int]);
            }
            let skip = filter_attempted && !self.is_candidate(&addr);
            let ghost old_discovered = discovered@;
            let ghost book_before = self.known_peers@;
            if !skip {
                let peer_id = peer_id_from_endpoint(&addr);
                let mut capabilities: Vec<String> = Vec::new();
                capabilities.push("FULL_NODE".to_owned());
                let info = PeerInfo {
                    id: peer_id,
                    address: addr,
                    protocol_version: 1,
                    user_agent: "unknown".to_owned(),
                    capabilities,
                    service_bits: 1,
                };
                self.add_peer(peer_id, addr, 1, "unknown".to_owned(), source, now);
                proof {
                    assert(addrs@[i as int] == addr);
                }
                discovered.push(info);
                proof {
                    assert(discovered@[discovered@.len() - 1].id == peer_id);
                }
            }
            proof {
                assert forall|p: PeerId| #[trigger]
                    spec_book_has(self.known_peers@, p) == (spec_book_has(
                        old(self).known_peers@,
                        p,
                    ) || spec_surfaced_has(discovered@, p)) by {
                    if spec_surfaced_has(discovered@, p) {
                        let j = choose|j: int|
                            0 <= j < discovered@.len() && (#[trigger] discovered@[j]).id == p;
                        if j < old_discovered.len() {
                            assert(old_discovered[j].id == p);
                        }
                    }
                    if spec_surfaced_has(old_discovered, p) {
                        let j = choose|j: int|
                            0 <= j < old_discovered.len() && (#[trigger] old_discovered[j]).id
                                == p;
                        assert(discovered@[j].id == p);
                    }
                };
            }
            i = i + 1;
        }
        proof {
            assert(addrs@.take(addrs@.len() as int) =~= addrs@);
        }
        discovered
    }

    /// Get a list of all known peers.
    pub fn get_known_peers(&self) -> (r: Vec<PeerInfo>)
        ensures
            r@.len() == self.known_peers@.len(),
            forall|i: int|
                0 <= i < r@.len() ==> {
                    &&& (#[trigger] r@[i]).id == self.known_peers@[i].0
                    &&& r@[i].address == self.known_peers@[i].1.address
                    &&& r@[i].protocol_version == self.known_peers@[i].1.protocol_version
                },
    {
        let mut out: Vec<PeerInfo> = Vec::new();
        let mut i: usize = 0;
        while i < self.known_peers.len()
            invariant
                i <= self.known_peers@.len(),
                out@.len() == i,
                forall|j: int|
                    0 <= j < i ==> {
                        &&& (#[trigger] out@[j]).id == self.known_peers@[j].0
                        &&& out@[j].address == self.known_peers@[j].1.address
                        &&& out@[j].protocol_version == self.known_peers@[j].1.protocol_version
                    },
            decreases self.known_peers@.len() - i,
        {
            let entry = &self.known_peers[i];
            let mut capabilities: Vec<String> = Vec::new();
            capabilities.push("FULL_NODE".to_owned());
            out.push(
                PeerInfo {
                    id: entry.0,
                    address: entry.1.address,
                    protocol_version: entry.1.protocol_version,
                    user_agent: entry.1.user_agent.clone(),
                    capabilities,
                    service_bits: 1,
                },
            );
            i = i + 1;
        }
        out
    }
}

} // verus!
