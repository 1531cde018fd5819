//! Network security: Sybil protection, reputation, rate limiting and bans.

use vstd::prelude::*;
use crate::counters::{
    spec_sat_add, spec_sat_sub, CountKey, CountMap, IpSubnet,
};
use crate::types::{DisconnectReason, Endpoint, IpAddress, NetworkError, PeerId};

verus! {

/// IPv4 subnet: a base address and a prefix length in bits.
#[derive(Clone, Copy, Debug, PartialEq, Eq, Structural, Hash)]
pub struct Ipv4Subnet {
    pub base: u32,
    pub prefix_len: u8,
}

/// IPv6 subnet: a base address (high and low 64 bits) and a prefix length.
#[derive(Clone, Copy, Debug, PartialEq, Eq, Structural, Hash)]
pub struct Ipv6Subnet {
    pub base_hi: u64,
    pub base_lo: u64,
    pub prefix_len: u8,
}

/// The bit mask selecting the first `prefix_len` bits of an IPv4 address.
pub open spec fn spec_v4_mask(prefix_len: u8) -> u32 {
    if prefix_len == 0 {
        0u32
    } else if prefix_len >= 32 {
        u32::MAX
    } else {
        u32::MAX << ((32 - prefix_len) as u32)
    }
}

impl Ipv4Subnet {
    pub fn new(base: u32, prefix_len: u8) -> (r: Ipv4Subnet)
        ensures
            r == (Ipv4Subnet { base, prefix_len }),
    {
        Ipv4Subnet { base, prefix_len }
    }

    /// Whether an address lies in this subnet: the first `prefix_len` bits
    /// agree with the base address.
    pub fn contains(&self, ip: u32) -> (r: bool)
        ensures
            r == ((self.base & spec_v4_mask(self.prefix_len)) == (ip & spec_v4_mask(
                self.prefix_len,
            ))),
    {
        let mask: u32 = if self.prefix_len == 0 {
            0
        } else if self.prefix_len >= 32 {
            u32::MAX
        } else {
            u32::MAX << ((32 - self.prefix_len) as u32)
        };
        (self.base & mask) == (ip & mask)
    }
}

impl Ipv6Subnet {
    pub fn new(base_hi: u64, base_lo: u64, prefix_len: u8) -> (r: Ipv6Subnet)
        ensures
            r == (Ipv6Subnet { base_hi, base_lo, prefix_len }),
    {
        Ipv6Subnet { base_hi, base_lo, prefix_len }
    }
}

/// The grouping subnet of an address: /24 for IPv4, /48 for IPv6.
pub open spec fn spec_subnet_of(ip: IpAddress) -> IpSubnet {
    match ip {
        IpAddress::V4(bits) => IpSubnet::V4(bits >> 8),
        IpAddress::V6(hi, _lo) => IpSubnet::V6(hi >> 16),
    }
}

/// Group an address into its /24 (IPv4) or /48 (IPv6) subnet.
pub fn subnet_of(ip: IpAddress) -> (r: IpSubnet)
    ensures
        r == spec_subnet_of(ip),
{
    match ip {
        IpAddress::V4(bits) => IpSubnet::V4(bits >> 8u32),
        IpAddress::V6(hi, _lo) => IpSubnet::V6(hi >> 16u64),
    }
}

/// Levels of IP address restriction.
#[derive(Clone, Copy, Debug, PartialEq, Eq, Structural)]
pub enum AddressRestrictionLevel {
    NoRestriction,
    LimitPerIp,
    LimitPerSubnet,
    LimitPerAsn,
}

/// ASN lookup service.
///
/// Maps an address to its autonomous system number.  This build carries no
/// routing database and places every address in one private ASN, as the
/// surrounding logic treats the mapping as opaque.
pub struct IpAsnLookup {}

impl IpAsnLookup {
    pub fn new() -> (r: IpAsnLookup) {
        IpAsnLookup {}
    }

    pub fn get_asn_for_ip(&self, _ip: IpAddress) -> (r: Option<u32>)
        ensures
            r == Some(64496u32),
    {
        Some(64496)
    }
}

/// Reputation tracking for peers: an integer penalty ledger.
///
/// Every violation adds penalty points and the score never goes back down;
/// a peer is banned while its score is at or above the threshold.
pub struct ReputationTracker {
    pub scores: CountMap,
    pub ban_threshold: u32,
}

impl ReputationTracker {
    pub open spec fn wf(self) -> bool {
        self.scores.wf()
    }

    /// The penalty score of a peer; unknown peers score zero.
    pub open spec fn spec_score(self, peer_id: PeerId) -> u32 {
        self.scores.spec_get(CountKey::Peer(peer_id))
    }

    pub fn new(ban_threshold: u32) -> (r: ReputationTracker)
        ensures
            r.wf(),
            r.ban_threshold == ban_threshold,
            forall|p: PeerId| r.spec_score(p) == 0,
    {
        ReputationTracker { scores: CountMap::new(), ban_threshold }
    }

    pub fn get_score(&self, peer_id: &PeerId) -> (r: u32)
        requires
            self.wf(),
        ensures
            r == self.spec_score(*peer_id),
    {
        self.scores.get(CountKey::Peer(*peer_id))
    }

    /// Add penalty points to a peer's score.  Scores only ever grow.
    pub fn update_score(&mut self, peer_id: PeerId, penalty: u32)
        requires
            old(self).wf(),
        ensures
            final(self).wf(),
            final(self).ban_threshold == old(self).ban_threshold,
            final(self).spec_score(peer_id) == spec_sat_add(old(self).spec_score(peer_id), penalty),
            final(self).spec_score(peer_id) >= old(self).spec_score(peer_id),
            forall|p: PeerId| p != peer_id ==> final(self).spec_score(p) == old(self).spec_score(p),
    {
        self.scores.add(CountKey::Peer(peer_id), penalty);
        proof {
            assert forall|p: PeerId| p != peer_id implies final(self).spec_score(p) == old(self).spec_score(p) by {
                assert(CountKey::Peer(p) != CountKey::Peer(peer_id));
            };
        }
    }

    /// A peer is banned while its penalty score has reached the threshold.
    pub fn is_banned(&self, peer_id: &PeerId) -> (r: bool)
        requires
            self.wf(),
        ensures
            r == (self.spec_score(*peer_id) >= self.ban_threshold),
    {
        self.get_score(peer_id) >= self.ban_threshold
    }
}

/// Protection against Sybil attacks: per-IP, per-subnet and per-ASN
/// acceptance caps over lock-step connection counters.
pub struct SybilProtection {
    pub min_outbound_connections: usize,
    pub max_inbound_per_ip: u32,
    pub max_inbound_per_subnet: u32,
    pub max_inbound_per_asn: u32,
    pub peer_reputation: ReputationTracker,
    pub address_restriction_level: AddressRestrictionLevel,
    pub connection_counts: CountMap,
    pub ip_address_groups: CountMap,
    pub asn_connection_counts: CountMap,
    pub ip_to_asn_lookup: IpAsnLookup,
}

/// Under the per-subnet restriction level, no subnet exceeds the cap.
pub open spec fn spec_subnet_caps_ok(s: SybilProtection) -> bool {
    s.address_restriction_level == AddressRestrictionLevel::LimitPerSubnet ==> forall|sn: IpSubnet|
        #[trigger] s.ip_address_groups.spec_get(CountKey::Subnet(sn)) <= s.max_inbound_per_subnet
}

impl SybilProtection {
    pub open spec fn wf(self) -> bool {
        &&& self.peer_reputation.wf()
        &&& self.connection_counts.wf()
        &&& self.ip_address_groups.wf()
        &&& self.asn_connection_counts.wf()
    }

    /// Whether an endpoint passes the configured restriction level.
    pub open spec fn spec_allowed(self, ip: IpAddress) -> bool {
        match self.address_restriction_level {
            AddressRestrictionLevel::NoRestriction => true,
            AddressRestrictionLevel::LimitPerIp => self.connection_counts.spec_get(CountKey::Ip(ip))
                < self.max_inbound_per_ip,
            AddressRestrictionLevel::LimitPerSubnet => self.ip_address_groups.spec_get(
                CountKey::Subnet(spec_subnet_of(ip)),
            ) < self.max_inbound_per_subnet,
            AddressRestrictionLevel::LimitPerAsn => self.asn_connection_counts.spec_get(
                CountKey::Asn(64496),
            ) < self.max_inbound_per_asn,
        }
    }

    /// Create a new Sybil protection system.
    pub fn new(
        min_outbound: usize,
        max_per_ip: u32,
        max_per_subnet: u32,
        max_per_asn: u32,
        restriction_level: AddressRestrictionLevel,
    ) -> (r: SybilProtection)
        ensures
            r.wf(),
            spec_subnet_caps_ok(r),
            r.address_restriction_level == restriction_level,
            r.max_inbound_per_ip == max_per_ip,
            r.max_inbound_per_subnet == max_per_subnet,
            r.max_inbound_per_asn == max_per_asn,
            r.min_outbound_connections == min_outbound,
            forall|k: CountKey| r.connection_counts.spec_get(k) == 0,
            forall|k: CountKey| r.ip_address_groups.spec_get(k) == 0,
            forall|k: CountKey| r.asn_connection_counts.spec_get(k) == 0,
    {
        SybilProtection {
            min_outbound_connections: min_outbound,
            max_inbound_per_ip: max_per_ip,
            peer_reputation: ReputationTracker::new(20),
            ip_address_groups: CountMap::new(),
            address_restriction_level: restriction_level,
            connection_counts: CountMap::new(),
            max_inbound_per_subnet: max_per_subnet,
            asn_connection_counts: CountMap::new(),
            ip_to_asn_lookup: IpAsnLookup::new(),
            max_inbound_per_asn: max_per_asn,
        }
    }

    /// Check if a connection from this endpoint should be allowed.
    pub fn is_connection_allowed(&self, addr: &Endpoint) -> (r: bool)
        requires
            self.wf(),
        ensures
            r == self.spec_allowed(addr.ip),
    {
        let ip = addr.ip;
        match self.address_restriction_level {
            AddressRestrictionLevel::NoRestriction => true,
            AddressRestrictionLevel::LimitPerIp => {
                let current = self.connection_counts.get(CountKey::Ip(ip));
                current < self.max_inbound_per_ip
            },
            AddressRestrictionLevel::LimitPerSubnet => {
                let subnet = subnet_of(ip);
                let current = self.ip_address_groups.get(CountKey::Subnet(subnet));
                current < self.max_inbound_per_subnet
            },
            AddressRestrictionLevel::LimitPerAsn => {
                match self.ip_to_asn_lookup.get_asn_for_ip(ip) {
                    Some(asn) => {
                        let current = self.asn_connection_counts.get(CountKey::Asn(asn));
                        current < self.max_inbound_per_asn
                    },
                    None => {
                        // fall back to the subnet restriction when the ASN of
                        // the address is unknown
                        let subnet = subnet_of(ip);
                        let current = self.ip_address_groups.get(CountKey::Subnet(subnet));
                        current < self.max_inbound_per_subnet
                    },
                }
            },
        }
    }

    /// Record a new connection: raise the IP, subnet and ASN counters in
    /// lock-step.
    pub fn record_connection(&mut self, addr: Endpoint)
        requires
            old(self).wf(),
        ensures
            final(self).wf(),
            final(self).connection_counts.spec_get(CountKey::Ip(addr.ip)) == spec_sat_add(
                old(self).connection_counts.spec_get(CountKey::Ip(addr.ip)),
                1,
            ),
            final(self).ip_address_groups.spec_get(CountKey::Subnet(spec_subnet_of(addr.ip)))
                == spec_sat_add(
                old(self).ip_address_groups.spec_get(CountKey::Subnet(spec_subnet_of(addr.ip))),
                1,
            ),
            final(self).asn_connection_counts.spec_get(CountKey::Asn(64496)) == spec_sat_add(
                old(self).asn_connection_counts.spec_get(CountKey::Asn(64496)),
                1,
            ),
            forall|k: CountKey|
                k != CountKey::Ip(addr.ip) ==> final(self).connection_counts.spec_get(k) == old(self).connection_counts.spec_get(k),
            forall|k: CountKey|
                k != CountKey::Subnet(spec_subnet_of(addr.ip)) ==> final(self).ip_address_groups.spec_get(k) == old(self).ip_address_groups.spec_get(k),
            forall|k: CountKey|
                k != CountKey::Asn(64496) ==> final(self).asn_connection_counts.spec_get(k) == old(
                    self,
                ).asn_connection_counts.spec_get(k),
            final(self).address_restriction_level == old(self).address_restriction_level,
            final(self).max_inbound_per_ip == old(self).max_inbound_per_ip,
            final(self).max_inbound_per_subnet == old(self).max_inbound_per_subnet,
            final(self).max_inbound_per_asn == old(self).max_inbound_per_asn,
            final(self).peer_reputation == old(self).peer_reputation,
    {
        let ip = addr.ip;
        self.connection_counts.add(CountKey::Ip(ip), 1);
        let subnet = subnet_of(ip);
        self.ip_address_groups.add(CountKey::Subnet(subnet), 1);
        match self.ip_to_asn_lookup.get_asn_for_ip(ip) {
            Some(asn) => {
                self.asn_connection_counts.add(CountKey::Asn(asn), 1);
            },
            None => {},
        }
    }

    /// Record a disconnection: lower the three counters in lock-step,
    /// saturating at zero.
    pub fn record_disconnection(&mut self, addr: Endpoint)
        requires
            old(self).wf(),
        ensures
            final(self).wf(),
            final(self).connection_counts.spec_get(CountKey::Ip(addr.ip)) == spec_sat_sub(
                old(self).connection_counts.spec_get(CountKey::Ip(addr.ip)),
                1,
            ),
            final(self).ip_address_groups.spec_get(CountKey::Subnet(spec_subnet_of(addr.ip)))
                == spec_sat_sub(
                old(self).ip_address_groups.spec_get(CountKey::Subnet(spec_subnet_of(addr.ip))),
                1,
            ),
            final(self).asn_connection_counts.spec_get(CountKey::Asn(64496)) == spec_sat_sub(
                old(self).asn_connection_counts.spec_get(CountKey::Asn(64496)),
                1,
            ),
            forall|k: CountKey|
                k != CountKey::Ip(addr.ip) ==> final(self).connection_counts.spec_get(k) == old(self).connection_counts.spec_get(k),
            forall|k: CountKey|
                k != CountKey::Subnet(spec_subnet_of(addr.ip)) ==> final(self).ip_address_groups.spec_get(k) == old(self).ip_address_groups.spec_get(k),
            forall|k: CountKey|
                k != CountKey::Asn(64496) ==> final(self).asn_connection_counts.spec_get(k) == old(
                    self,
                ).asn_connection_counts.spec_get(k),
            final(self).address_restriction_level == old(self).address_restriction_level,
            final(self).max_inbound_per_ip == old(self).max_inbound_per_ip,
            final(self).max_inbound_per_subnet == old(self).max_inbound_per_subnet,
            final(self).max_inbound_per_asn == old(self).max_inbound_per_asn,
            final(self).peer_reputation == old(self).peer_reputation,
            // the caps are never violated by a disconnection
            spec_subnet_caps_ok(*old(self)) ==> spec_subnet_caps_ok(*final(self)),
    {
        let ip = addr.ip;
        self.connection_counts.sub(CountKey::Ip(ip), 1);
        let subnet = subnet_of(ip);
        self.ip_address_groups.sub(CountKey::Subnet(subnet), 1);
        match self.ip_to_asn_lookup.get_asn_for_ip(ip) {
            Some(asn) => {
                self.asn_connection_counts.sub(CountKey::Asn(asn), 1);
            },
            None => {},
        }
        proof {
            if spec_subnet_caps_ok(*old(self)) && self.address_restriction_level
                == AddressRestrictionLevel::LimitPerSubnet {
                assert forall|sn: IpSubnet| #[trigger]
                    self.ip_address_groups.spec_get(CountKey::Subnet(sn))
                        <= self.max_inbound_per_subnet by {
                    assert(old(self).ip_address_groups.spec_get(CountKey::Subnet(sn)) <= old(self).max_inbound_per_subnet);
                };
            }
        }
    }

    /// Admit a connection: check the restriction level and, only if it
    /// passes, record the connection.  Returns whether it was admitted.
    ///
    /// Admission through this gate keeps every subnet at or below the
    /// configured cap.
    pub fn admit_connection(&mut self, addr: Endpoint) -> (r: bool)
        requires
            old(self).wf(),
        ensures
            final(self).wf(),
            r == old(self).spec_allowed(addr.ip),
            !r ==> *final(self) == *old(self),
            r ==> final(self).connection_counts.spec_get(CountKey::Ip(addr.ip)) == spec_sat_add(
                old(self).connection_counts.spec_get(CountKey::Ip(addr.ip)),
                1,
            ),
            r ==> final(self).ip_address_groups.spec_get(CountKey::Subnet(spec_subnet_of(addr.ip)))
                == spec_sat_add(
                old(self).ip_address_groups.spec_get(CountKey::Subnet(spec_subnet_of(addr.ip))),
                1,
            ),
            final(self).address_restriction_level == old(self).address_restriction_level,
            final(self).max_inbound_per_subnet == old(self).max_inbound_per_subnet,
            // the Sybil cap is an invariant of admission
            spec_subnet_caps_ok(*old(self)) ==> spec_subnet_caps_ok(*final(self)),
    {
        if self.is_connection_allowed(&addr) {
            let ghost pre = *self;
            self.record_connection(addr);
            proof {
                if spec_subnet_caps_ok(pre) && self.address_restriction_level
                    == AddressRestrictionLevel::LimitPerSubnet {
                    assert forall|sn: IpSubnet| #[trigger]
                        self.ip_address_groups.spec_get(CountKey::Subnet(sn))
                            <= self.max_inbound_per_subnet by {
                        assert(pre.ip_address_groups.spec_get(CountKey::Subnet(sn))
                            <= pre.max_inbound_per_subnet);
                        if sn == spec_subnet_of(addr.ip) {
                            assert(pre.ip_address_groups.spec_get(CountKey::Subnet(sn))
                                < pre.max_inbound_per_subnet);
                        }
                    };
                }
            }
            true
        } else {
            false
        }
    }
}

/// Sybil cap: whatever sequence of admissions and disconnections led to this
/// state, under the per-subnet restriction level no /24 (or /48) subnet holds
/// more than the configured maximum of admitted connections.
pub proof fn lemma_sybil_subnet_cap(s: SybilProtection, sn: IpSubnet)
    requires
        spec_subnet_caps_ok(s),
        s.address_restriction_level == AddressRestrictionLevel::LimitPerSubnet,
    ensures
        s.ip_address_groups.spec_get(CountKey::Subnet(sn)) <= s.max_inbound_per_subnet,
{
}

/// Rate limiter using the token bucket algorithm.
///
/// Tokens refill lazily on access at `refill_rate` units per second,
/// computed from the time handed in by the caller.
#[derive(Clone, Copy, Debug, PartialEq, Eq, Structural)]
pub struct RateLimiter {
    pub capacity: u32,
    pub refill_rate: u32,
    pub current_tokens: u32,
    pub last_refill_ms: u64,
}

/// Milliseconds elapsed since the last refill; a clock running backwards
/// counts as no time passed.
pub open spec fn spec_elapsed_ms(last: u64, now: u64) -> int {
    if now >= last {
        now - last
    } else {
        0
    }
}

/// Tokens owed by the elapsed time.
pub open spec fn spec_refill_amount(l: RateLimiter, now: u64) -> int {
    spec_elapsed_ms(l.last_refill_ms, now) * l.refill_rate / 1000
}

/// The bucket after its lazy refill at `now`: tokens grow by the owed
/// amount up to capacity, and the refill time advances only when at least
/// one whole token was owed.
pub open spec fn spec_refilled(l: RateLimiter, now: u64) -> RateLimiter {
    let add = spec_refill_amount(l, now);
    if add > 0 {
        RateLimiter {
            current_tokens: if l.current_tokens + add >= l.capacity {
                l.capacity
            } else {
                (l.current_tokens + add) as u32
            },
            last_refill_ms: now,
            ..l
        }
    } else {
        l
    }
}

impl RateLimiter {
    /// The token count never exceeds the capacity.
    pub open spec fn wf(self) -> bool {
        self.current_tokens <= self.capacity
    }

    /// Create a new rate limiter, full at creation time.
    pub fn new(capacity: u32, refill_rate: u32, now: u64) -> (r: RateLimiter)
        ensures
            r.wf(),
            r.capacity == capacity,
            r.refill_rate == refill_rate,
            r.current_tokens == capacity,
            r.last_refill_ms == now,
    {
        RateLimiter { capacity, refill_rate, current_tokens: capacity, last_refill_ms: now }
    }

    /// Refill tokens owed by the elapsed time.
    fn refill(&mut self, now: u64)
        requires
            old(self).wf(),
        ensures
            final(self).wf(),
            *final(self) == spec_refilled(*old(self), now),
    {
        let elapsed: u64 = if now >= self.last_refill_ms {
            now - self.last_refill_ms
        } else {
            0
        };
        match elapsed.checked_mul(self.refill_rate as u64) {
            Some(product) => {
                let add: u64 = product / 1000;
                if add > 0 {
                    if add >= self.capacity as u64 {
                        self.current_tokens = self.capacity;
                    } else {
                        let sum: u64 = self.current_tokens as u64 + add;
                        if sum >= self.capacity as u64 {
                            self.current_tokens = self.capacity;
                        } else {
                            self.current_tokens = sum as u32;
                        }
                    }
                    self.last_refill_ms = now;
                }
            },
            None => {
                // the product overflows 64 bits, so the owed amount alone
                // exceeds any 32-bit capacity
                proof {
                    let owed = spec_refill_amount(*old(self), now);
                    assert(elapsed * self.refill_rate > u64::MAX);
                    vstd::arithmetic::div_mod::lemma_div_is_ordered(
                        u64::MAX as int + 1,
                        elapsed * self.refill_rate,
                        1000,
                    );
                    assert((u64::MAX as int + 1) / 1000 > u32::MAX as int) by (nonlinear_arith);
                }
                self.current_tokens = self.capacity;
                self.last_refill_ms = now;
            },
        }
    }

    /// Try to consume tokens from the bucket: refill for the elapsed time,
    /// then atomically subtract the amount or fail.
    pub fn try_consume(&mut self, amount: u32, now: u64) -> (r: bool)
        requires
            old(self).wf(),
        ensures
            final(self).wf(),
            r == (spec_refilled(*old(self), now).current_tokens >= amount),
            final(self).capacity == old(self).capacity,
            final(self).refill_rate == old(self).refill_rate,
            final(self).last_refill_ms == spec_refilled(*old(self), now).last_refill_ms,
            r ==> final(self).current_tokens == spec_refilled(*old(self), now).current_tokens
                - amount,
            !r ==> final(self).current_tokens == spec_refilled(*old(self), now).current_tokens,
    {
        self.refill(now);
        if self.current_tokens >= amount {
            self.current_tokens = self.current_tokens - amount;
            true
        } else {
            false
        }
    }
}

/// Resource types for rate limiting.
#[derive(Clone, Copy, Debug, PartialEq, Eq, Structural, Hash)]
pub enum ResourceType {
    InboundConnections,
    RpcRequests,
    BlockRequests,
    TransactionAnnouncements,
    TotalBandwidth,
}

/// Types of violations.
#[derive(Clone, Copy, Debug, PartialEq, Eq, Structural)]
pub enum ViolationType {
    RateLimit(ResourceType),
    ProtocolViolation,
    InvalidMessage,
    InvalidBlock,
    InvalidTransaction,
}

/// The penalty weight of a violation.
pub open spec fn spec_penalty_points(v: ViolationType) -> u32 {
    match v {
        ViolationType::RateLimit(_) => 1,
        ViolationType::InvalidMessage => 2,
        ViolationType::InvalidTransaction => 3,
        ViolationType::ProtocolViolation => 5,
        ViolationType::InvalidBlock => 10,
    }
}

impl ViolationType {
    /// Get penalty points for this violation type.
    pub fn penalty_points(&self) -> (r: u32)
        ensures
            r == spec_penalty_points(*self),
    {
        match self {
            ViolationType::RateLimit(_) => 1,
            ViolationType::ProtocolViolation => 5,
            ViolationType::InvalidMessage => 2,
            ViolationType::InvalidBlock => 10,
            ViolationType::InvalidTransaction => 3,
        }
    }
}

/// Whether an address has an unexpired entry.
pub open spec fn spec_set_active(s: Seq<(IpAddress, u64)>, item: IpAddress, now: u64) -> bool {
    exists|i: int| 0 <= i < s.len() && (#[trigger] s[i]).0 == item && s[i].1 > now
}

/// Set of addresses whose entries expire: used for the ban list.
pub struct ExpiringSet {
    pub entries: Vec<(IpAddress, u64)>,
    pub ttl_ms: u64,
}

impl ExpiringSet {
    /// Entries hold pairwise distinct addresses.
    pub open spec fn wf(self) -> bool {
        forall|i: int, j: int|
            0 <= i < j < self.entries@.len() ==> (#[trigger] self.entries@[i]).0 != (
            #[trigger] self.entries@[j]).0
    }

    /// Create a new expiring set with the given default TTL.
    pub fn new(ttl_ms: u64) -> (r: ExpiringSet)
        ensures
            r.wf(),
            r.ttl_ms == ttl_ms,
            r.entries@.len() == 0,
    {
        ExpiringSet { entries: Vec::new(), ttl_ms }
    }

    fn find_index(&self, item: &IpAddress) -> (r: Option<usize>)
        ensures
            r matches Some(i) ==> i < self.entries@.len() && self.entries@[i as int].0 == *item,
            r is None ==> forall|i: int|
                0 <= i < self.entries@.len() ==> (#[trigger] self.entries@[i]).0 != *item,
    {
        let mut i: usize = 0;
        while i < self.entries.len()
            invariant
                i <= self.entries@.len(),
                forall|j: int| 0 <= j < i ==> (#[trigger] self.entries@[j]).0 != *item,
            decreases self.entries@.len() - i,
        {
            if self.entries[i].0 == *item {
                return Some(i);
            }
            i = i + 1;
        }
        None
    }

    /// Insert an item with a custom expiration, replacing any prior entry.
    pub fn insert(&mut self, item: IpAddress, ttl_ms: u64, now: u64)
        requires
            old(self).wf(),
        ensures
            final(self).wf(),
            final(self).ttl_ms == old(self).ttl_ms,
            // the item's entry expires exactly ttl after now (saturating)
            forall|t: u64|
                spec_set_active(final(self).entries@, item, t) == (t < spec_expiry(now, ttl_ms)),
            // other items are untouched
            forall|it: IpAddress, t: u64|
                it != item ==> spec_set_active(final(self).entries@, it, t) == spec_set_active(
                    old(self).entries@,
                    it,
                    t,
                ),
    {
        let expiry: u64 = if now <= u64::MAX - ttl_ms {
            now + ttl_ms
        } else {
            u64::MAX
        };
        let ghost s_old = self.entries@;
        match self.find_index(&item) {
            Some(i) => {
                self.entries.set(i, (item, expiry));
                proof {
                    let s_new = self.entries@;
                    assert forall|t: u64| spec_set_active(s_new, item, t) == (t < expiry) by {
                        if t < expiry {
                            assert(s_new[i as int] == (item, expiry));
                        }
                        if spec_set_active(s_new, item, t) {
                            let j = choose|j: int|
                                0 <= j < s_new.len() && (#[trigger] s_new[j]).0 == item && s_new[j].1
                                    > t;
                            assert(j == i);
                        }
                    };
                    assert forall|it: IpAddress, t: u64| it != item implies spec_set_active(
                        s_new,
                        it,
                        t,
                    ) == spec_set_active(s_old, it, t) by {
                        if spec_set_active(s_new, it, t) {
                            let j = choose|j: int|
                                0 <= j < s_new.len() && (#[trigger] s_new[j]).0 == it && s_new[j].1
                                    > t;
                            assert(s_old[j] == s_new[j]);
                        }
                        if spec_set_active(s_old, it, t) {
                            let j = choose|j: int|
                                0 <= j < s_old.len() && (#[trigger] s_old[j]).0 == it && s_old[j].1
                                    > t;
                            assert(s_new[j] == s_old[j]);
                        }
                    };
                }
            },
            None => {
                self.entries.push((item, expiry));
                proof {
                    let s_new = self.entries@;
                    assert forall|t: u64| spec_set_active(s_new, item, t) == (t < expiry) by {
                        if t < expiry {
                            assert(s_new[s_new.len() - 1] == (item, expiry));
                        }
                        if spec_set_active(s_new, item, t) {
                            let j = choose|j: int|
                                0 <= j < s_new.len() && (#[trigger] s_new[j]).0 == item && s_new[j].1
                                    > t;
                            assert(j == s_new.len() - 1);
                        }
                    };
                    assert forall|it: IpAddress, t: u64| it != item implies spec_set_active(
                        s_new,
                        it,
                        t,
                    ) == spec_set_active(s_old, it, t) by {
                        if spec_set_active(s_new, it, t) {
                            let j = choose|j: int|
                                0 <= j < s_new.len() && (#[trigger] s_new[j]).0 == it && s_new[j].1
                                    > t;
                            assert(s_old[j] == s_new[j]);
                        }
                        if spec_set_active(s_old, it, t) {
                            let j = choose|j: int|
                                0 <= j < s_old.len() && (#[trigger] s_old[j]).0 == it && s_old[j].1
                                    > t;
                            assert(s_new[j] == s_old[j]);
                        }
                    };
                }
            },
        }
    }

    /// Check if an item is in the set and not expired; an expired entry is
    /// removed on the way.
    pub fn contains(&mut self, item: &IpAddress, now: u64) -> (r: bool)
        requires
            old(self).wf(),
        ensures
            final(self).wf(),
            final(self).ttl_ms == old(self).ttl_ms,
            r == spec_set_active(old(self).entries@, *item, now),
            // what is active at the query time or later is unchanged
            forall|it: IpAddress, t: u64|
                t >= now ==> spec_set_active(final(self).entries@, it, t) == spec_set_active(
                    old(self).entries@,
                    it,
                    t,
                ),
    {
        let ghost s_old = self.entries@;
        match self.find_index(item) {
            Some(i) => {
                let (_, expiry) = self.entries[i];
                if expiry > now {
                    proof {
                        assert(s_old[i as int].0 == *item && s_old[i as int].1 > now);
                    }
                    true
                } else {
                    self.entries.remove(i);
                    proof {
                        let s_new = self.entries@;
                        assert(s_new == s_old.remove(i as int));
                        assert forall|j: int| 0 <= j < s_new.len() implies (#[trigger] s_new[j])
                            == if j < i as int {
                            s_old[j]
                        } else {
                            s_old[j + 1]
                        } by {
                            assert(s_new == s_old.subrange(0, i as int) + s_old.subrange(
                                i as int + 1,
                                s_old.len() as int,
                            ));
                        };
                        if spec_set_active(s_old, *item, now) {
                            let j = choose|j: int|
                                0 <= j < s_old.len() && (#[trigger] s_old[j]).0 == *item
                                    && s_old[j].1 > now;
                            assert(j == i);
                        }
                        assert forall|it: IpAddress, t: u64| t >= now implies spec_set_active(
                            s_new,
                            it,
                            t,
                        ) == spec_set_active(s_old, it, t) by {
                            if spec_set_active(s_new, it, t) {
                                let j = choose|j: int|
                                    0 <= j < s_new.len() && (#[trigger] s_new[j]).0 == it
                                        && s_new[j].1 > t;
                            }
                            if spec_set_active(s_old, it, t) {
                                let j = choose|j: int|
                                    0 <= j < s_old.len() && (#[trigger] s_old[j]).0 == it
                                        && s_old[j].1 > t;
                                assert(j != i);
                                if j < i as int {
                                    assert(s_new[j] == s_old[j]);
                                } else {
                                    assert(s_new[j - 1] == s_old[j]);
                                }
                            }
                        };
                    }
                    false
                }
            },
            None => false,
        }
    }

    /// Insert with the set's default TTL.
    pub fn insert_with_default_ttl(&mut self, item: IpAddress, now: u64)
        requires
            old(self).wf(),
        ensures
            final(self).wf(),
            final(self).ttl_ms == old(self).ttl_ms,
            forall|t: u64|
                spec_set_active(final(self).entries@, item, t) == (t < spec_expiry(
                    now,
                    old(self).ttl_ms,
                )),
            forall|it: IpAddress, t: u64|
                it != item ==> spec_set_active(final(self).entries@, it, t) == spec_set_active(
                    old(self).entries@,
                    it,
                    t,
                ),
    {
        let ttl = self.ttl_ms;
        self.insert(item, ttl, now);
    }
}

/// The saturating expiry time of an entry inserted at `now` with TTL `ttl`.
pub open spec fn spec_expiry(now: u64, ttl: u64) -> u64 {
    if now + ttl <= u64::MAX {
        (now + ttl) as u64
    } else {
        u64::MAX
    }
}

/// Cache of recent violations with per-entry expiry.
pub struct ExpiringCache {
    pub entries: Vec<(PeerId, ViolationType, u64)>,
    pub ttl_ms: u64,
}

/// The unexpired violation recorded for a peer, if any.
pub open spec fn spec_cache_lookup(
    s: Seq<(PeerId, ViolationType, u64)>,
    key: PeerId,
    now: u64,
) -> Option<ViolationType>
    decreases s.len(),
{
    if s.len() == 0 {
        None
    } else if s[0].0 == key && s[0].2 > now {
        Some(s[0].1)
    } else if s[0].0 == key {
        None
    } else {
        spec_cache_lookup(s.drop_first(), key, now)
    }
}

impl ExpiringCache {
    /// Entries hold pairwise distinct peers.
    pub open spec fn wf(self) -> bool {
        forall|i: int, j: int|
            0 <= i < j < self.entries@.len() ==> (#[trigger] self.entries@[i]).0 != (
            #[trigger] self.entries@[j]).0
    }

    /// Create a new expiring cache with the given default TTL.
    pub fn new(ttl_ms: u64) -> (r: ExpiringCache)
        ensures
            r.wf(),
            r.ttl_ms == ttl_ms,
            r.entries@.len() == 0,
    {
        ExpiringCache { entries: Vec::new(), ttl_ms }
    }

    fn find_index(&self, key: &PeerId) -> (r: Option<usize>)
        ensures
            r matches Some(i) ==> i < self.entries@.len() && self.entries@[i as int].0 == *key,
            r is None ==> forall|i: int|
                0 <= i < self.entries@.len() ==> (#[trigger] self.entries@[i]).0 != *key,
    {
        let mut i: usize = 0;
        while i < self.entries.len()
            invariant
                i <= self.entries@.len(),
                forall|j: int| 0 <= j < i ==> (#[trigger] self.entries@[j]).0 != *key,
            decreases self.entries@.len() - i,
        {
            if self.entries[i].0 == *key {
                return Some(i);
            }
            i = i + 1;
        }
        None
    }

    /// With distinct peers, the lookup is decided by any one entry.
    proof fn lemma_lookup_at(s: Seq<(PeerId, ViolationType, u64)>, i: int, now: u64)
        requires
            forall|i2: int, j2: int|
                0 <= i2 < j2 < s.len() ==> (#[trigger] s[i2]).0 != (#[trigger] s[j2]).0,
            0 <= i < s.len(),
        ensures
            spec_cache_lookup(s, s[i].0, now) == if s[i].2 > now {
                Some(s[i].1)
            } else {
                None::<ViolationType>
            },
        decreases s.len(),
    {
        if i > 0 {
            assert(s[0].0 != s[i].0);
            assert(forall|i2: int, j2: int|
                0 <= i2 < j2 < s.drop_first().len() ==> (#[trigger] s.drop_first()[i2]).0 != (
                #[trigger] s.drop_first()[j2]).0);
            assert(s.drop_first()[i - 1] == s[i]);
            Self::lemma_lookup_at(s.drop_first(), i - 1, now);
        }
    }

    /// With distinct peers, an absent peer looks up to nothing.
    proof fn lemma_lookup_absent(s: Seq<(PeerId, ViolationType, u64)>, key: PeerId, now: u64)
        requires
            forall|i: int| 0 <= i < s.len() ==> (#[trigger] s[i]).0 != key,
        ensures
            spec_cache_lookup(s, key, now) is None,
        decreases s.len(),
    {
        if s.len() > 0 {
            assert(forall|i: int|
                0 <= i < s.drop_first().len() ==> (#[trigger] s.drop_first()[i]).0 != key);
            Self::lemma_lookup_absent(s.drop_first(), key, now);
        }
    }

    /// Insert a violation with expiration, replacing any prior entry.
    pub fn insert(&mut self, key: PeerId, value: ViolationType, ttl_ms: u64, now: u64)
        requires
            old(self).wf(),
        ensures
            final(self).wf(),
            final(self).ttl_ms == old(self).ttl_ms,
            forall|t: u64| #[trigger]
                spec_cache_lookup(final(self).entries@, key, t) == if t < spec_expiry(
                    now,
                    ttl_ms,
                ) {
                    Some(value)
                } else {
                    None::<ViolationType>
                },
    {
        let expiry: u64 = if now <= u64::MAX - ttl_ms {
            now + ttl_ms
        } else {
            u64::MAX
        };
        match self.find_index(&key) {
            Some(i) => {
                self.entries.set(i, (key, value, expiry));
                proof {
                    assert forall|t: u64| #[trigger]
                        spec_cache_lookup(self.entries@, key, t) == if t < expiry {
                            Some(value)
                        } else {
                            None::<ViolationType>
                        } by {
                        Self::lemma_lookup_at(self.entries@, i as int, t);
                    };
                }
            },
            None => {
                self.entries.push((key, value, expiry));
                proof {
                    assert forall|t: u64| #[trigger]
                        spec_cache_lookup(self.entries@, key, t) == if t < expiry {
                            Some(value)
                        } else {
                            None::<ViolationType>
                        } by {
                        Self::lemma_lookup_at(self.entries@, self.entries@.len() - 1, t);
                    };
                }
            },
        }
    }

    /// Get the violation recorded for a peer, if it has not expired; an
    /// expired entry is removed on the way.
    pub fn get(&mut self, key: &PeerId, now: u64) -> (r: Option<ViolationType>)
        requires
            old(self).wf(),
        ensures
            final(self).wf(),
            final(self).ttl_ms == old(self).ttl_ms,
            r == spec_cache_lookup(old(self).entries@, *key, now),
            // at most the one expired entry for the key is dropped
            r is Some ==> *final(self) == *old(self),
            r is None ==> (*final(self) == *old(self) || exists|i: int|
                0 <= i < old(self).entries@.len() && (#[trigger] old(self).entries@[i]).0 == *key
                    && old(self).entries@[i].2 <= now && final(self).entries@ == old(
                    self,
                ).entries@.remove(i)),
    {
        let ghost s_old = self.entries@;
        match self.find_index(key) {
            Some(i) => {
                let (_, value, expiry) = self.entries[i];
                proof {
                    Self::lemma_lookup_at(s_old, i as int, now);
                }
                if expiry > now {
                    Some(value)
                } else {
                    self.entries.remove(i);
                    proof {
                        let s_new = self.entries@;
                        assert forall|i2: int, j2: int|
                            0 <= i2 < j2 < s_new.len() implies (#[trigger] s_new[i2]).0 != (
                        #[trigger] s_new[j2]).0 by {
                            assert(s_new == s_old.subrange(0, i as int) + s_old.subrange(
                                i as int + 1,
                                s_old.len() as int,
                            ));
                        };
                    }
                    None
                }
            },
            None => {
                proof {
                    Self::lemma_lookup_absent(s_old, *key, now);
                }
                None
            },
        }
    }

    /// Clean up expired entries.
    pub fn cleanup(&mut self, now: u64)
        requires
            old(self).wf(),
        ensures
            final(self).wf(),
            final(self).ttl_ms == old(self).ttl_ms,
            // exactly the unexpired entries survive
            forall|j: int|
                0 <= j < final(self).entries@.len() ==> old(self).entries@.contains(
                    #[trigger] final(self).entries@[j],
                ) && final(self).entries@[j].2 > now,
            forall|k: int|
                0 <= k < old(self).entries@.len() && (#[trigger] old(self).entries@[k]).2 > now
                    ==> final(self).entries@.contains(old(self).entries@[k]),
    {
        let ghost s = self.entries@;
        let mut kept: Vec<(PeerId, ViolationType, u64)> = Vec::new();
        let mut i: usize = 0;
        while i < self.entries.len()
            invariant
                i <= s.len(),
                self.entries@ == s,
                forall|j: int|
                    0 <= j < kept@.len() ==> ((#[trigger] kept@[j]).2 > now && exists|k: int|
                        0 <= k < i && (#[trigger] s[k]) == kept@[j]),
                forall|k: int|
                    0 <= k < i && (#[trigger] s[k]).2 > now ==> kept@.contains(s[k]),
                forall|i2: int, j2: int|
                    0 <= i2 < j2 < s.len() ==> (#[trigger] s[i2]).0 != (#[trigger] s[j2]).0,
                forall|i2: int, j2: int|
                    0 <= i2 < j2 < kept@.len() ==> (#[trigger] kept@[i2]).0 != (
                    #[trigger] kept@[j2]).0,
            decreases s.len() - i,
        {
            let entry = self.entries[i];
            let ghost old_kept = kept@;
            if entry.2 > now {
                proof {
                    assert forall|j: int| 0 <= j < kept@.len() implies (#[trigger] kept@[j]).0
                        != s[i as int].0 by {
                        let k = choose|k: int| 0 <= k < i && (#[trigger] s[k]) == kept@[j];
                    };
                }
                kept.push(entry);
            }
            proof {
                assert forall|k: int|
                    0 <= k < i + 1 && (#[trigger] s[k]).2 > now implies kept@.contains(s[k]) by {
                    if k < i {
                        assert(old_kept.contains(s[k]));
                        let j = choose|j: int|
                            0 <= j < old_kept.len() && (#[trigger] old_kept[j]) == s[k];
                        assert(kept@[j] == s[k]);
                    } else {
                        assert(kept@[kept@.len() - 1] == s[k]);
                    }
                };
            }
            i = i + 1;
        }
        proof {
            assert forall|j: int| 0 <= j < kept@.len() implies s.contains(#[trigger] kept@[j]) by {
                let k = choose|k: int| 0 <= k < s.len() && (#[trigger] s[k]) == kept@[j];
            };
        }
        self.entries = kept;
    }
}

/// The ban duration in hours for a penalty score: exponential in the score,
/// capped at one week.
pub open spec fn spec_ban_hours(score: u32) -> u64 {
    if score / 5 >= 8 {
        168
    } else {
        ((1u64 << ((score / 5) as u64)) - 1) as u64
    }
}

/// The ban duration in milliseconds for a penalty score.
pub open spec fn spec_ban_duration_ms(score: u32) -> u64 {
    (spec_ban_hours(score) * 3600000) as u64
}

/// The exponential ban duration never exceeds one week.
pub proof fn lemma_ban_duration_cap(score: u32)
    ensures
        spec_ban_hours(score) <= 168,
        spec_ban_duration_ms(score) <= 168 * 3600000,
{
    let e = (score / 5) as u64;
    if e < 8 {
        assert(e < 8 ==> 1 <= (1u64 << e) <= 128) by (bit_vector);
        assert(spec_ban_hours(score) <= 168);
    }
}

/// A ban decided by the DoS protection: the connection manager owns the
/// sockets, so the decision is handed back as an event to act on.
#[derive(Clone, Copy, Debug, PartialEq, Eq, Structural)]
pub struct BanAction {
    pub peer_id: PeerId,
    pub addr: IpAddress,
    pub duration_ms: u64,
    pub reason: DisconnectReason,
}

/// The first address recorded for a peer.
pub open spec fn spec_peer_addr(s: Seq<(PeerId, IpAddress)>, p: PeerId) -> Option<IpAddress>
    decreases s.len(),
{
    if s.len() == 0 {
        None
    } else if s[0].0 == p {
        Some(s[0].1)
    } else {
        spec_peer_addr(s.drop_first(), p)
    }
}

/// The limiter configured for a resource type.
pub open spec fn spec_limiter_of(
    s: Seq<(ResourceType, RateLimiter)>,
    rt: ResourceType,
) -> Option<RateLimiter>
    decreases s.len(),
{
    if s.len() == 0 {
        None
    } else if s[0].0 == rt {
        Some(s[0].1)
    } else {
        spec_limiter_of(s.drop_first(), rt)
    }
}

/// Limiter keys are pairwise distinct.
pub open spec fn spec_unique_limiters(s: Seq<(ResourceType, RateLimiter)>) -> bool {
    forall|i: int, j: int| 0 <= i < j < s.len() ==> (#[trigger] s[i]).0 != (#[trigger] s[j]).0
}

/// With distinct keys, the limiter at an index is what the lookup returns.
proof fn lemma_limiter_at(s: Seq<(ResourceType, RateLimiter)>, i: int)
    requires
        spec_unique_limiters(s),
        0 <= i < s.len(),
    ensures
        spec_limiter_of(s, s[i].0) == Some(s[i].1),
    decreases s.len(),
{
    if i > 0 {
        assert(s[0].0 != s[i].0);
        assert(forall|i2: int, j2: int|
            0 <= i2 < j2 < s.drop_first().len() ==> (#[trigger] s.drop_first()[i2]).0 != (
            #[trigger] s.drop_first()[j2]).0);
        assert(s.drop_first()[i - 1] == s[i]);
        lemma_limiter_at(s.drop_first(), i - 1);
    }
}

/// Updating a limiter in place changes only that resource's lookup.
proof fn lemma_limiter_update(s: Seq<(ResourceType, RateLimiter)>, i: int, l: RateLimiter)
    requires
        spec_unique_limiters(s),
        0 <= i < s.len(),
    ensures
        spec_limiter_of(s.update(i, (s[i].0, l)), s[i].0) == Some(l),
        forall|rt: ResourceType|
            rt != s[i].0 ==> spec_limiter_of(s.update(i, (s[i].0, l)), rt) == spec_limiter_of(
                s,
                rt,
            ),
        spec_unique_limiters(s.update(i, (s[i].0, l))),
    decreases s.len(),
{
    let t = s.update(i, (s[i].0, l));
    assert(spec_unique_limiters(t)) by {
        assert(forall|i2: int| 0 <= i2 < t.len() ==> (#[trigger] t[i2]).0 == s[i2].0);
    }
    if i == 0 {
        assert(t.drop_first() =~= s.drop_first());
        assert forall|rt: ResourceType| rt != s[0].0 implies spec_limiter_of(t, rt)
            == spec_limiter_of(s, rt) by {
            assert(spec_limiter_of(t, rt) == spec_limiter_of(t.drop_first(), rt));
            assert(spec_limiter_of(s, rt) == spec_limiter_of(s.drop_first(), rt));
        };
    } else {
        let sd = s.drop_first();
        assert(t.drop_first() =~= sd.update(i - 1, (s[i].0, l)));
        assert(forall|i2: int, j2: int|
            0 <= i2 < j2 < sd.len() ==> (#[trigger] sd[i2]).0 != (#[trigger] sd[j2]).0);
        assert(sd[i - 1] == s[i]);
        lemma_limiter_update(sd, i - 1, l);
        assert(s[0].0 != s[i].0);
        assert(t[0] == s[0]);
        let td = sd.update(i - 1, (s[i].0, l));
        assert(spec_limiter_of(t, s[i].0) == spec_limiter_of(td, s[i].0));
        assert forall|rt: ResourceType| rt != s[i].0 implies spec_limiter_of(t, rt)
            == spec_limiter_of(s, rt) by {
            if s[0].0 != rt {
                assert(spec_limiter_of(t, rt) == spec_limiter_of(td, rt));
                assert(spec_limiter_of(td, rt) == spec_limiter_of(sd, rt));
                assert(spec_limiter_of(s, rt) == spec_limiter_of(sd, rt));
            }
        };
    }
}

/// DoS protection: a family of token buckets keyed by resource type, a
/// penalty ledger, and a banned-address set with per-entry expiry.
///
/// Bans are returned as [`BanAction`] events; the connection manager is the
/// sole owner of sockets and acts on them.
pub struct DoSProtection {
    pub rate_limiters: Vec<(ResourceType, RateLimiter)>,
    pub ban_threshold: u32,
    pub penalty_scores: CountMap,
    pub recent_violators: ExpiringCache,
    pub whitelist: Vec<IpAddress>,
    pub peer_to_addr: Vec<(PeerId, IpAddress)>,
    pub banned_addresses: ExpiringSet,
}

impl DoSProtection {
    pub open spec fn wf(self) -> bool {
        &&& spec_unique_limiters(self.rate_limiters@)
        &&& forall|i: int|
            0 <= i < self.rate_limiters@.len() ==> (#[trigger] self.rate_limiters@[i]).1.wf()
        &&& self.penalty_scores.wf()
        &&& self.recent_violators.wf()
        &&& self.banned_addresses.wf()
    }

    /// The penalty score of a peer.
    pub open spec fn spec_score(self, p: PeerId) -> u32 {
        self.penalty_scores.spec_get(CountKey::Peer(p))
    }

    /// Whether a peer's recorded address is whitelisted.
    pub open spec fn spec_whitelisted(self, p: PeerId) -> bool {
        match spec_peer_addr(self.peer_to_addr@, p) {
            Some(addr) => self.whitelist@.contains(addr),
            None => false,
        }
    }

    /// Create a new DoS protection system with one token bucket per
    /// resource type: inbound connections, RPC requests, block requests,
    /// transaction announcements and total bandwidth.
    pub fn new(whitelist: Vec<IpAddress>, now: u64) -> (r: DoSProtection)
        ensures
            r.wf(),
            r.ban_threshold == 20,
            r.whitelist == whitelist,
            r.peer_to_addr@.len() == 0,
            forall|p: PeerId| r.spec_score(p) == 0,
            spec_limiter_of(r.rate_limiters@, ResourceType::InboundConnections) == Some(
                RateLimiter { capacity: 5, refill_rate: 1, current_tokens: 5, last_refill_ms: now },
            ),
            spec_limiter_of(r.rate_limiters@, ResourceType::BlockRequests) == Some(
                RateLimiter {
                    capacity: 10,
                    refill_rate: 2,
                    current_tokens: 10,
                    last_refill_ms: now,
                },
            ),
            spec_limiter_of(r.rate_limiters@, ResourceType::TransactionAnnouncements) == Some(
                RateLimiter {
                    capacity: 100,
                    refill_rate: 50,
                    current_tokens: 100,
                    last_refill_ms: now,
                },
            ),
            spec_limiter_of(r.rate_limiters@, ResourceType::TotalBandwidth) == Some(
                RateLimiter {
                    capacity: 1000000,
                    refill_rate: 500000,
                    current_tokens: 1000000,
                    last_refill_ms: now,
                },
            ),
            spec_limiter_of(r.rate_limiters@, ResourceType::RpcRequests) == Some(
                RateLimiter { capacity: 10, refill_rate: 5, current_tokens: 10, last_refill_ms: now },
            ),
            r.banned_addresses.entries@.len() == 0,
    {
        let mut rate_limiters: Vec<(ResourceType, RateLimiter)> = Vec::new();
        rate_limiters.push((ResourceType::InboundConnections, RateLimiter::new(5, 1, now)));
        rate_limiters.push((ResourceType::RpcRequests, RateLimiter::new(10, 5, now)));
        rate_limiters.push((ResourceType::BlockRequests, RateLimiter::new(10, 2, now)));
        rate_limiters.push(
            (ResourceType::TransactionAnnouncements, RateLimiter::new(100, 50, now)),
        );
        rate_limiters.push((ResourceType::TotalBandwidth, RateLimiter::new(1000000, 500000, now)));
        proof {
            let sl = rate_limiters@;
            assert(sl.len() == 5);
            let s1 = sl.drop_first();
            let s2 = s1.drop_first();
            let s3 = s2.drop_first();
            let s4 = s3.drop_first();
            assert(s1.len() == 4 && s1[0] == sl[1] && s1[1] == sl[2] && s1[2] == sl[3] && s1[3]
                == sl[4]);
            assert(s2.len() == 3 && s2[0] == sl[2] && s2[1] == sl[3] && s2[2] == sl[4]);
            assert(s3.len() == 2 && s3[0] == sl[3] && s3[1] == sl[4]);
            assert(s4.len() == 1 && s4[0] == sl[4]);
            assert(spec_limiter_of(sl, ResourceType::RpcRequests) == spec_limiter_of(
                s1,
                ResourceType::RpcRequests,
            ));
            assert(spec_limiter_of(sl, ResourceType::BlockRequests) == spec_limiter_of(
                s1,
                ResourceType::BlockRequests,
            ));
            assert(spec_limiter_of(s1, ResourceType::BlockRequests) == spec_limiter_of(
                s2,
                ResourceType::BlockRequests,
            ));
            assert(spec_limiter_of(sl, ResourceType::TransactionAnnouncements)
                == spec_limiter_of(s1, ResourceType::TransactionAnnouncements));
            assert(spec_limiter_of(s1, ResourceType::TransactionAnnouncements)
                == spec_limiter_of(s2, ResourceType::TransactionAnnouncements));
            assert(spec_limiter_of(s2, ResourceType::TransactionAnnouncements)
                == spec_limiter_of(s3, ResourceType::TransactionAnnouncements));
            assert(spec_limiter_of(sl, ResourceType::TotalBandwidth) == spec_limiter_of(
                s1,
                ResourceType::TotalBandwidth,
            ));
            assert(spec_limiter_of(s1, ResourceType::TotalBandwidth) == spec_limiter_of(
                s2,
                ResourceType::TotalBandwidth,
            ));
            assert(spec_limiter_of(s2, ResourceType::TotalBandwidth) == spec_limiter_of(
                s3,
                ResourceType::TotalBandwidth,
            ));
            assert(spec_limiter_of(s3, ResourceType::TotalBandwidth) == spec_limiter_of(
                s4,
                ResourceType::TotalBandwidth,
            ));
        }
        DoSProtection {
            rate_limiters,
            ban_threshold: 20,
            penalty_scores: CountMap::new(),
            recent_violators: ExpiringCache::new(900000),
            whitelist,
            peer_to_addr: Vec::new(),
            banned_addresses: ExpiringSet::new(86400000),
        }
    }

    /// Record the address a peer connected from, for whitelisting and bans.
    pub fn set_peer_address(&mut self, peer_id: PeerId, addr: IpAddress)
        requires
            old(self).wf(),
        ensures
            final(self).wf(),
            spec_peer_addr(final(self).peer_to_addr@, peer_id) is Some,
    {
        self.peer_to_addr.push((peer_id, addr));
        proof {
            assert(self.peer_to_addr@[self.peer_to_addr@.len() - 1].0 == peer_id);
            lemma_peer_addr_present(self.peer_to_addr@, peer_id);
        }
    }

    fn lookup_peer_addr(&self, peer_id: &PeerId) -> (r: Option<IpAddress>)
        ensures
            r == spec_peer_addr(self.peer_to_addr@, *peer_id),
    {
        let mut i: usize = 0;
        proof {
            assert(self.peer_to_addr@.skip(0) =~= self.peer_to_addr@);
        }
        while i < self.peer_to_addr.len()
            invariant
                i <= self.peer_to_addr@.len(),
                spec_peer_addr(self.peer_to_addr@, *peer_id) == spec_peer_addr(
                    self.peer_to_addr@.skip(i as int),
                    *peer_id,
                ),
            decreases self.peer_to_addr@.len() - i,
        {
            let (p, a) = self.peer_to_addr[i];
            proof {
                assert(self.peer_to_addr@.skip(i as int)[0] == self.peer_to_addr@[i as int]);
                assert(self.peer_to_addr@.skip(i as int).drop_first() =~= self.peer_to_addr@.skip(
                    i as int + 1,
                ));
            }
            if p == *peer_id {
                return Some(a);
            }
            i = i + 1;
        }
        proof {
            assert(self.peer_to_addr@.skip(self.peer_to_addr@.len() as int) =~= Seq::<
                (PeerId, IpAddress),
            >::empty());
        }
        None
    }

    fn is_whitelisted(&self, peer_id: &PeerId) -> (r: bool)
        ensures
            r == self.spec_whitelisted(*peer_id),
    {
        match self.lookup_peer_addr(peer_id) {
            Some(addr) => {
                let mut i: usize = 0;
                while i < self.whitelist.len()
                    invariant
                        i <= self.whitelist@.len(),
                        spec_peer_addr(self.peer_to_addr@, *peer_id) == Some(addr),
                        forall|j: int| 0 <= j < i ==> #[trigger] self.whitelist@[j] != addr,
                    decreases self.whitelist@.len() - i,
                {
                    if self.whitelist[i] == addr {
                        proof {
                            assert(self.whitelist@[i as int] == addr);
                            assert(self.whitelist@.contains(addr));
                        }
                        return true;
                    }
                    i = i + 1;
                }
                false
            },
            None => false,
        }
    }

    /// Check if an action fits within the rate limits and consume from the
    /// bucket.  Whitelisted peers are never limited; a resource with no
    /// configured bucket is reported as unavailable.
    pub fn check_rate_limit(
        &mut self,
        resource: ResourceType,
        peer_id: &PeerId,
        amount: u32,
        now: u64,
    ) -> (r: Result<(), NetworkError>)
        requires
            old(self).wf(),
        ensures
            final(self).wf(),
            old(self).spec_whitelisted(*peer_id) ==> r is Ok && *final(self) == *old(self),
            (!old(self).spec_whitelisted(*peer_id) && spec_limiter_of(
                old(self).rate_limiters@,
                resource,
            ) is None) ==> ((r matches Err(e) && e matches NetworkError::Other(_)) && *final(self)
                == *old(self)),
            (!old(self).spec_whitelisted(*peer_id) && spec_limiter_of(
                old(self).rate_limiters@,
                resource,
            ) is Some) ==> {
                let l = spec_limiter_of(old(self).rate_limiters@, resource)->Some_0;
                &&& (r is Ok <==> spec_refilled(l, now).current_tokens >= amount)
                &&& (r is Err ==> r == Err::<(), NetworkError>(NetworkError::RateLimitExceeded))
                &&& spec_limiter_of(final(self).rate_limiters@, resource) is Some
                &&& {
                    let l2 = spec_limiter_of(final(self).rate_limiters@, resource)->Some_0;
                    &&& l2.capacity == l.capacity
                    &&& l2.refill_rate == l.refill_rate
                    &&& l2.last_refill_ms == spec_refilled(l, now).last_refill_ms
                    &&& (r is Ok ==> l2.current_tokens == spec_refilled(l, now).current_tokens
                        - amount)
                    &&& (r is Err ==> l2.current_tokens == spec_refilled(l, now).current_tokens)
                }
                &&& forall|rt: ResourceType|
                    rt != resource ==> spec_limiter_of(final(self).rate_limiters@, rt)
                        == spec_limiter_of(old(self).rate_limiters@, rt)
                &&& final(self).penalty_scores == old(self).penalty_scores
                &&& final(self).banned_addresses == old(self).banned_addresses
            },
    {
        if self.is_whitelisted(peer_id) {
            return Ok(());
        }
        let mut i: usize = 0;
        let mut found: Option<usize> = None;
        while i < self.rate_limiters.len()
            invariant
                i <= self.rate_limiters@.len(),
                found matches Some(fi) ==> fi < self.rate_limiters@.len()
                    && self.rate_limiters@[fi as int].0 == resource,
                found is None ==> forall|j: int|
                    0 <= j < i ==> (#[trigger] self.rate_limiters@[j]).0 != resource,
            decreases self.rate_limiters@.len() - i,
        {
            if found.is_none() && self.rate_limiters[i].0 == resource {
                found = Some(i);
            }
            i = i + 1;
        }
        match found {
            Some(fi) => {
                proof {
                    lemma_limiter_at(self.rate_limiters@, fi as int);
                }
                let (rt, limiter) = self.rate_limiters[fi];
                let mut updated = limiter;
                let ok = updated.try_consume(amount, now);
                proof {
                    lemma_limiter_update(self.rate_limiters@, fi as int, updated);
                }
                self.rate_limiters.set(fi, (rt, updated));
                if ok {
                    Ok(())
                } else {
                    Err(NetworkError::RateLimitExceeded)
                }
            },
            None => {
                proof {
                    lemma_limiter_absent(self.rate_limiters@, resource);
                }
                Err(NetworkError::Other("rate limiter not found".to_owned()))
            },
        }
    }

    /// Record a violation by a peer: remember it, add its penalty weight to
    /// the peer's score, and when the score reaches the ban threshold, ban
    /// the peer's address and hand back the disconnect event.
    ///
    /// Scores never decrease; once over the threshold, the address stays
    /// banned for the computed duration.  Whitelisted addresses are never
    /// banned.
    pub fn record_violation(
        &mut self,
        peer_id: PeerId,
        violation: ViolationType,
        now: u64,
    ) -> (r: Option<BanAction>)
        requires
            old(self).wf(),
        ensures
            final(self).wf(),
            final(self).ban_threshold == old(self).ban_threshold,
            final(self).rate_limiters@ == old(self).rate_limiters@,
            final(self).whitelist@ == old(self).whitelist@,
            final(self).peer_to_addr@ == old(self).peer_to_addr@,
            // the score grows by the violation's penalty weight and never shrinks
            final(self).spec_score(peer_id) == spec_sat_add(
                old(self).spec_score(peer_id),
                spec_penalty_points(violation),
            ),
            final(self).spec_score(peer_id) >= old(self).spec_score(peer_id),
            forall|p: PeerId| p != peer_id ==> final(self).spec_score(p) == old(self).spec_score(p),
            // the violation enters the recent-violator history for its TTL
            forall|t: u64| #[trigger]
                spec_cache_lookup(final(self).recent_violators.entries@, peer_id, t) == if t
                    < spec_expiry(now, 300000) {
                    Some(violation)
                } else {
                    None::<ViolationType>
                },
            // reaching the threshold bans a known, non-whitelisted address
            // for the computed duration
            (final(self).spec_score(peer_id) >= old(self).ban_threshold && spec_peer_addr(
                old(self).peer_to_addr@,
                peer_id,
            ) is Some && !old(self).whitelist@.contains(
                spec_peer_addr(old(self).peer_to_addr@, peer_id)->Some_0,
            )) ==> {
                let addr = spec_peer_addr(old(self).peer_to_addr@, peer_id)->Some_0;
                &&& r == Some(
                    BanAction {
                        peer_id,
                        addr,
                        duration_ms: spec_ban_duration_ms(final(self).spec_score(peer_id)),
                        reason: DisconnectReason::PeerBanned,
                    },
                )
                &&& forall|t: u64|
                    spec_set_active(final(self).banned_addresses.entries@, addr, t) == (t
                        < spec_expiry(
                        now,
                        spec_ban_duration_ms(final(self).spec_score(peer_id)),
                    ))
            },
            // a whitelisted address is never banned
            (spec_peer_addr(old(self).peer_to_addr@, peer_id) is Some && old(
                self,
            ).whitelist@.contains(spec_peer_addr(old(self).peer_to_addr@, peer_id)->Some_0))
                ==> r is None && final(self).banned_addresses == old(self).banned_addresses,
            // below the threshold, nothing is banned
            final(self).spec_score(peer_id) < old(self).ban_threshold ==> r is None && final(self).banned_addresses == old(self).banned_addresses,
            spec_peer_addr(old(self).peer_to_addr@, peer_id) is None ==> r is None && final(self).banned_addresses == old(self).banned_addresses,
    {
        self.recent_violators.insert(peer_id, violation, 300000, now);
        let points = violation.penalty_points();
        self.penalty_scores.add(CountKey::Peer(peer_id), points);
        proof {
            assert forall|p: PeerId| p != peer_id implies self.spec_score(p) == old(
                self,
            ).spec_score(p) by {
                assert(CountKey::Peer(p) != CountKey::Peer(peer_id));
            };
        }
        let score = self.penalty_scores.get(CountKey::Peer(peer_id));
        if score >= self.ban_threshold {
            match self.lookup_peer_addr(&peer_id) {
                Some(addr) => {
                    if self.whitelist_has(&addr) {
                        return None;
                    }
                    let duration = Self::ban_duration_ms(score);
                    self.banned_addresses.insert(addr, duration, now);
                    Some(
                        BanAction {
                            peer_id,
                            addr,
                            duration_ms: duration,
                            reason: DisconnectReason::PeerBanned,
                        },
                    )
                },
                None => None,
            }
        } else {
            None
        }
    }

    /// Whether an address stands on the whitelist.
    fn whitelist_has(&self, addr: &IpAddress) -> (r: bool)
        ensures
            r == self.whitelist@.contains(*addr),
    {
        let mut i: usize = 0;
        while i < self.whitelist.len()
            invariant
                i <= self.whitelist@.len(),
                forall|j: int| 0 <= j < i ==> #[trigger] self.whitelist@[j] != *addr,
            decreases self.whitelist@.len() - i,
        {
            if self.whitelist[i] == *addr {
                proof {
                    assert(self.whitelist@[i as int] == *addr);
                }
                return true;
            }
            i = i + 1;
        }
        false
    }

    /// The ban duration for a penalty score: `2^(score/5) - 1` hours, capped
    /// at one week.
    pub fn ban_duration_ms(score: u32) -> (r: u64)
        ensures
            r == spec_ban_duration_ms(score),
            r <= 168 * 3600000,
    {
        proof {
            lemma_ban_duration_cap(score);
            let eg = (score / 5) as u64;
            assert(eg < 8 ==> 1 <= (1u64 << eg) <= 128) by (bit_vector);
        }
        let e = score / 5;
        let hours: u64 = if e >= 8 {
            168
        } else {
            (1u64 << (e as u64)) - 1
        };
        hours * 3600000
    }

    /// Whether an address is currently banned.
    pub fn is_address_banned(&mut self, addr: &IpAddress, now: u64) -> (r: bool)
        requires
            old(self).wf(),
        ensures
            final(self).wf(),
            r == spec_set_active(old(self).banned_addresses.entries@, *addr, now),
            forall|it: IpAddress, t: u64|
                t >= now ==> spec_set_active(final(self).banned_addresses.entries@, it, t)
                    == spec_set_active(old(self).banned_addresses.entries@, it, t),
            final(self).penalty_scores == old(self).penalty_scores,
            final(self).rate_limiters == old(self).rate_limiters,
    {
        self.banned_addresses.contains(addr, now)
    }
}

/// A pushed peer address is found by the lookup.
proof fn lemma_peer_addr_present(s: Seq<(PeerId, IpAddress)>, p: PeerId)
    requires
        exists|i: int| 0 <= i < s.len() && (#[trigger] s[i]).0 == p,
    ensures
        spec_peer_addr(s, p) is Some,
    decreases s.len(),
{
    if s.len() > 0 && s[0].0 != p {
        let i = choose|i: int| 0 <= i < s.len() && (#[trigger] s[i]).0 == p;
        assert(s.drop_first()[i - 1] == s[i]);
        lemma_peer_addr_present(s.drop_first(), p);
    }
}

/// A resource type that appears nowhere has no limiter.
proof fn lemma_limiter_absent(s: Seq<(ResourceType, RateLimiter)>, rt: ResourceType)
    requires
        forall|i: int| 0 <= i < s.len() ==> (#[trigger] s[i]).0 != rt,
    ensures
        spec_limiter_of(s, rt) is None,
    decreases s.len(),
{
    if s.len() > 0 {
        assert(forall|i: int|
            0 <= i < s.drop_first().len() ==> (#[trigger] s.drop_first()[i]).0 != rt);
        lemma_limiter_absent(s.drop_first(), rt);
    }
}

/// Ban escalation: a banned address stays rejected until its expiry.
pub proof fn lemma_banned_until(
    entries: Seq<(IpAddress, u64)>,
    addr: IpAddress,
    expiry: u64,
    t: u64,
)
    requires
        forall|t2: u64| spec_set_active(entries, addr, t2) == (t2 < expiry),
        t < expiry,
    ensures
        spec_set_active(entries, addr, t),
{
}

} // verus!
