//! Message propagation: policy-driven broadcast fan-out with duplicate
//! suppression, and multi-round pull/push gossip with per-peer "has seen"
//! tracking.

use vstd::prelude::*;
use rand::seq::SliceRandom;
use crate::hash::{spec_digest_of, digest_of_bytes, Digest};
use crate::hash::MessageHash;
use crate::message::{
    hash_message, spec_has_live, spec_hash_message, Message, Protocol, RecentMessages,
};
use crate::types::{NetworkError, PeerId};

verus! {

/// Types of broadcast policies.
///
/// The random-subset fraction is given in thousandths: five hundred
/// per-mille selects half of the connected peers.
#[derive(Clone, Debug)]
pub enum BroadcastPolicy {
    AllPeers,
    RandomSubset { fraction_permille: u32, min_peers: usize },
    ValidatorPriority { validators_first: bool },
    Geographic { prefer_same_region: bool },
}

/// Configuration for broadcast mechanisms.
#[derive(Clone, Debug)]
pub struct BroadcastConfig {
    pub message_ttl_ms: u64,
    pub max_message_size: usize,
    pub protocol_policies: Vec<(Protocol, BroadcastPolicy)>,
    pub default_policy: BroadcastPolicy,
}

/// A connected peer as the broadcast layer sees it.
pub struct PeerConnection {
    pub id: PeerId,
}

/// Capabilities relevant to fan-out decisions.
pub struct PeerCapabilities {
    pub is_validator: bool,
    pub region: Option<String>,
    pub protocols: Vec<Protocol>,
}

/// Relies on rand's `SliceRandom::shuffle`: the slice after the call is a
/// permutation of the slice before it, picked by the thread-local generator.
#[verifier::external_body]
fn shuffle_peer_ids(v: &mut Vec<PeerId>)
    ensures
        final(v)@.to_multiset() == old(v)@.to_multiset(),
        final(v)@.len() == old(v)@.len(),
{
    let mut rng = rand::rng();
    v.as_mut_slice().shuffle(&mut rng);
}

/// The fan-out size of a random subset over `n` peers: the fraction of the
/// peers rounded up, but at least `min_peers`, and never more than `n`.
pub open spec fn spec_subset_count(n: int, fraction_permille: u32, min_peers: usize) -> int {
    let target = (n * fraction_permille + 999) / 1000;
    let with_min = if target >= min_peers {
        target
    } else {
        min_peers as int
    };
    if with_min <= n {
        with_min
    } else {
        n
    }
}

/// Select a uniformly random subset of the peers of the policy's size.
pub fn select_random_peers(
    peers: &Vec<PeerId>,
    fraction_permille: u32,
    min_peers: usize,
) -> (r: Vec<PeerId>)
    requires
        peers@.len() <= u32::MAX,
    ensures
        r@.len() == spec_subset_count(peers@.len() as int, fraction_permille, min_peers),
        forall|i: int| 0 <= i < r@.len() ==> peers@.contains(#[trigger] r@[i]),
        peers@.no_duplicates() ==> r@.no_duplicates(),
{
    let n = peers.len();
    proof {
        assert((n as int) * (fraction_permille as int) + 999 <= u64::MAX as int)
            by (nonlinear_arith)
            requires
                n as int <= u32::MAX as int,
                fraction_permille as int <= u32::MAX as int,
        ;
    }
    let target: u64 = (n as u64 * fraction_permille as u64 + 999) / 1000;
    let with_min: u64 = if target >= min_peers as u64 {
        target
    } else {
        min_peers as u64
    };
    let count: usize = if with_min <= n as u64 {
        with_min as usize
    } else {
        n
    };
    let mut selected: Vec<PeerId> = Vec::new();
    let mut i: usize = 0;
    while i < peers.len()
        invariant
            i <= peers@.len(),
            selected@ == peers@.take(i as int),
        decreases peers@.len() - i,
    {
        selected.push(peers[i]);
        i = i + 1;
    }
    proof {
        assert(selected@ =~= peers@);
    }
    shuffle_peer_ids(&mut selected);
    let ghost shuffled = selected@;
    selected.truncate(count);
    proof {
        broadcast use vstd::seq_lib::group_to_multiset_ensures;

        assert(selected@ == shuffled.take(count as int));
        assert forall|j: int| 0 <= j < selected@.len() implies peers@.contains(
            #[trigger] selected@[j],
        ) by {
            assert(shuffled.contains(shuffled[j]));
            assert(shuffled.to_multiset().count(shuffled[j]) > 0);
            assert(peers@.to_multiset().count(shuffled[j]) > 0);
        };
        if peers@.no_duplicates() {
            peers@.lemma_multiset_has_no_duplicates();
            assert forall|x: PeerId|
                shuffled.to_multiset().contains(x) implies shuffled.to_multiset().count(x)
                == 1 by {
                assert(peers@.to_multiset().count(x) > 0);
            };
            shuffled.lemma_multiset_has_no_duplicates_conv();
            assert forall|i2: int, j2: int|
                0 <= i2 < j2 < selected@.len() implies selected@[i2] != selected@[j2] by {
                assert(shuffled[i2] == selected@[i2] && shuffled[j2] == selected@[j2]);
            };
        }
    }
    selected
}

/// The policy in force for a protocol: the first configured entry, or the
/// default.
pub open spec fn spec_policy_for(
    s: Seq<(Protocol, BroadcastPolicy)>,
    default_policy: BroadcastPolicy,
    p: Protocol,
) -> BroadcastPolicy
    decreases s.len(),
{
    if s.len() == 0 {
        default_policy
    } else if s[0].0 == p {
        s[0].1
    } else {
        spec_policy_for(s.drop_first(), default_policy, p)
    }
}

/// The first configured entry for a protocol decides its policy.
proof fn lemma_policy_at(
    s: Seq<(Protocol, BroadcastPolicy)>,
    default_policy: BroadcastPolicy,
    p: Protocol,
    i: int,
)
    requires
        0 <= i < s.len(),
        s[i].0 == p,
        forall|j: int| 0 <= j < i ==> (#[trigger] s[j]).0 != p,
    ensures
        spec_policy_for(s, default_policy, p) == s[i].1,
    decreases s.len(),
{
    if i > 0 {
        assert(s.drop_first()[i - 1] == s[i]);
        assert forall|j: int| 0 <= j < i - 1 implies (#[trigger] s.drop_first()[j]).0 != p by {
            assert(s.drop_first()[j] == s[j + 1]);
        };
        lemma_policy_at(s.drop_first(), default_policy, p, i - 1);
    }
}

/// A protocol with no configured entry falls back to the default.
proof fn lemma_policy_absent(
    s: Seq<(Protocol, BroadcastPolicy)>,
    default_policy: BroadcastPolicy,
    p: Protocol,
)
    requires
        forall|j: int| 0 <= j < s.len() ==> (#[trigger] s[j]).0 != p,
    ensures
        spec_policy_for(s, default_policy, p) == default_policy,
    decreases s.len(),
{
    if s.len() > 0 {
        assert forall|j: int| 0 <= j < s.drop_first().len() implies (
        #[trigger] s.drop_first()[j]).0 != p by {
            assert(s.drop_first()[j] == s[j + 1]);
        };
        lemma_policy_absent(s.drop_first(), default_policy, p);
    }
}

/// Whether a capability table marks a peer as a validator.
pub open spec fn spec_is_validator(s: Seq<(PeerId, PeerCapabilities)>, p: PeerId) -> bool {
    exists|i: int| 0 <= i < s.len() && (#[trigger] s[i]).0 == p && s[i].1.is_validator
}

/// Manager for broadcasting messages.
///
/// The caller supplies the currently connected peers with each broadcast
/// and performs the sends; this manager decides who receives the message
/// and suppresses duplicates.
pub struct BroadcastManager {
    pub config: BroadcastConfig,
    pub recently_broadcast: RecentMessages,
    pub peer_capabilities: Vec<(PeerId, PeerCapabilities)>,
}

impl BroadcastManager {
    pub open spec fn wf(self) -> bool {
        self.recently_broadcast.wf()
    }

    /// Create a new broadcast manager.
    pub fn new(config: BroadcastConfig) -> (r: BroadcastManager)
        requires
            config.message_ttl_ms >= 1,
        ensures
            r.wf(),
            r.config == config,
            r.recently_broadcast.seen@.len() == 0,
            r.recently_broadcast.ttl_ms == config.message_ttl_ms,
    {
        let ttl = config.message_ttl_ms;
        BroadcastManager {
            config,
            recently_broadcast: RecentMessages::new(1000, ttl),
            peer_capabilities: Vec::new(),
        }
    }

    /// Update a peer's capabilities.
    pub fn update_peer_capabilities(&mut self, peer_id: PeerId, capabilities: PeerCapabilities)
        requires
            old(self).wf(),
        ensures
            final(self).wf(),
            final(self).config == old(self).config,
            final(self).recently_broadcast == old(self).recently_broadcast,
            final(self).peer_capabilities@ == old(self).peer_capabilities@.push(
                (peer_id, capabilities),
            ),
    {
        self.peer_capabilities.push((peer_id, capabilities));
    }

    /// Broadcast a message: check its size, suppress recently broadcast
    /// fingerprints, select the receivers by the protocol's policy, and
    /// record the fingerprint.  Returns the selected peers for the caller
    /// to deliver to.
    pub fn broadcast_message(
        &mut self,
        protocol: Protocol,
        message: &Message,
        peers: &Vec<PeerId>,
        now: u64,
    ) -> (r: Result<Vec<PeerId>, NetworkError>)
        requires
            old(self).wf(),
            peers@.len() <= u32::MAX,
        ensures
            final(self).wf(),
            final(self).config == old(self).config,
            // oversized messages are rejected before any selection
            message.payload@.len() > old(self).config.max_message_size <==> r == Err::<
                Vec<PeerId>,
                NetworkError,
            >(NetworkError::MessageTooLarge),
            message.payload@.len() > old(self).config.max_message_size ==> *final(self) == *old(
                self,
            ),
            // a recently broadcast fingerprint suppresses the send
            message.payload@.len() <= old(self).config.max_message_size && spec_has_live(
                old(self).recently_broadcast.seen@,
                spec_hash_message(*message),
                now,
                old(self).recently_broadcast.ttl_ms,
            ) ==> (r matches Ok(v) && v@.len() == 0),
            // otherwise the fingerprint is recorded and receivers selected
            message.payload@.len() <= old(self).config.max_message_size && !spec_has_live(
                old(self).recently_broadcast.seen@,
                spec_hash_message(*message),
                now,
                old(self).recently_broadcast.ttl_ms,
            ) ==> {
                &&& r is Ok
                &&& spec_has_live(
                    final(self).recently_broadcast.seen@,
                    spec_hash_message(*message),
                    now,
                    final(self).recently_broadcast.ttl_ms,
                )
                &&& {
                    let policy = spec_policy_for(
                        old(self).config.protocol_policies@,
                        old(self).config.default_policy,
                        protocol,
                    );
                    &&& (policy is AllPeers ==> (r matches Ok(v) && v@ == peers@))
                    &&& (policy matches BroadcastPolicy::RandomSubset {
                        fraction_permille,
                        min_peers,
                    } ==> (r matches Ok(v) && v@.len() == spec_subset_count(
                        peers@.len() as int,
                        fraction_permille,
                        min_peers,
                    )))
                    &&& ((policy is ValidatorPriority || policy is Geographic) ==> (r matches Ok(
                        v,
                    ) && forall|j: int|
                        0 <= j < peers@.len() ==> v@.contains(#[trigger] peers@[j])))
                }
            },
            // every selected receiver is one of the connected peers
            r matches Ok(v) ==> forall|i: int|
                0 <= i < v@.len() ==> peers@.contains(#[trigger] v@[i]),
    {
        if message.payload.len() > self.config.max_message_size {
            return Err(NetworkError::MessageTooLarge);
        }
        let message_hash = hash_message(message);
        if self.recently_broadcast.contains(&message_hash, now) {
            return Ok(Vec::new());
        }
        let mut found_policy: Option<usize> = None;
        let mut i: usize = 0;
        while i < self.config.protocol_policies.len()
            invariant
                i <= self.config.protocol_policies@.len(),
                found_policy matches Some(fi) ==> fi < self.config.protocol_policies@.len()
                    && self.config.protocol_policies@[fi as int].0 == protocol && forall|j: int|
                    0 <= j < fi ==> (#[trigger] self.config.protocol_policies@[j]).0 != protocol,
                found_policy is None ==> forall|j: int|
                    0 <= j < i ==> (#[trigger] self.config.protocol_policies@[j]).0 != protocol,
            decreases self.config.protocol_policies@.len() - i,
        {
            if found_policy.is_none() && self.config.protocol_policies[i].0 == protocol {
                found_policy = Some(i);
            }
            i = i + 1;
        }
        let selected: Vec<PeerId> = match found_policy {
            Some(pi) => {
                proof {
                    lemma_policy_at(
                        self.config.protocol_policies@,
                        self.config.default_policy,
                        protocol,
                        pi as int,
                    );
                }
                let policy = &self.config.protocol_policies[pi].1;
                self.apply_policy_copy(policy, peers)
            },
            None => {
                proof {
                    lemma_policy_absent(
                        self.config.protocol_policies@,
                        self.config.default_policy,
                        protocol,
                    );
                }
                let policy = &self.config.default_policy;
                self.apply_policy_copy(policy, peers)
            },
        };
        self.recently_broadcast.insert(message_hash, now);
        Ok(selected)
    }

    /// Select the receivers according to a policy.
    fn apply_policy_copy(&self, policy: &BroadcastPolicy, peers: &Vec<PeerId>) -> (r: Vec<PeerId>)
        requires
            peers@.len() <= u32::MAX,
        ensures
            forall|i: int| 0 <= i < r@.len() ==> peers@.contains(#[trigger] r@[i]),
            policy is AllPeers ==> r@ == peers@,
            policy matches BroadcastPolicy::RandomSubset { fraction_permille, min_peers } ==> r@.len()
                == spec_subset_count(peers@.len() as int, *fraction_permille, *min_peers),
            (policy is ValidatorPriority || policy is Geographic) ==> forall|j: int|
                0 <= j < peers@.len() ==> r@.contains(#[trigger] peers@[j]),
    {
        match policy {
            BroadcastPolicy::AllPeers => {
                let r = Self::copy_peers(peers);
                r
            },
            BroadcastPolicy::RandomSubset { fraction_permille, min_peers } => {
                select_random_peers(peers, *fraction_permille, *min_peers)
            },
            BroadcastPolicy::ValidatorPriority { validators_first } => {
                self.select_validators_first(peers, *validators_first)
            },
            BroadcastPolicy::Geographic { prefer_same_region } => {
                self.select_by_region(peers, *prefer_same_region)
            },
        }
    }

    fn copy_peers(peers: &Vec<PeerId>) -> (r: Vec<PeerId>)
        ensures
            r@ == peers@,
            forall|i: int| 0 <= i < r@.len() ==> peers@.contains(#[trigger] r@[i]),
    {
        let mut out: Vec<PeerId> = Vec::new();
        let mut i: usize = 0;
        while i < peers.len()
            invariant
                i <= peers@.len(),
                out@ == peers@.take(i as int),
            decreases peers@.len() - i,
        {
            out.push(peers[i]);
            i = i + 1;
        }
        proof {
            assert(out@ =~= peers@);
            assert forall|i2: int| 0 <= i2 < out@.len() implies peers@.contains(
                #[trigger] out@[i2],
            ) by {
                assert(peers@[i2] == out@[i2]);
            };
        }
        out
    }

    /// Select peers, validators before the rest.
    fn select_validators_first(&self, peers: &Vec<PeerId>, validators_first: bool) -> (r: Vec<
        PeerId,
    >)
        ensures
            forall|i: int| 0 <= i < r@.len() ==> peers@.contains(#[trigger] r@[i]),
            forall|j: int| 0 <= j < peers@.len() ==> r@.contains(#[trigger] peers@[j]),
    {
        let mut result: Vec<PeerId> = Vec::new();
        if validators_first {
            let mut i: usize = 0;
            while i < peers.len()
                invariant
                    i <= peers@.len(),
                    forall|i2: int|
                        0 <= i2 < result@.len() ==> peers@.contains(#[trigger] result@[i2]),
                decreases peers@.len() - i,
            {
                let p = peers[i];
                if self.is_validator_peer(&p) {
                    proof {
                        assert(peers@[i as int] == p);
                    }
                    result.push(p);
                }
                i = i + 1;
            }
        }
        let mut i: usize = 0;
        while i < peers.len()
            invariant
                i <= peers@.len(),
                forall|i2: int|
                    0 <= i2 < result@.len() ==> peers@.contains(#[trigger] result@[i2]),
                forall|j: int| 0 <= j < i ==> result@.contains(#[trigger] peers@[j]),
            decreases peers@.len() - i,
        {
            let p = peers[i];
            let ghost before = result@;
            if !Self::contains_peer(&result, &p) {
                proof {
                    assert(peers@[i as int] == p);
                }
                result.push(p);
                proof {
                    assert(result@[result@.len() - 1] == p);
                    assert forall|j: int| 0 <= j < i + 1 implies result@.contains(
                        #[trigger] peers@[j],
                    ) by {
                        if j < i {
                            assert(before.contains(peers@[j]));
                            let k = choose|k: int|
                                0 <= k < before.len() && (#[trigger] before[k]) == peers@[j];
                            assert(result@[k] == peers@[j]);
                        }
                    };
                }
            } else {
                proof {
                    assert(result@.contains(p));
                    assert(peers@[i as int] == p);
                }
            }
            i = i + 1;
        }
        result
    }

    fn is_validator_peer(&self, peer_id: &PeerId) -> (r: bool)
        ensures
            r == spec_is_validator(self.peer_capabilities@, *peer_id),
    {
        let mut i: usize = 0;
        while i < self.peer_capabilities.len()
            invariant
                i <= self.peer_capabilities@.len(),
                forall|j: int|
                    0 <= j < i ==> !((#[trigger] self.peer_capabilities@[j]).0 == *peer_id
                        && self.peer_capabilities@[j].1.is_validator),
            decreases self.peer_capabilities@.len() - i,
        {
            if self.peer_capabilities[i].0 == *peer_id && self.peer_capabilities[i].1.is_validator {
                proof {
                    assert((#[trigger] self.peer_capabilities@[i as int]).0 == *peer_id
                        && self.peer_capabilities@[i as int].1.is_validator);
                }
                return true;
            }
            i = i + 1;
        }
        false
    }

    fn contains_peer(list: &Vec<PeerId>, p: &PeerId) -> (r: bool)
        ensures
            r == list@.contains(*p),
    {
        let mut i: usize = 0;
        while i < list.len()
            invariant
                i <= list@.len(),
                forall|j: int| 0 <= j < i ==> #[trigger] list@[j] != *p,
            decreases list@.len() - i,
        {
            if list[i] == *p {
                proof {
                    assert(list@[i as int] == *p);
                }
                return true;
            }
            i = i + 1;
        }
        false
    }

    /// Select peers grouped by region: peers sharing the local region come
    /// first.  Without a local region every peer is kept in order.
    fn select_by_region(&self, peers: &Vec<PeerId>, prefer_same_region: bool) -> (r: Vec<PeerId>)
        ensures
            forall|i: int| 0 <= i < r@.len() ==> peers@.contains(#[trigger] r@[i]),
            forall|j: int| 0 <= j < peers@.len() ==> r@.contains(#[trigger] peers@[j]),
    {
        // the local node carries no region tag, so every peer is in the
        // remote partition and the order is kept
        let _ = prefer_same_region;
        let r = Self::copy_peers(peers);
        proof {
            assert forall|j: int| 0 <= j < peers@.len() implies r@.contains(
                #[trigger] peers@[j],
            ) by {
                assert(r@[j] == peers@[j]);
            };
        }
        r
    }
}

/// Calculate the fingerprint of raw bytes.
pub fn hash_bytes(bytes: &Vec<u8>) -> (r: MessageHash)
    ensures
        r == spec_digest_of(bytes@),
{
    digest_of_bytes(bytes)
}

/// Parameters for gossip propagation.
#[derive(Clone, Debug)]
pub struct GossipFactors {
    /// Number of peers to propagate to per round.
    pub fanout: usize,
    /// How many rounds of propagation.
    pub rounds: usize,
    /// Delay between rounds.
    pub propagation_delay_ms: u64,
}

/// Bounded message cache.  Eviction follows insertion order: when full,
/// the oldest-stored entry leaves; lookups do not refresh an entry's place.
pub struct LruCache {
    pub items: Vec<(MessageHash, Vec<u8>)>,
    pub max_size: usize,
}

/// Whether the cache holds a key.
pub open spec fn spec_lru_has(s: Seq<(MessageHash, Vec<u8>)>, k: MessageHash) -> bool {
    exists|i: int| 0 <= i < s.len() && (#[trigger] s[i]).0 == k
}

/// The bytes stored under a key.
pub open spec fn spec_lru_value(s: Seq<(MessageHash, Vec<u8>)>, k: MessageHash) -> Option<Seq<u8>>
    decreases s.len(),
{
    if s.len() == 0 {
        None
    } else if s[0].0 == k {
        Some(s[0].1@)
    } else {
        spec_lru_value(s.drop_first(), k)
    }
}

/// A first-match entry decides the stored bytes.
proof fn lemma_lru_value_at(s: Seq<(MessageHash, Vec<u8>)>, i: int)
    requires
        0 <= i < s.len(),
        forall|j: int| 0 <= j < i ==> (#[trigger] s[j]).0 != s[i].0,
    ensures
        spec_lru_value(s, s[i].0) == Some(s[i].1@),
    decreases s.len(),
{
    if i > 0 {
        assert(s.drop_first()[i - 1] == s[i]);
        assert forall|j: int| 0 <= j < i - 1 implies (#[trigger] s.drop_first()[j]).0
            != s.drop_first()[i - 1].0 by {
            assert(s.drop_first()[j] == s[j + 1]);
        };
        lemma_lru_value_at(s.drop_first(), i - 1);
    }
}

impl LruCache {
    pub open spec fn wf(self) -> bool {
        &&& self.items@.len() <= self.max_size
        &&& self.max_size >= 1
        &&& forall|i: int, j: int|
            0 <= i < j < self.items@.len() ==> (#[trigger] self.items@[i]).0 != (
            #[trigger] self.items@[j]).0
    }

    /// Create a new cache.
    pub fn new(max_size: usize) -> (r: LruCache)
        requires
            max_size >= 1,
        ensures
            r.wf(),
            r.items@.len() == 0,
            r.max_size == max_size,
    {
        LruCache { items: Vec::new(), max_size }
    }

    fn find(&self, key: &MessageHash) -> (r: Option<usize>)
        ensures
            r matches Some(i) ==> i < self.items@.len() && self.items@[i as int].0 == *key
                && forall|j: int| 0 <= j < i ==> (#[trigger] self.items@[j]).0 != *key,
            r is None ==> !spec_lru_has(self.items@, *key),
    {
        let mut i: usize = 0;
        while i < self.items.len()
            invariant
                i <= self.items@.len(),
                forall|j: int| 0 <= j < i ==> (#[trigger] self.items@[j]).0 != *key,
            decreases self.items@.len() - i,
        {
            if self.items[i].0 == *key {
                return Some(i);
            }
            i = i + 1;
        }
        None
    }

    /// Get an item from the cache.
    pub fn get(&self, key: &MessageHash) -> (r: Option<&Vec<u8>>)
        ensures
            r is Some <==> spec_lru_has(self.items@, *key),
            r matches Some(v) ==> spec_lru_value(self.items@, *key) == Some(v@),
    {
        match self.find(key) {
            Some(i) => {
                proof {
                    assert(self.items@[i as int].0 == *key);
                    lemma_lru_value_at(self.items@, i as int);
                }
                Some(&self.items[i].1)
            },
            None => None,
        }
    }

    /// Put an item in the cache, evicting the oldest-stored entry when full.
    pub fn put(&mut self, key: MessageHash, value: Vec<u8>)
        requires
            old(self).wf(),
        ensures
            final(self).wf(),
            final(self).max_size == old(self).max_size,
            spec_lru_has(final(self).items@, key),
            spec_lru_value(final(self).items@, key) == Some(value@),
            // a present key is updated in place; a fresh key is appended,
            // evicting the oldest entry only when the cache is full
            spec_lru_has(old(self).items@, key) ==> exists|i: int|
                0 <= i < old(self).items@.len() && (#[trigger] old(self).items@[i]).0 == key
                    && final(self).items@ == old(self).items@.update(i, (key, value)),
            !spec_lru_has(old(self).items@, key) && old(self).items@.len() < old(self).max_size
                ==> final(self).items@ == old(self).items@.push((key, value)),
            !spec_lru_has(old(self).items@, key) && old(self).items@.len() >= old(self).max_size
                ==> final(self).items@ == old(self).items@.drop_first().push((key, value)),
    {
        let ghost s0 = self.items@;
        match self.find(&key) {
            Some(i) => {
                self.items.set(i, (key, value));
                proof {
                    assert(self.items@[i as int].0 == key);
                    assert(forall|i2: int|
                        0 <= i2 < self.items@.len() ==> (#[trigger] self.items@[i2]).0 == s0[i2].0);
                    lemma_lru_value_at(self.items@, i as int);
                }
            },
            None => {
                if self.items.len() >= self.max_size {
                    self.items.remove(0);
                    proof {
                        assert(self.items@ =~= s0.drop_first());
                        assert(forall|i2: int|
                            0 <= i2 < self.items@.len() ==> (#[trigger] self.items@[i2])
                                == s0[i2 + 1]);
                    }
                }
                let ghost s1 = self.items@;
                self.items.push((key, value));
                proof {
                    assert(self.items@[self.items@.len() - 1].0 == key);
                    assert forall|j: int| 0 <= j < self.items@.len() - 1 implies (
                    #[trigger] self.items@[j]).0 != key by {
                        assert(self.items@[j] == s1[j]);
                        if s1.len() == s0.len() {
                            assert(s1[j] == s0[j]);
                        } else {
                            assert(s1[j] == s0[j + 1]);
                        }
                    };
                    lemma_lru_value_at(self.items@, self.items@.len() - 1);
                    assert forall|i2: int, j2: int| 0 <= i2 < j2 < self.items@.len() implies (
                    #[trigger] self.items@[i2]).0 != (#[trigger] self.items@[j2]).0 by {
                        if j2 < self.items@.len() - 1 {
                            assert(self.items@[i2] == s1[i2] && self.items@[j2] == s1[j2]);
                            if self.items@.len() - 1 == s0.len() {
                                assert(s1[i2] == s0[i2] && s1[j2] == s0[j2]);
                            } else {
                                assert(s1[i2] == s0[i2 + 1] && s1[j2] == s0[j2 + 1]);
                            }
                        } else {
                            assert(self.items@[i2] == s1[i2]);
                            if s1.len() == s0.len() {
                                assert(s1[i2] == s0[i2]);
                                assert(s0[i2].0 != key);
                            } else {
                                assert(s1[i2] == s0[i2 + 1]);
                                assert(s0[i2 + 1].0 != key);
                            }
                        }
                    };
                }
            },
        }
    }

    /// Check whether a key is cached.
    pub fn contains_key(&self, key: &MessageHash) -> (r: bool)
        ensures
            r == spec_lru_has(self.items@, *key),
    {
        match self.find(key) {
            Some(i) => {
                proof {
                    assert(self.items@[i as int].0 == *key);
                }
                true
            },
            None => false,
        }
    }

    /// Remove an item.
    pub fn remove(&mut self, key: &MessageHash) -> (r: Option<Vec<u8>>)
        requires
            old(self).wf(),
        ensures
            final(self).wf(),
            final(self).max_size == old(self).max_size,
            !spec_lru_has(final(self).items@, *key),
    {
        let ghost s0 = self.items@;
        match self.find(key) {
            Some(i) => {
                let entry = self.items.remove(i);
                proof {
                    let t = self.items@;
                    assert(t == s0.subrange(0, i as int) + s0.subrange(
                        i as int + 1,
                        s0.len() as int,
                    ));
                    assert forall|i2: int| 0 <= i2 < t.len() implies (#[trigger] t[i2]).0
                        != *key by {
                        if i2 < i as int {
                            assert(t[i2] == s0[i2]);
                        } else {
                            assert(t[i2] == s0[i2 + 1]);
                        }
                    };
                    assert forall|i2: int, j2: int| 0 <= i2 < j2 < t.len() implies (
                    #[trigger] t[i2]).0 != (#[trigger] t[j2]).0 by {
                        if j2 < i as int {
                        } else if i2 < i as int {
                            assert(t[i2] == s0[i2] && t[j2] == s0[j2 + 1]);
                        } else {
                            assert(t[i2] == s0[i2 + 1] && t[j2] == s0[j2 + 1]);
                        }
                    };
                }
                Some(entry.1)
            },
            None => None,
        }
    }
}

/// Whether a peer is recorded as having seen a fingerprint.
pub open spec fn spec_peer_has_seen(
    s: Seq<(PeerId, Vec<MessageHash>)>,
    p: PeerId,
    h: MessageHash,
) -> bool {
    exists|i: int| 0 <= i < s.len() && (#[trigger] s[i]).0 == p && s[i].1@.contains(h)
}

/// The number of tracked peers not yet marked as holding a fingerprint.
pub open spec fn spec_gossip_candidate_count(
    s: Seq<(PeerId, Vec<MessageHash>)>,
    h: MessageHash,
) -> int
    decreases s.len(),
{
    if s.len() == 0 {
        0int
    } else {
        spec_gossip_candidate_count(s.drop_last(), h) + (if s.last().1@.contains(h) {
            0int
        } else {
            1int
        })
    }
}

/// Gossip protocol manager.
pub struct GossipManager {
    pub known_messages: RecentMessages,
    pub message_cache: LruCache,
    pub peer_message_tracking: Vec<(PeerId, Vec<MessageHash>)>,
    pub gossip_factors: GossipFactors,
    pub local_peer_id: PeerId,
}

impl GossipManager {
    pub open spec fn wf(self) -> bool {
        &&& self.known_messages.wf()
        &&& self.message_cache.wf()
        &&& forall|i: int, j: int|
            0 <= i < j < self.peer_message_tracking@.len() ==> (
            #[trigger] self.peer_message_tracking@[i]).0 != (
            #[trigger] self.peer_message_tracking@[j]).0
    }

    /// Create a new gossip manager.
    pub fn new(
        factors: GossipFactors,
        message_ttl_ms: u64,
        cache_size: usize,
        local_peer_id: PeerId,
    ) -> (r: GossipManager)
        requires
            message_ttl_ms >= 1,
            cache_size >= 1,
        ensures
            r.wf(),
            r.gossip_factors == factors,
            r.local_peer_id == local_peer_id,
            r.known_messages.seen@.len() == 0,
    {
        GossipManager {
            known_messages: RecentMessages::new(1000, message_ttl_ms),
            message_cache: LruCache::new(cache_size),
            peer_message_tracking: Vec::new(),
            gossip_factors: factors,
            local_peer_id,
        }
    }

    /// Record that a peer holds a fingerprint.
    fn mark_peer_has(&mut self, peer: PeerId, h: MessageHash)
        requires
            old(self).wf(),
        ensures
            final(self).wf(),
            spec_peer_has_seen(final(self).peer_message_tracking@, peer, h),
            final(self).known_messages == old(self).known_messages,
            final(self).message_cache == old(self).message_cache,
            final(self).gossip_factors == old(self).gossip_factors,
    {
        let ghost s0 = self.peer_message_tracking@;
        let mut i: usize = 0;
        let mut found: Option<usize> = None;
        while i < self.peer_message_tracking.len()
            invariant
                i <= s0.len(),
                self.peer_message_tracking@ == s0,
                found matches Some(fi) ==> fi < s0.len() && s0[fi as int].0 == peer,
                found is None ==> forall|j: int| 0 <= j < i ==> (#[trigger] s0[j]).0 != peer,
            decreases s0.len() - i,
        {
            if found.is_none() && self.peer_message_tracking[i].0 == peer {
                found = Some(i);
            }
            i = i + 1;
        }
        match found {
            Some(index) => {
                // rebuild the peer's list with the fingerprint appended
                let mut new_list: Vec<MessageHash> = Vec::new();
                let mut k: usize = 0;
                while k < self.peer_message_tracking[index].1.len()
                    invariant
                        index < s0.len(),
                        self.peer_message_tracking@ == s0,
                        k <= s0[index as int].1@.len(),
                        new_list@ == s0[index as int].1@.take(k as int),
                    decreases s0[index as int].1@.len() - k,
                {
                    new_list.push(self.peer_message_tracking[index].1[k]);
                    k = k + 1;
                }
                new_list.push(h);
                proof {
                    assert(new_list@[new_list@.len() - 1] == h);
                }
                self.peer_message_tracking.set(index, (peer, new_list));
                proof {
                    let t = self.peer_message_tracking@;
                    assert(t[index as int].0 == peer && t[index as int].1@.contains(h));
                    assert(forall|i2: int| 0 <= i2 < t.len() ==> (#[trigger] t[i2]).0 == s0[i2].0);
                }
            },
            None => {
                let mut list: Vec<MessageHash> = Vec::new();
                list.push(h);
                proof {
                    assert(list@[0] == h);
                }
                self.peer_message_tracking.push((peer, list));
                proof {
                    let t = self.peer_message_tracking@;
                    assert(t[t.len() - 1].0 == peer && t[t.len() - 1].1@.contains(h));
                    assert forall|i2: int, j2: int| 0 <= i2 < j2 < t.len() implies (
                    #[trigger] t[i2]).0 != (#[trigger] t[j2]).0 by {
                        if j2 == t.len() - 1 {
                            assert(t[i2] == s0[i2]);
                        }
                    };
                }
            },
        }
    }

    fn tracking_lacks(list: &Vec<(PeerId, Vec<MessageHash>)>, p: &PeerId) -> (r: bool)
        ensures
            r ==> forall|i: int| 0 <= i < list@.len() ==> (#[trigger] list@[i]).0 != *p,
    {
        let mut i: usize = 0;
        while i < list.len()
            invariant
                i <= list@.len(),
                forall|j: int| 0 <= j < i ==> (#[trigger] list@[j]).0 != *p,
            decreases list@.len() - i,
        {
            if list[i].0 == *p {
                return false;
            }
            i = i + 1;
        }
        true
    }

    fn tracking_index(list: &Vec<(PeerId, Vec<MessageHash>)>, p: &PeerId) -> (r: Option<usize>)
        ensures
            r matches Some(i) ==> i < list@.len() && list@[i as int].0 == *p,
    {
        let mut i: usize = 0;
        while i < list.len()
            invariant
                i <= list@.len(),
            decreases list@.len() - i,
        {
            if list[i].0 == *p {
                return Some(i);
            }
            i = i + 1;
        }
        None
    }

    /// Process an incoming gossip message: track who sent it and whether it
    /// is new.  A new message is stored in the cache and marked as known;
    /// the caller schedules the propagation rounds.
    pub fn process_incoming_gossip(
        &mut self,
        from_peer: PeerId,
        message: &Vec<u8>,
        now: u64,
    ) -> (r: bool)
        requires
            old(self).wf(),
        ensures
            final(self).wf(),
            r == !spec_has_live(
                old(self).known_messages.seen@,
                spec_digest_of(message@),
                now,
                old(self).known_messages.ttl_ms,
            ),
            spec_peer_has_seen(
                final(self).peer_message_tracking@,
                from_peer,
                spec_digest_of(message@),
            ),
            r ==> spec_has_live(
                final(self).known_messages.seen@,
                spec_digest_of(message@),
                now,
                final(self).known_messages.ttl_ms,
            ),
            r ==> spec_lru_has(final(self).message_cache.items@, spec_digest_of(message@)),
    {
        let message_hash = hash_bytes(message);
        if self.known_messages.contains(&message_hash, now) {
            self.mark_peer_has(from_peer, message_hash);
            false
        } else {
            self.known_messages.insert(message_hash, now);
            let mut copy: Vec<u8> = Vec::new();
            let mut i: usize = 0;
            while i < message.len()
                invariant
                    i <= message@.len(),
                    copy@ == message@.take(i as int),
                decreases message@.len() - i,
            {
                copy.push(message[i]);
                i = i + 1;
            }
            self.message_cache.put(message_hash, copy);
            self.mark_peer_has(from_peer, message_hash);
            true
        }
    }

    /// Select peers for one gossip round: up to `count` tracked peers that
    /// are not yet known to hold the fingerprint, uniformly at random.
    /// When no more than `count` such peers exist, all of them are chosen.
    pub fn select_gossip_peers(&self, message_hash: &MessageHash, count: usize) -> (r: Vec<PeerId>)
        requires
            self.wf(),
            self.peer_message_tracking@.len() <= u32::MAX,
        ensures
            r@.len() == if spec_gossip_candidate_count(self.peer_message_tracking@, *message_hash)
                <= count {
                spec_gossip_candidate_count(self.peer_message_tracking@, *message_hash)
            } else {
                count as int
            },
            r@.no_duplicates(),
            // nobody selected is already known to hold the fingerprint
            forall|i: int|
                0 <= i < r@.len() ==> !spec_peer_has_seen(
                    self.peer_message_tracking@,
                    #[trigger] r@[i],
                    *message_hash,
                ),
            // with few enough candidates, every one of them is selected
            spec_gossip_candidate_count(self.peer_message_tracking@, *message_hash) <= count
                ==> forall|j: int|
                0 <= j < self.peer_message_tracking@.len() && !(#[trigger] self.peer_message_tracking@[j]).1@.contains(
                    *message_hash,
                ) ==> r@.contains(self.peer_message_tracking@[j].0),
    {
        let ghost tracking = self.peer_message_tracking@;
        let mut candidates: Vec<PeerId> = Vec::new();
        let mut i: usize = 0;
        proof {
            assert(tracking.take(0) =~= Seq::<(PeerId, Vec<MessageHash>)>::empty());
        }
        while i < self.peer_message_tracking.len()
            invariant
                i <= tracking.len(),
                self.peer_message_tracking@ == tracking,
                self.wf(),
                candidates@.len() == spec_gossip_candidate_count(
                    tracking.take(i as int),
                    *message_hash,
                ),
                forall|i2: int|
                    0 <= i2 < candidates@.len() ==> !spec_peer_has_seen(
                        tracking,
                        #[trigger] candidates@[i2],
                        *message_hash,
                    ) && exists|k: int| 0 <= k < i && (#[trigger] tracking[k]).0 == candidates@[i2],
                forall|k: int|
                    0 <= k < i && !(#[trigger] tracking[k]).1@.contains(*message_hash)
                        ==> candidates@.contains(tracking[k].0),
                forall|i2: int, j2: int|
                    0 <= i2 < j2 < candidates@.len() ==> #[trigger] candidates@[i2]
                        != #[trigger] candidates@[j2],
            decreases tracking.len() - i,
        {
            let entry = &self.peer_message_tracking[i];
            let mut already = false;
            let mut k: usize = 0;
            while k < entry.1.len()
                invariant
                    k <= entry.1@.len(),
                    already ==> entry.1@.contains(*message_hash),
                    !already ==> forall|j: int| 0 <= j < k ==> #[trigger] entry.1@[j]
                        != *message_hash,
                    entry == &self.peer_message_tracking[i as int],
                    i < tracking.len(),
                    self.peer_message_tracking@ == tracking,
                decreases entry.1@.len() - k,
            {
                if entry.1[k] == *message_hash {
                    proof {
                        assert(entry.1@[k as int] == *message_hash);
                    }
                    already = true;
                }
                k = k + 1;
            }
            proof {
                assert(tracking.take(i as int + 1).drop_last() =~= tracking.take(i as int));
                assert(tracking.take(i as int + 1).last() == tracking[i as int]);
                if already {
                    assert(tracking[i as int].1@.contains(*message_hash));
                }
            }
            let ghost old_cands = candidates@;
            if !already {
                let p = entry.0;
                proof {
                    assert(!tracking[i as int].1@.contains(*message_hash));
                    // the tracking keys are distinct, so this peer's only
                    // entry is the one just scanned, which lacks the hash
                    assert forall|j: int|
                        0 <= j < tracking.len() && (#[trigger] tracking[j]).0 == p
                            implies !tracking[j].1@.contains(*message_hash) by {
                        assert(j == i as int);
                    };
                    // earlier candidates carry earlier keys, all distinct
                    assert forall|i2: int| 0 <= i2 < old_cands.len() implies (
                    #[trigger] old_cands[i2]) != p by {
                        let k2 = choose|k2: int|
                            0 <= k2 < i && (#[trigger] tracking[k2]).0 == old_cands[i2];
                    };
                }
                candidates.push(p);
            }
            proof {
                assert forall|k2: int|
                    0 <= k2 < i + 1 && !(#[trigger] tracking[k2]).1@.contains(
                        *message_hash,
                    ) implies candidates@.contains(tracking[k2].0) by {
                    if k2 < i {
                        assert(old_cands.contains(tracking[k2].0));
                        let j = choose|j: int|
                            0 <= j < old_cands.len() && (#[trigger] old_cands[j])
                                == tracking[k2].0;
                        assert(candidates@[j] == tracking[k2].0);
                    } else {
                        assert(candidates@[candidates@.len() - 1] == tracking[k2].0);
                    }
                };
            }
            i = i + 1;
        }
        proof {
            assert(tracking.take(tracking.len() as int) =~= tracking);
        }
        let ghost cands = candidates@;
        shuffle_peer_ids(&mut candidates);
        let keep = if count <= candidates.len() {
            count
        } else {
            candidates.len()
        };
        let ghost shuffled = candidates@;
        candidates.truncate(keep);
        proof {
            broadcast use vstd::seq_lib::group_to_multiset_ensures;

            assert(candidates@ == shuffled.take(keep as int));
            assert forall|i2: int| 0 <= i2 < candidates@.len() implies !spec_peer_has_seen(
                tracking,
                #[trigger] candidates@[i2],
                *message_hash,
            ) by {
                assert(shuffled.contains(shuffled[i2]));
                assert(shuffled.to_multiset().count(shuffled[i2]) > 0);
                assert(cands.to_multiset().count(shuffled[i2]) > 0);
                assert(cands.contains(shuffled[i2]));
                let j = choose|j: int| 0 <= j < cands.len() && (#[trigger] cands[j]) == shuffled[i2];
            };
            // distinct candidates stay distinct through shuffle and truncation
            cands.lemma_multiset_has_no_duplicates();
            assert forall|x: PeerId|
                shuffled.to_multiset().contains(x) implies shuffled.to_multiset().count(x)
                == 1 by {
                assert(cands.to_multiset().count(x) > 0);
            };
            shuffled.lemma_multiset_has_no_duplicates_conv();
            assert forall|i2: int, j2: int|
                0 <= i2 < j2 < candidates@.len() implies candidates@[i2] != candidates@[j2] by {
                assert(shuffled[i2] == candidates@[i2] && shuffled[j2] == candidates@[j2]);
            };
            // when everything fits, the truncation keeps every candidate
            if cands.len() <= count {
                assert(keep == shuffled.len());
                assert(candidates@ =~= shuffled);
                assert forall|j: int|
                    0 <= j < tracking.len() && !(#[trigger] tracking[j]).1@.contains(
                        *message_hash,
                    ) implies candidates@.contains(tracking[j].0) by {
                    assert(cands.contains(tracking[j].0));
                    assert(cands.to_multiset().count(tracking[j].0) > 0);
                    assert(shuffled.to_multiset().count(tracking[j].0) > 0);
                    assert(shuffled.contains(tracking[j].0));
                };
            }
        }
        candidates
    }
}

/// Transaction propagation mechanism.
pub struct TransactionPropagator {
    pub broadcast_manager: BroadcastManager,
    pub compact_announcements: bool,
    pub seen_transactions: Vec<Digest>,
    pub full_tx_peers: Vec<PeerId>,
}

impl TransactionPropagator {
    /// Create a new transaction propagator.
    pub fn new(broadcast_manager: BroadcastManager, compact_enabled: bool) -> (r:
        TransactionPropagator)
        ensures
            r.compact_announcements == compact_enabled,
            r.seen_transactions@.len() == 0,
            r.full_tx_peers@.len() == 0,
    {
        TransactionPropagator {
            broadcast_manager,
            compact_announcements: compact_enabled,
            seen_transactions: Vec::new(),
            full_tx_peers: Vec::new(),
        }
    }

    /// Register a peer to always receive full transactions.
    pub fn register_full_tx_peer(&mut self, peer_id: PeerId)
        ensures
            final(self).full_tx_peers@.contains(peer_id),
            final(self).broadcast_manager == old(self).broadcast_manager,
    {
        self.full_tx_peers.push(peer_id);
        proof {
            assert(self.full_tx_peers@[self.full_tx_peers@.len() - 1] == peer_id);
        }
    }

    /// Unregister a peer from full transaction announcements.
    pub fn unregister_full_tx_peer(&mut self, peer_id: &PeerId)
        ensures
            !final(self).full_tx_peers@.contains(*peer_id),
            final(self).broadcast_manager == old(self).broadcast_manager,
    {
        let mut kept: Vec<PeerId> = Vec::new();
        let mut i: usize = 0;
        while i < self.full_tx_peers.len()
            invariant
                i <= self.full_tx_peers@.len(),
                forall|j: int| 0 <= j < kept@.len() ==> #[trigger] kept@[j] != *peer_id,
            decreases self.full_tx_peers@.len() - i,
        {
            let p = self.full_tx_peers[i];
            if !(p == *peer_id) {
                kept.push(p);
            }
            i = i + 1;
        }
        self.full_tx_peers = kept;
        proof {
            if self.full_tx_peers@.contains(*peer_id) {
                let j = choose|j: int|
                    0 <= j < self.full_tx_peers@.len() && (#[trigger] self.full_tx_peers@[j])
                        == *peer_id;
            }
        }
    }
}

} // verus!
