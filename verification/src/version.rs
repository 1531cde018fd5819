//! Protocol versioning and capability negotiation.

use vstd::prelude::*;
use vstd::string::StringExecFns;
use crate::hash::spec_hex_digit;
use crate::types::ProtocolId;

verus! {

/// Protocol version using semantic versioning.
#[derive(Clone, Copy, Debug, PartialEq, Eq, Structural)]
pub struct ProtocolVersion {
    pub major: u8,
    pub minor: u8,
    pub patch: u8,
}

/// Semantic-versioning order, lexicographic on (major, minor, patch).
pub open spec fn spec_version_lt(a: ProtocolVersion, b: ProtocolVersion) -> bool {
    ||| a.major < b.major
    ||| (a.major == b.major && a.minor < b.minor)
    ||| (a.major == b.major && a.minor == b.minor && a.patch < b.patch)
}

/// The version negotiated between a compatible local/remote pair: the shared
/// major, and the smaller of the minors and of the patches.
pub open spec fn spec_negotiated_version(
    local: ProtocolVersion,
    remote: ProtocolVersion,
) -> ProtocolVersion {
    ProtocolVersion {
        major: local.major,
        minor: if local.minor <= remote.minor {
            local.minor
        } else {
            remote.minor
        },
        patch: if local.patch <= remote.patch {
            local.patch
        } else {
            remote.patch
        },
    }
}

/// The decimal rendering of an eight-bit value, without leading zeros.
pub open spec fn spec_u8_chars(n: u8) -> Seq<char> {
    if n < 10 {
        seq![spec_hex_digit(n)]
    } else if n < 100 {
        seq![spec_hex_digit(n / 10), spec_hex_digit(n % 10)]
    } else {
        seq![spec_hex_digit(n / 100), spec_hex_digit((n / 10) % 10), spec_hex_digit(n % 10)]
    }
}

/// The rendering of a version as `major.minor.patch`.
pub open spec fn spec_version_chars(v: ProtocolVersion) -> Seq<char> {
    spec_u8_chars(v.major) + seq!['.'] + spec_u8_chars(v.minor) + seq!['.'] + spec_u8_chars(v.patch)
}

/// The decimal digit characters as string slices.
fn u8_digit_str(d: u8) -> (r: &'static str)
    requires
        d < 10,
    ensures
        r@ == seq![spec_hex_digit(d)],
{
    proof {
        reveal_strlit("0");
        reveal_strlit("1");
        reveal_strlit("2");
        reveal_strlit("3");
        reveal_strlit("4");
        reveal_strlit("5");
        reveal_strlit("6");
        reveal_strlit("7");
        reveal_strlit("8");
        reveal_strlit("9");
    }
    match d {
        0 => "0",
        1 => "1",
        2 => "2",
        3 => "3",
        4 => "4",
        5 => "5",
        6 => "6",
        7 => "7",
        8 => "8",
        _ => "9",
    }
}

/// Render an eight-bit value in decimal.
fn u8_to_string(n: u8) -> (r: String)
    ensures
        r@ == spec_u8_chars(n),
{
    if n < 10 {
        u8_digit_str(n).to_owned()
    } else if n < 100 {
        let mut s = u8_digit_str(n / 10).to_owned();
        s.append(u8_digit_str(n % 10));
        proof {
            assert(s@ =~= spec_u8_chars(n));
        }
        s
    } else {
        let mut s = u8_digit_str(n / 100).to_owned();
        s.append(u8_digit_str((n / 10) % 10));
        s.append(u8_digit_str(n % 10));
        proof {
            assert(s@ =~= spec_u8_chars(n));
        }
        s
    }
}

impl ProtocolVersion {
    pub fn new(major: u8, minor: u8, patch: u8) -> (r: ProtocolVersion)
        ensures
            r == (ProtocolVersion { major, minor, patch }),
    {
        ProtocolVersion { major, minor, patch }
    }

    /// Check if this version is compatible with another version: the major
    /// numbers must match exactly and our minor must be equal or greater.
    pub fn is_compatible_with(&self, other: &ProtocolVersion) -> (r: bool)
        ensures
            r == (self.major == other.major && self.minor >= other.minor),
    {
        if self.major != other.major {
            return false;
        }
        if self.minor < other.minor {
            return false;
        }
        true
    }

    /// Whether this version orders strictly below another.
    pub fn lt(&self, other: &ProtocolVersion) -> (r: bool)
        ensures
            r == spec_version_lt(*self, *other),
    {
        if self.major != other.major {
            self.major < other.major
        } else if self.minor != other.minor {
            self.minor < other.minor
        } else {
            self.patch < other.patch
        }
    }

    /// Render as `major.minor.patch`.
    pub fn to_string(&self) -> (r: String)
        ensures
            r@ == spec_version_chars(*self),
    {
        proof {
            reveal_strlit(".");
        }
        let mut s = u8_to_string(self.major);
        s.append(".");
        let minor = u8_to_string(self.minor);
        s.append(minor.as_str());
        s.append(".");
        let patch = u8_to_string(self.patch);
        s.append(patch.as_str());
        proof {
            assert(s@ =~= spec_version_chars(*self));
        }
        s
    }
}

/// Feature flags for protocol negotiations.
#[derive(Clone, Copy, Debug, PartialEq, Eq, Structural, Hash)]
pub enum FeatureFlag {
    CompactBlocks,
    CompactTransactions,
    FastSync,
    HeaderVerification,
    Compression,
    Encryption,
    PriorityTransactions,
    GrapheneBlockSupport,
    AnchorSync,
}

/// Look up a protocol in an association list.
pub open spec fn spec_find_version(
    s: Seq<(ProtocolId, ProtocolVersion)>,
    p: ProtocolId,
) -> Option<ProtocolVersion>
    decreases s.len(),
{
    if s.len() == 0 {
        None
    } else if s[0].0 == p {
        Some(s[0].1)
    } else {
        spec_find_version(s.drop_first(), p)
    }
}

/// Association-list keys are pairwise distinct.
pub open spec fn spec_unique_protocols(s: Seq<(ProtocolId, ProtocolVersion)>) -> bool {
    forall|i: int, j: int| 0 <= i < j < s.len() ==> (#[trigger] s[i]).0 != (#[trigger] s[j]).0
}

/// The lookup returns exactly the entries of the list.
pub proof fn lemma_find_version_contains(s: Seq<(ProtocolId, ProtocolVersion)>, p: ProtocolId)
    ensures
        spec_find_version(s, p) matches Some(v) ==> exists|i: int|
            0 <= i < s.len() && (#[trigger] s[i]) == (p, v),
        spec_find_version(s, p) is None ==> forall|i: int|
            0 <= i < s.len() ==> (#[trigger] s[i]).0 != p,
    decreases s.len(),
{
    if s.len() > 0 && s[0].0 != p {
        lemma_find_version_contains(s.drop_first(), p);
        if spec_find_version(s, p) is Some {
            let v = spec_find_version(s, p)->Some_0;
            let i = choose|i: int|
                0 <= i < s.drop_first().len() && (#[trigger] s.drop_first()[i]) == (p, v);
            assert(s[i + 1] == (p, v));
        } else {
            assert forall|i: int| 0 <= i < s.len() implies (#[trigger] s[i]).0 != p by {
                if i > 0 {
                    assert(s.drop_first()[i - 1] == s[i]);
                }
            };
        }
    }
}

/// With distinct keys, an entry of the list is what the lookup returns.
pub proof fn lemma_find_version_unique(
    s: Seq<(ProtocolId, ProtocolVersion)>,
    p: ProtocolId,
    v: ProtocolVersion,
    i: int,
)
    requires
        spec_unique_protocols(s),
        0 <= i < s.len(),
        s[i] == (p, v),
    ensures
        spec_find_version(s, p) == Some(v),
    decreases s.len(),
{
    if i == 0 {
    } else {
        assert(s[0].0 != p);
        assert(s.drop_first()[i - 1] == (p, v));
        assert(spec_unique_protocols(s.drop_first())) by {
            assert(forall|i2: int, j2: int|
                0 <= i2 < j2 < s.drop_first().len() ==> (#[trigger] s.drop_first()[i2]).0 != (
                #[trigger] s.drop_first()[j2]).0);
        }
        lemma_find_version_unique(s.drop_first(), p, v, i - 1);
    }
}

/// Protocol capabilities advertised by a node.
#[derive(Clone, Debug)]
pub struct ProtocolCapabilities {
    pub supported_protocols: Vec<(ProtocolId, ProtocolVersion)>,
    pub features: Vec<FeatureFlag>,
}

impl ProtocolCapabilities {
    /// Protocol keys and feature flags are pairwise distinct.
    pub open spec fn wf(self) -> bool {
        &&& spec_unique_protocols(self.supported_protocols@)
        &&& forall|i: int, j: int|
            0 <= i < j < self.features@.len() ==> #[trigger] self.features@[i]
                != #[trigger] self.features@[j]
    }
}

/// The result of protocol negotiation.
#[derive(Clone, Debug)]
pub struct NegotiatedProtocols {
    pub protocols: Vec<(ProtocolId, ProtocolVersion)>,
    pub features: Vec<FeatureFlag>,
}

/// Find a protocol's version in an association list.
pub fn find_version(
    list: &Vec<(ProtocolId, ProtocolVersion)>,
    p: ProtocolId,
) -> (r: Option<ProtocolVersion>)
    ensures
        r == spec_find_version(list@, p),
{
    let mut i: usize = 0;
    proof {
        assert(list@.skip(0) =~= list@);
    }
    while i < list.len()
        invariant
            i <= list@.len(),
            spec_find_version(list@, p) == spec_find_version(list@.skip(i as int), p),
        decreases list@.len() - i,
    {
        let (q, v) = list[i];
        proof {
            assert(list@.skip(i as int)[0] == list@[i as int]);
            assert(list@.skip(i as int).drop_first() =~= list@.skip(i as int + 1));
        }
        if q == p {
            return Some(v);
        }
        i = i + 1;
    }
    proof {
        assert(list@.skip(list@.len() as int) =~= Seq::<(ProtocolId, ProtocolVersion)>::empty());
    }
    None
}

/// Whether a feature list contains a flag.
pub fn features_contain(list: &Vec<FeatureFlag>, f: FeatureFlag) -> (r: bool)
    ensures
        r == list@.contains(f),
{
    let mut i: usize = 0;
    while i < list.len()
        invariant
            i <= list@.len(),
            forall|j: int| 0 <= j < i ==> #[trigger] list@[j] != f,
        decreases list@.len() - i,
    {
        if list[i] == f {
            proof {
                assert(list@[i as int] == f);
            }
            return true;
        }
        i = i + 1;
    }
    false
}

/// Handles protocol version negotiation.
pub struct ProtocolNegotiator {
    pub local_capabilities: ProtocolCapabilities,
    pub min_compatible_version: Vec<(ProtocolId, ProtocolVersion)>,
}

/// A protocol/version pair belongs in the negotiation result: both sides
/// support the protocol with matching majors, the pair's version is the
/// negotiated one, and it is not below the configured minimum.
pub open spec fn spec_negotiable(
    local: Seq<(ProtocolId, ProtocolVersion)>,
    remote: Seq<(ProtocolId, ProtocolVersion)>,
    min: Seq<(ProtocolId, ProtocolVersion)>,
    p: ProtocolId,
    v: ProtocolVersion,
) -> bool {
    &&& spec_find_version(local, p) matches Some(lv) && (spec_find_version(remote, p) matches Some(
        rv,
    ) && {
        &&& lv.major == rv.major
        &&& v == spec_negotiated_version(lv, rv)
        &&& match spec_find_version(min, p) {
            Some(mv) => !spec_version_lt(v, mv),
            None => true,
        }
    })
}

impl ProtocolNegotiator {
    /// Create a new protocol negotiator.
    pub fn new(
        local_capabilities: ProtocolCapabilities,
        min_compatible_version: Vec<(ProtocolId, ProtocolVersion)>,
    ) -> (r: ProtocolNegotiator)
        ensures
            r.local_capabilities == local_capabilities,
            r.min_compatible_version == min_compatible_version,
    {
        ProtocolNegotiator { local_capabilities, min_compatible_version }
    }

    /// Negotiate compatible protocols and features.
    ///
    /// For each protocol present on both sides the chosen version takes the
    /// shared major and the smaller minor and patch; protocols with differing
    /// majors or a result below the configured minimum are left out.  The
    /// feature set is the intersection.
    pub fn negotiate(&self, remote_capabilities: &ProtocolCapabilities) -> (r: NegotiatedProtocols)
        requires
            self.local_capabilities.wf(),
        ensures
            spec_unique_protocols(r.protocols@),
            // soundness: everything in the result is negotiable
            forall|j: int|
                0 <= j < r.protocols@.len() ==> spec_negotiable(
                    self.local_capabilities.supported_protocols@,
                    remote_capabilities.supported_protocols@,
                    self.min_compatible_version@,
                    (#[trigger] r.protocols@[j]).0,
                    r.protocols@[j].1,
                ),
            // completeness: everything negotiable is in the result
            forall|p: ProtocolId, v: ProtocolVersion|
                spec_negotiable(
                    self.local_capabilities.supported_protocols@,
                    remote_capabilities.supported_protocols@,
                    self.min_compatible_version@,
                    p,
                    v,
                ) ==> #[trigger] r.protocols@.contains((p, v)),
            // features: exactly the intersection
            forall|f: FeatureFlag| #[trigger]
                r.features@.contains(f) == (self.local_capabilities.features@.contains(f)
                    && remote_capabilities.features@.contains(f)),
            forall|i: int, j: int|
                0 <= i < j < r.features@.len() ==> #[trigger] r.features@[i]
                    != #[trigger] r.features@[j],
    {
        let ghost local_s = self.local_capabilities.supported_protocols@;
        let ghost remote_s = remote_capabilities.supported_protocols@;
        let ghost min_s = self.min_compatible_version@;
        let mut protocols: Vec<(ProtocolId, ProtocolVersion)> = Vec::new();
        let mut i: usize = 0;
        while i < self.local_capabilities.supported_protocols.len()
            invariant
                i <= local_s.len(),
                self.local_capabilities.supported_protocols@ == local_s,
                remote_capabilities.supported_protocols@ == remote_s,
                self.min_compatible_version@ == min_s,
                spec_unique_protocols(local_s),
                // every result entry is negotiable and stems from a local
                // entry already processed
                forall|j: int|
                    0 <= j < protocols@.len() ==> spec_negotiable(
                        local_s,
                        remote_s,
                        min_s,
                        (#[trigger] protocols@[j]).0,
                        protocols@[j].1,
                    ) && exists|k: int| 0 <= k < i && (#[trigger] local_s[k]).0 == protocols@[j].0,
                // every negotiable pair whose protocol was processed is present
                forall|k: int, v: ProtocolVersion|
                    0 <= k < i && #[trigger] spec_negotiable(
                        local_s,
                        remote_s,
                        min_s,
                        local_s[k].0,
                        v,
                    ) ==> protocols@.contains((local_s[k].0, v)),
                spec_unique_protocols(protocols@),
            decreases local_s.len() - i,
        {
            let (p, local_version) = self.local_capabilities.supported_protocols[i];
            let ghost old_protocols = protocols@;
            proof {
                lemma_find_version_unique(local_s, p, local_version, i as int);
            }
            match find_version(&remote_capabilities.supported_protocols, p) {
                Some(remote_version) => {
                    if local_version.major == remote_version.major {
                        let negotiated = ProtocolVersion {
                            major: local_version.major,
                            minor: if local_version.minor <= remote_version.minor {
                                local_version.minor
                            } else {
                                remote_version.minor
                            },
                            patch: if local_version.patch <= remote_version.patch {
                                local_version.patch
                            } else {
                                remote_version.patch
                            },
                        };
                        let acceptable = match find_version(&self.min_compatible_version, p) {
                            Some(min_version) => !negotiated.lt(&min_version),
                            None => true,
                        };
                        if acceptable {
                            proof {
                                // a second entry for p cannot already be present:
                                // result protocols come from earlier local keys,
                                // which are all distinct from p
                                assert forall|j: int| 0 <= j < protocols@.len() implies (
                                #[trigger] protocols@[j]).0 != p by {
                                    let k = choose|k: int|
                                        0 <= k < i && (#[trigger] local_s[k]).0 == protocols@[j].0;
                                };
                            }
                            protocols.push((p, negotiated));
                        }
                    }
                },
                None => {},
            }
            proof {
                // the completeness invariant extends to index i
                assert forall|v: ProtocolVersion|
                    spec_negotiable(local_s, remote_s, min_s, local_s[i as int].0, v)
                        implies protocols@.contains((local_s[i as int].0, v)) by {
                    assert(spec_find_version(local_s, p) == Some(local_version));
                    if protocols@ =~= old_protocols.push((p, spec_negotiated_version(
                        local_version,
                        spec_find_version(remote_s, p)->Some_0,
                    ))) {
                        assert(protocols@[protocols@.len() - 1] == (local_s[i as int].0, v));
                    }
                };
                assert forall|k: int, v: ProtocolVersion|
                    0 <= k < i + 1 && #[trigger] spec_negotiable(
                        local_s,
                        remote_s,
                        min_s,
                        local_s[k].0,
                        v,
                    ) implies protocols@.contains((local_s[k].0, v)) by {
                    if k < i {
                        assert(old_protocols.contains((local_s[k].0, v)));
                        let j = choose|j: int|
                            0 <= j < old_protocols.len() && (#[trigger] old_protocols[j]) == (
                            local_s[k].0,
                            v,
                            );
                        assert(protocols@[j] == (local_s[k].0, v));
                    }
                };
            }
            i = i + 1;
        }
        // features: the intersection, in local order
        let mut features: Vec<FeatureFlag> = Vec::new();
        let mut fi: usize = 0;
        while fi < self.local_capabilities.features.len()
            invariant
                fi <= self.local_capabilities.features@.len(),
                self.local_capabilities.wf(),
                forall|j: int|
                    0 <= j < features@.len() ==> remote_capabilities.features@.contains(
                        #[trigger] features@[j],
                    ) && exists|k: int|
                        0 <= k < fi && (#[trigger] self.local_capabilities.features@[k])
                            == features@[j],
                forall|k: int|
                    0 <= k < fi && remote_capabilities.features@.contains(
                        #[trigger] self.local_capabilities.features@[k],
                    ) ==> features@.contains(self.local_capabilities.features@[k]),
                forall|i2: int, j2: int|
                    0 <= i2 < j2 < features@.len() ==> #[trigger] features@[i2]
                        != #[trigger] features@[j2],
            decreases self.local_capabilities.features@.len() - fi,
        {
            let f = self.local_capabilities.features[fi];
            let ghost old_features = features@;
            if features_contain(&remote_capabilities.features, f) {
                proof {
                    // features pushed so far come from earlier local indices,
                    // and the local feature list has no duplicates
                    assert forall|j: int| 0 <= j < features@.len() implies (#[trigger] features@[j])
                        != f by {
                        let k = choose|k: int|
                            0 <= k < fi && (#[trigger] self.local_capabilities.features@[k])
                                == features@[j];
                        assert(self.local_capabilities.features@[k]
                            != self.local_capabilities.features@[fi as int]);
                    };
                }
                features.push(f);
            }
            proof {
                assert forall|k: int|
                    0 <= k < fi + 1 && remote_capabilities.features@.contains(
                        #[trigger] self.local_capabilities.features@[k],
                    ) implies features@.contains(self.local_capabilities.features@[k]) by {
                    if k < fi {
                        assert(old_features.contains(self.local_capabilities.features@[k]));
                        let j = choose|j: int|
                            0 <= j < old_features.len() && (#[trigger] old_features[j])
                                == self.local_capabilities.features@[k];
                        assert(features@[j] == self.local_capabilities.features@[k]);
                    } else {
                        if remote_capabilities.features@.contains(f) {
                            assert(features@[features@.len() - 1] == f);
                        }
                    }
                };
            }
            fi = fi + 1;
        }
        proof {
            // completeness over all protocols from the loop invariant
            assert forall|p: ProtocolId, v: ProtocolVersion|
                spec_negotiable(local_s, remote_s, min_s, p, v) implies #[trigger] protocols@
                .contains((p, v)) by {
                lemma_find_version_contains(local_s, p);
                let lv = spec_find_version(local_s, p)->Some_0;
                let k = choose|k: int| 0 <= k < local_s.len() && (#[trigger] local_s[k]) == (p, lv);
                assert(local_s[k].0 == p);
                assert(spec_negotiable(local_s, remote_s, min_s, local_s[k].0, v));
            };
            // the feature result is exactly the intersection
            assert forall|f: FeatureFlag| #[trigger]
                features@.contains(f) == (self.local_capabilities.features@.contains(f)
                    && remote_capabilities.features@.contains(f)) by {
                if features@.contains(f) {
                    let j = choose|j: int|
                        0 <= j < features@.len() && (#[trigger] features@[j]) == f;
                    let k = choose|k: int|
                        0 <= k < self.local_capabilities.features@.len() && (
                        #[trigger] self.local_capabilities.features@[k]) == features@[j];
                    assert(self.local_capabilities.features@[k] == f);
                }
                if self.local_capabilities.features@.contains(f)
                    && remote_capabilities.features@.contains(f) {
                    let k = choose|k: int|
                        0 <= k < self.local_capabilities.features@.len() && (
                        #[trigger] self.local_capabilities.features@[k]) == f;
                }
            };
        }
        NegotiatedProtocols { protocols, features }
    }
}


/// Helper function to create a default set of capabilities for a node type.
///
/// Every node speaks peer discovery; full, validator and archive nodes add
/// block sync and transaction propagation with compression and compact
/// transactions; validators add consensus messages and priority
/// transactions; archives add anchor sync; light nodes get light-client
/// sync with header verification and fast sync.
pub fn default_capabilities(node_type: &str) -> (r: ProtocolCapabilities)
    ensures
        r.wf(),
        r.supported_protocols@.len() >= 1,
        r.supported_protocols@[0] == (
            crate::types::ProtocolId::PeerDiscovery,
            ProtocolVersion { major: 1, minor: 0, patch: 0 },
        ),
        node_type@ == "validator"@ ==> r.supported_protocols@.contains(
            (
                crate::types::ProtocolId::ConsensusMessages,
                ProtocolVersion { major: 1, minor: 0, patch: 0 },
            ),
        ) && r.features@.contains(FeatureFlag::PriorityTransactions),
        (node_type@ == "full"@ || node_type@ == "validator"@ || node_type@ == "archive"@)
            ==> r.supported_protocols@.contains(
            (
                crate::types::ProtocolId::BlockSync,
                ProtocolVersion { major: 1, minor: 0, patch: 0 },
            ),
        ) && r.supported_protocols@.contains(
            (
                crate::types::ProtocolId::TransactionPropagation,
                ProtocolVersion { major: 1, minor: 0, patch: 0 },
            ),
        ) && r.features@.contains(FeatureFlag::Compression) && r.features@.contains(
            FeatureFlag::CompactTransactions,
        ),
        node_type@ == "archive"@ ==> r.features@.contains(FeatureFlag::AnchorSync),
        node_type@ == "light"@ ==> r.supported_protocols@.contains(
            (
                crate::types::ProtocolId::LightClientSync,
                ProtocolVersion { major: 1, minor: 0, patch: 0 },
            ),
        ) && r.features@.contains(FeatureFlag::HeaderVerification) && r.features@.contains(
            FeatureFlag::FastSync,
        ),
        // the sets are exactly as large as each node type warrants; an
        // unrecognized type gets only the base protocol
        node_type@ == "full"@ ==> r.supported_protocols@.len() == 3 && r.features@.len() == 2,
        node_type@ == "validator"@ ==> r.supported_protocols@.len() == 4 && r.features@.len() == 3,
        node_type@ == "archive"@ ==> r.supported_protocols@.len() == 3 && r.features@.len() == 3,
        node_type@ == "light"@ ==> r.supported_protocols@.len() == 2 && r.features@.len() == 2,
        !(node_type@ == "full"@ || node_type@ == "validator"@ || node_type@ == "archive"@
            || node_type@ == "light"@) ==> r.supported_protocols@.len() == 1 && r.features@.len()
            == 0,
{
    let v100 = ProtocolVersion { major: 1, minor: 0, patch: 0 };
    let mut supported_protocols: Vec<(crate::types::ProtocolId, ProtocolVersion)> = Vec::new();
    let mut features: Vec<FeatureFlag> = Vec::new();
    supported_protocols.push((crate::types::ProtocolId::PeerDiscovery, v100));
    let nt = node_type.to_owned();
    let is_full = nt == "full".to_owned();
    let is_validator = nt == "validator".to_owned();
    let is_archive = nt == "archive".to_owned();
    let is_light = nt == "light".to_owned();
    if is_full || is_validator || is_archive {
        supported_protocols.push((crate::types::ProtocolId::BlockSync, v100));
        supported_protocols.push((crate::types::ProtocolId::TransactionPropagation, v100));
        features.push(FeatureFlag::Compression);
        features.push(FeatureFlag::CompactTransactions);
        if is_validator {
            supported_protocols.push((crate::types::ProtocolId::ConsensusMessages, v100));
            features.push(FeatureFlag::PriorityTransactions);
        }
        if is_archive {
            features.push(FeatureFlag::AnchorSync);
        }
    } else if is_light {
        supported_protocols.push((crate::types::ProtocolId::LightClientSync, v100));
        features.push(FeatureFlag::HeaderVerification);
        features.push(FeatureFlag::FastSync);
    }
    proof {
        let sp = supported_protocols@;
        let fs = features@;
        reveal_strlit("full");
        reveal_strlit("validator");
        reveal_strlit("archive");
        reveal_strlit("light");
        // the four node type names are pairwise distinct
        assert("full"@.len() == 4 && "validator"@.len() == 9 && "archive"@.len() == 7 && "light"@.len()
            == 5);
        assert forall|i: int, j: int| 0 <= i < j < sp.len() implies (#[trigger] sp[i]).0 != (
        #[trigger] sp[j]).0 by {}
        assert forall|i: int, j: int| 0 <= i < j < fs.len() implies #[trigger] fs[i]
            != #[trigger] fs[j] by {}
        if is_full || is_validator || is_archive {
            assert(sp[1] == (crate::types::ProtocolId::BlockSync, v100));
            assert(sp[2] == (crate::types::ProtocolId::TransactionPropagation, v100));
            assert(sp.contains((crate::types::ProtocolId::BlockSync, v100)));
            assert(sp.contains((crate::types::ProtocolId::TransactionPropagation, v100)));
            assert(fs[0] == FeatureFlag::Compression && fs[1] == FeatureFlag::CompactTransactions);
            assert(fs.contains(FeatureFlag::Compression));
            assert(fs.contains(FeatureFlag::CompactTransactions));
            if is_validator {
                assert(sp[3] == (crate::types::ProtocolId::ConsensusMessages, v100));
                assert(sp.contains((crate::types::ProtocolId::ConsensusMessages, v100)));
                assert(fs[2] == FeatureFlag::PriorityTransactions);
                assert(fs.contains(FeatureFlag::PriorityTransactions));
            }
            if is_archive {
                assert(fs[2] == FeatureFlag::AnchorSync);
                assert(fs.contains(FeatureFlag::AnchorSync));
            }
        }
        if is_light {
            assert(sp[1] == (crate::types::ProtocolId::LightClientSync, v100));
            assert(sp.contains((crate::types::ProtocolId::LightClientSync, v100)));
            assert(fs[0] == FeatureFlag::HeaderVerification && fs[1] == FeatureFlag::FastSync);
            assert(fs.contains(FeatureFlag::HeaderVerification));
            assert(fs.contains(FeatureFlag::FastSync));
        }
    }
    ProtocolCapabilities { supported_protocols, features }
}

/// The negotiated version of a compatible pair keeps the shared major and
/// takes the smaller minor and the smaller patch.
pub proof fn lemma_negotiated_version_shape(lv: ProtocolVersion, rv: ProtocolVersion)
    requires
        lv.major == rv.major,
    ensures
        spec_negotiated_version(lv, rv).major == lv.major,
        spec_negotiated_version(lv, rv).major == rv.major,
        spec_negotiated_version(lv, rv).minor == if lv.minor <= rv.minor {
            lv.minor
        } else {
            rv.minor
        },
        spec_negotiated_version(lv, rv).patch == if lv.patch <= rv.patch {
            lv.patch
        } else {
            rv.patch
        },
{
}

/// When every protocol supported by both sides differs in major version,
/// negotiation yields no overlap at all.
pub proof fn lemma_incompatible_majors_no_overlap(
    local: Seq<(ProtocolId, ProtocolVersion)>,
    remote: Seq<(ProtocolId, ProtocolVersion)>,
    min: Seq<(ProtocolId, ProtocolVersion)>,
    result: Seq<(ProtocolId, ProtocolVersion)>,
)
    requires
        forall|j: int|
            0 <= j < result.len() ==> spec_negotiable(
                local,
                remote,
                min,
                (#[trigger] result[j]).0,
                result[j].1,
            ),
        forall|p: ProtocolId|
            (#[trigger] spec_find_version(local, p)) matches Some(lv) ==> (spec_find_version(
                remote,
                p,
            ) matches Some(rv) ==> lv.major != rv.major),
    ensures
        result.len() == 0,
{
    if result.len() > 0 {
        let p = result[0].0;
        assert(spec_negotiable(local, remote, min, p, result[0].1));
        assert(spec_find_version(local, p) matches Some(lv));
    }
}

} // verus!
