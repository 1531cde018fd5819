//! Counter maps over endpoint-derived keys.
//!
//! The security and connection-management modules count active connections
//! per IP address, per subnet, per autonomous system, and per peer.  All of
//! them share this association-list map from a key to a 32-bit count, with
//! saturating updates and an exactly specified total.

use vstd::prelude::*;
use crate::types::{IpAddress, PeerId};

verus! {

/// IP subnet representation for grouping: the /24 prefix of an IPv4 address
/// (as its upper 24 bits) or the /48 prefix of an IPv6 address (as its upper
/// 48 bits).
#[derive(Clone, Copy, Debug, PartialEq, Eq, Structural, Hash)]
pub enum IpSubnet {
    V4(u32),
    V6(u64),
}

/// A key a count can be held under.
#[derive(Clone, Copy, Debug, PartialEq, Eq, Structural, Hash)]
pub enum CountKey {
    Ip(IpAddress),
    Subnet(IpSubnet),
    Asn(u32),
    Peer(PeerId),
}

/// The count stored under a key; absent keys count zero.
pub open spec fn spec_count(s: Seq<(CountKey, u32)>, k: CountKey) -> u32
    decreases s.len(),
{
    if s.len() == 0 {
        0
    } else if s[0].0 == k {
        s[0].1
    } else {
        spec_count(s.drop_first(), k)
    }
}

/// Whether a key is present.
pub open spec fn spec_has_key(s: Seq<(CountKey, u32)>, k: CountKey) -> bool {
    exists|i: int| 0 <= i < s.len() && (#[trigger] s[i]).0 == k
}

/// The sum of all counts.
pub open spec fn spec_total(s: Seq<(CountKey, u32)>) -> int
    decreases s.len(),
{
    if s.len() == 0 {
        0
    } else {
        s[0].1 + spec_total(s.drop_first())
    }
}

/// Map keys are pairwise distinct.
pub open spec fn spec_unique_keys(s: Seq<(CountKey, u32)>) -> bool {
    forall|i: int, j: int| 0 <= i < j < s.len() ==> (#[trigger] s[i]).0 != (#[trigger] s[j]).0
}

/// The total is never negative.
pub proof fn lemma_total_nonneg(s: Seq<(CountKey, u32)>)
    ensures
        spec_total(s) >= 0,
    decreases s.len(),
{
    if s.len() > 0 {
        lemma_total_nonneg(s.drop_first());
    }
}

/// A key that appears nowhere counts zero.
pub proof fn lemma_count_absent(s: Seq<(CountKey, u32)>, k: CountKey)
    requires
        !spec_has_key(s, k),
    ensures
        spec_count(s, k) == 0,
    decreases s.len(),
{
    if s.len() > 0 {
        assert(s[0].0 != k);
        assert forall|i: int| 0 <= i < s.drop_first().len() implies (
        #[trigger] s.drop_first()[i]).0 != k by {
            assert(s.drop_first()[i] == s[i + 1]);
        };
        lemma_count_absent(s.drop_first(), k);
    }
}

/// With distinct keys, every entry's count is what the map returns for its key.
pub proof fn lemma_count_at(s: Seq<(CountKey, u32)>, i: int)
    requires
        spec_unique_keys(s),
        0 <= i < s.len(),
    ensures
        spec_count(s, s[i].0) == s[i].1,
    decreases s.len(),
{
    if i > 0 {
        assert(s[0].0 != s[i].0);
        assert(spec_unique_keys(s.drop_first())) by {
            assert(forall|i2: int, j2: int|
                0 <= i2 < j2 < s.drop_first().len() ==> (#[trigger] s.drop_first()[i2]).0 != (
                #[trigger] s.drop_first()[j2]).0);
        }
        assert(s.drop_first()[i - 1] == s[i]);
        lemma_count_at(s.drop_first(), i - 1);
    }
}

/// Appending a fresh key sets its count, leaves every other count alone,
/// and raises the total by the new value.
pub proof fn lemma_push_new(s: Seq<(CountKey, u32)>, k: CountKey, v: u32)
    ensures
        spec_count(s.push((k, v)), k) == if spec_has_key(s, k) {
            spec_count(s, k)
        } else {
            v
        },
        forall|k2: CountKey| k2 != k ==> spec_count(s.push((k, v)), k2) == spec_count(s, k2),
        spec_total(s.push((k, v))) == spec_total(s) + v,
    decreases s.len(),
{
    let t = s.push((k, v));
    if s.len() == 0 {
        assert(t.drop_first() =~= Seq::<(CountKey, u32)>::empty());
        assert(t[0] == (k, v));
        assert forall|k2: CountKey| k2 != k implies spec_count(t, k2) == spec_count(s, k2) by {
            assert(spec_count(t, k2) == spec_count(t.drop_first(), k2));
        };
        assert(spec_total(t) == v + spec_total(t.drop_first()));
    } else {
        let sd = s.drop_first();
        assert(t.drop_first() =~= sd.push((k, v)));
        lemma_push_new(sd, k, v);
        assert(t[0] == s[0]);
        assert(spec_total(t) == s[0].1 + spec_total(sd.push((k, v))));
        assert(spec_total(s) == s[0].1 + spec_total(sd));
        assert forall|k2: CountKey| k2 != k implies spec_count(t, k2) == spec_count(s, k2) by {
            if s[0].0 != k2 {
                assert(spec_count(t, k2) == spec_count(sd.push((k, v)), k2));
                assert(spec_count(sd.push((k, v)), k2) == spec_count(sd, k2));
            }
        };
        if s[0].0 != k {
            assert(spec_count(t, k) == spec_count(sd.push((k, v)), k));
            if spec_has_key(s, k) {
                let i = choose|i: int| 0 <= i < s.len() && (#[trigger] s[i]).0 == k;
                assert(sd[i - 1] == s[i]);
                assert(spec_has_key(sd, k));
            } else {
                assert(!spec_has_key(sd, k)) by {
                    if spec_has_key(sd, k) {
                        let i = choose|i: int|
                            0 <= i < sd.len() && (#[trigger] sd[i]).0 == k;
                        assert(s[i + 1] == sd[i]);
                    }
                }
            }
        }
    }
}

/// Updating the value at one index sets that key's count, leaves every other
/// count alone, and shifts the total by the difference.
pub proof fn lemma_update_at(s: Seq<(CountKey, u32)>, i: int, v: u32)
    requires
        spec_unique_keys(s),
        0 <= i < s.len(),
    ensures
        spec_count(s.update(i, (s[i].0, v)), s[i].0) == v,
        forall|k2: CountKey|
            k2 != s[i].0 ==> spec_count(s.update(i, (s[i].0, v)), k2) == spec_count(s, k2),
        spec_total(s.update(i, (s[i].0, v))) == spec_total(s) - s[i].1 + v,
        spec_unique_keys(s.update(i, (s[i].0, v))),
    decreases s.len(),
{
    let t = s.update(i, (s[i].0, v));
    assert(spec_unique_keys(t)) by {
        assert(forall|i2: int| 0 <= i2 < t.len() ==> (#[trigger] t[i2]).0 == s[i2].0);
    }
    if i == 0 {
        assert(t.drop_first() =~= s.drop_first());
        assert(t[0] == (s[0].0, v));
        assert forall|k2: CountKey| k2 != s[0].0 implies spec_count(t, k2) == spec_count(
            s,
            k2,
        ) by {
            assert(spec_count(t, k2) == spec_count(t.drop_first(), k2));
            assert(spec_count(s, k2) == spec_count(s.drop_first(), k2));
        };
        assert(spec_total(t) == v + spec_total(t.drop_first()));
        assert(spec_total(s) == s[0].1 + spec_total(s.drop_first()));
    } else {
        let sd = s.drop_first();
        assert(t.drop_first() =~= sd.update(i - 1, (s[i].0, v)));
        assert(spec_unique_keys(sd)) by {
            assert(forall|i2: int, j2: int|
                0 <= i2 < j2 < sd.len() ==> (#[trigger] sd[i2]).0 != (#[trigger] sd[j2]).0);
        }
        assert(sd[i - 1] == s[i]);
        lemma_update_at(sd, i - 1, v);
        assert(s[0].0 != s[i].0);
        assert(t[0] == s[0]);
        let td = sd.update(i - 1, (s[i].0, v));
        assert(spec_total(t) == s[0].1 + spec_total(td));
        assert(spec_total(s) == s[0].1 + spec_total(sd));
        assert(spec_count(t, s[i].0) == spec_count(td, s[i].0));
        assert forall|k2: CountKey| k2 != s[i].0 implies spec_count(t, k2) == spec_count(
            s,
            k2,
        ) by {
            if s[0].0 != k2 {
                assert(spec_count(t, k2) == spec_count(td, k2));
                assert(spec_count(td, k2) == spec_count(sd, k2));
                assert(spec_count(s, k2) == spec_count(sd, k2));
            }
        };
    }
}

/// Saturating 32-bit addition.
pub open spec fn spec_sat_add(a: u32, b: u32) -> u32 {
    if a + b <= u32::MAX {
        (a + b) as u32
    } else {
        u32::MAX
    }
}

/// Saturating 32-bit subtraction.
pub open spec fn spec_sat_sub(a: u32, b: u32) -> u32 {
    if a >= b {
        (a - b) as u32
    } else {
        0
    }
}

/// A map from keys to counts with saturating updates.
#[derive(Debug)]
pub struct CountMap {
    pub entries: Vec<(CountKey, u32)>,
}

impl CountMap {
    pub open spec fn wf(self) -> bool {
        spec_unique_keys(self.entries@)
    }

    /// The count stored for a key.
    pub open spec fn spec_get(self, k: CountKey) -> u32 {
        spec_count(self.entries@, k)
    }

    /// The sum of all counts.
    pub open spec fn spec_sum(self) -> int {
        spec_total(self.entries@)
    }

    /// Create an empty map.
    pub fn new() -> (r: CountMap)
        ensures
            r.wf(),
            forall|k: CountKey| r.spec_get(k) == 0,
            r.spec_sum() == 0,
    {
        let r = CountMap { entries: Vec::new() };
        proof {
            assert(r.entries@ =~= Seq::<(CountKey, u32)>::empty());
            assert forall|k: CountKey| r.spec_get(k) == 0 by {}
        }
        r
    }

    /// Find the index holding a key.
    fn find_index(&self, k: CountKey) -> (r: Option<usize>)
        ensures
            r matches Some(i) ==> i < self.entries@.len() && self.entries@[i as int].0 == k,
            r is None ==> !spec_has_key(self.entries@, k),
    {
        let mut i: usize = 0;
        while i < self.entries.len()
            invariant
                i <= self.entries@.len(),
                forall|j: int| 0 <= j < i ==> (#[trigger] self.entries@[j]).0 != k,
            decreases self.entries@.len() - i,
        {
            if self.entries[i].0 == k {
                return Some(i);
            }
            i = i + 1;
        }
        None
    }

    /// Look up the count for a key; absent keys count zero.
    pub fn get(&self, k: CountKey) -> (r: u32)
        requires
            self.wf(),
        ensures
            r == self.spec_get(k),
    {
        match self.find_index(k) {
            Some(i) => {
                proof {
                    lemma_count_at(self.entries@, i as int);
                }
                self.entries[i].1
            },
            None => {
                proof {
                    lemma_count_absent(self.entries@, k);
                }
                0
            },
        }
    }

    /// Add to a key's count, saturating at the maximum.
    pub fn add(&mut self, k: CountKey, amount: u32)
        requires
            old(self).wf(),
        ensures
            final(self).wf(),
            final(self).spec_get(k) == spec_sat_add(old(self).spec_get(k), amount),
            forall|k2: CountKey| k2 != k ==> final(self).spec_get(k2) == old(self).spec_get(k2),
            final(self).spec_sum() == old(self).spec_sum() - old(self).spec_get(k)
                + final(self).spec_get(k),
    {
        match self.find_index(k) {
            Some(i) => {
                proof {
                    lemma_count_at(self.entries@, i as int);
                }
                let c = self.entries[i].1;
                let next = if c <= u32::MAX - amount {
                    c + amount
                } else {
                    u32::MAX
                };
                proof {
                    lemma_update_at(self.entries@, i as int, next);
                }
                self.entries.set(i, (k, next));
            },
            None => {
                proof {
                    lemma_count_absent(self.entries@, k);
                    lemma_push_new(self.entries@, k, amount);
                    assert forall|i2: int, j2: int|
                        0 <= i2 < j2 < self.entries@.push((k, amount)).len() implies (
                    #[trigger] self.entries@.push((k, amount))[i2]).0 != (#[trigger] self.entries@.push(
                        (k, amount),
                    )[j2]).0 by {
                        if j2 < self.entries@.len() {
                            assert(self.entries@[i2].0 != self.entries@[j2].0);
                        } else {
                            assert(self.entries@.push((k, amount))[j2].0 == k);
                        }
                    };
                }
                self.entries.push((k, amount));
            },
        }
    }

    /// Subtract from a key's count, saturating at zero.
    pub fn sub(&mut self, k: CountKey, amount: u32)
        requires
            old(self).wf(),
        ensures
            final(self).wf(),
            final(self).spec_get(k) == spec_sat_sub(old(self).spec_get(k), amount),
            forall|k2: CountKey| k2 != k ==> final(self).spec_get(k2) == old(self).spec_get(k2),
            final(self).spec_sum() == old(self).spec_sum() - old(self).spec_get(k)
                + final(self).spec_get(k),
    {
        match self.find_index(k) {
            Some(i) => {
                proof {
                    lemma_count_at(self.entries@, i as int);
                }
                let c = self.entries[i].1;
                let next = if c >= amount {
                    c - amount
                } else {
                    0
                };
                proof {
                    lemma_update_at(self.entries@, i as int, next);
                }
                self.entries.set(i, (k, next));
            },
            None => {
                proof {
                    lemma_count_absent(self.entries@, k);
                }
            },
        }
    }
}

} // verus!
