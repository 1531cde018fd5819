//! Connection management: the per-endpoint handshake state machine, the
//! connection table with its per-IP counters, and the bounded per-peer send
//! queue.
//!
//! Sockets themselves live outside this crate; callers drive the state
//! machine with the endpoints, identities and times they observe.

use vstd::prelude::*;
use crate::counters::{CountKey, CountMap};
use crate::message::Message;
use crate::types::{ConnectionDirection, DisconnectReason, Endpoint, IpAddress, NetworkError, PeerId};
use crate::types::spec_peer_id_lt;

verus! {

/// Connection configuration.
#[derive(Clone, Debug)]
pub struct ConnectionConfig {
    pub handshake_timeout_ms: u64,
    pub max_pending_connections: usize,
    pub tls_config: Option<TlsConfig>,
    pub enable_0rtt: bool,
}

/// TLS configuration: file locations handed to the transport layer.
#[derive(Clone, Debug)]
pub struct TlsConfig {
    pub certificate_path: String,
    pub private_key_path: String,
}

/// Connection state.
#[derive(Debug, Clone, Copy, PartialEq, Eq, Structural)]
pub enum ConnectionState {
    Connecting,
    Handshaking,
    Connected,
    ShuttingDown,
    Disconnected,
}

/// Connection limits.
#[derive(Clone, Debug)]
pub struct ConnectionLimits {
    pub max_inbound_connections: usize,
    pub max_outbound_connections: usize,
    pub max_connections_per_ip: u32,
    pub max_pending_handshakes: usize,
    pub handshake_timeout_ms: u64,
    pub idle_timeout_ms: u64,
}

impl Default for ConnectionLimits {
    /// The default limits: 128 inbound, 32 outbound, 5 per IP, a ten second
    /// handshake timeout and a ten minute idle timeout.
    fn default() -> (r: ConnectionLimits)
        ensures
            r.max_inbound_connections == 128,
            r.max_outbound_connections == 32,
            r.max_connections_per_ip == 5,
            r.max_pending_handshakes == 10,
            r.handshake_timeout_ms == 10000,
            r.idle_timeout_ms == 600000,
    {
        ConnectionLimits {
            max_inbound_connections: 128,
            max_outbound_connections: 32,
            max_connections_per_ip: 5,
            max_pending_handshakes: 10,
            handshake_timeout_ms: 10000,
            idle_timeout_ms: 600000,
        }
    }
}

/// Connection information.
#[derive(Debug)]
pub struct Connection {
    pub peer_id: PeerId,
    pub address: Endpoint,
    pub direction: ConnectionDirection,
    pub state: ConnectionState,
    pub connected_at_ms: u64,
    pub last_activity_ms: u64,
    pub user_agent: String,
    pub protocol_version: u32,
}

/// The first index holding the lowest priority value, oldest first.
pub open spec fn spec_lowest_priority_index(s: Seq<(u8, Message)>) -> int
    recommends
        s.len() > 0,
    decreases s.len(),
{
    if s.len() <= 1 {
        0
    } else {
        let rest = spec_lowest_priority_index(s.drop_last());
        if s.last().0 < s[rest].0 {
            s.len() - 1
        } else {
            rest
        }
    }
}

/// Bounded per-peer send queue.
///
/// Overflow drops the oldest queued message at the lowest priority; the
/// relative order of what remains is never changed.
#[derive(Debug)]
pub struct SendQueue {
    pub items: Vec<(u8, Message)>,
    pub capacity: usize,
}

impl SendQueue {
    pub open spec fn wf(self) -> bool {
        &&& self.items@.len() <= self.capacity
        &&& self.capacity >= 1
    }

    /// Create an empty queue with the given capacity.
    pub fn new(capacity: usize) -> (r: SendQueue)
        requires
            capacity >= 1,
        ensures
            r.wf(),
            r.capacity == capacity,
            r.items@.len() == 0,
    {
        SendQueue { items: Vec::new(), capacity }
    }

    /// Enqueue a message at a priority.  A full queue first drops its oldest
    /// entry among those with the lowest priority.
    pub fn enqueue(&mut self, priority: u8, message: Message)
        requires
            old(self).wf(),
        ensures
            final(self).wf(),
            final(self).capacity == old(self).capacity,
            old(self).items@.len() < old(self).capacity ==> final(self).items@ == old(self).items@.push((priority, message)),
            old(self).items@.len() >= old(self).capacity ==> final(self).items@ == old(self).items@.remove(spec_lowest_priority_index(old(self).items@)).push(
                (priority, message),
            ),
    {
        if self.items.len() >= self.capacity {
            let ghost s = self.items@;
            let mut lowest: usize = 0;
            let mut i: usize = 1;
            while i < self.items.len()
                invariant
                    self.items@ == s,
                    s.len() >= 1,
                    lowest < i <= s.len(),
                    lowest as int == spec_lowest_priority_index(s.take(i as int)),
                decreases s.len() - i,
            {
                proof {
                    assert(s.take(i as int + 1).drop_last() =~= s.take(i as int));
                    assert(s.take(i as int + 1).last() == s[i as int]);
                }
                if self.items[i].0 < self.items[lowest].0 {
                    lowest = i;
                }
                i = i + 1;
            }
            proof {
                assert(s.take(s.len() as int) =~= s);
            }
            self.items.remove(lowest);
        }
        self.items.push((priority, message));
    }

    /// Remove and return the front of the queue.
    pub fn dequeue(&mut self) -> (r: Option<(u8, Message)>)
        requires
            old(self).wf(),
        ensures
            final(self).wf(),
            final(self).capacity == old(self).capacity,
            old(self).items@.len() == 0 ==> r is None && final(self).items@ == old(self).items@,
            old(self).items@.len() > 0 ==> (r == Some(old(self).items@[0]) && final(self).items@
                == old(self).items@.drop_first()),
    {
        if self.items.len() == 0 {
            None
        } else {
            let item = self.items.remove(0);
            proof {
                assert(self.items@ =~= old(self).items@.drop_first());
            }
            Some(item)
        }
    }

    /// The number of queued messages.
    pub fn len(&self) -> (r: usize)
        ensures
            r == self.items@.len(),
    {
        self.items.len()
    }
}

/// The number of connections bound to an IP address.
pub open spec fn spec_ip_count(s: Seq<Connection>, ip: IpAddress) -> int
    decreases s.len(),
{
    if s.len() == 0 {
        0int
    } else {
        (if s[0].address.ip == ip {
            1int
        } else {
            0int
        }) + spec_ip_count(s.drop_first(), ip)
    }
}

/// The number of connections in a direction.
pub open spec fn spec_direction_count(s: Seq<Connection>, d: ConnectionDirection) -> int
    decreases s.len(),
{
    if s.len() == 0 {
        0int
    } else {
        (if s[0].direction == d {
            1int
        } else {
            0int
        }) + spec_direction_count(s.drop_first(), d)
    }
}

/// Per-IP counts lie between zero and the table size.
proof fn lemma_ip_count_bounds(s: Seq<Connection>, ip: IpAddress)
    ensures
        0 <= spec_ip_count(s, ip) <= s.len(),
    decreases s.len(),
{
    if s.len() > 0 {
        lemma_ip_count_bounds(s.drop_first(), ip);
    }
}

/// Appending a connection raises exactly its own IP's count.
proof fn lemma_ip_count_push(s: Seq<Connection>, c: Connection, ip: IpAddress)
    ensures
        spec_ip_count(s.push(c), ip) == spec_ip_count(s, ip) + if c.address.ip == ip {
            1int
        } else {
            0int
        },
    decreases s.len(),
{
    let t = s.push(c);
    if s.len() == 0 {
        assert(t.drop_first() =~= Seq::<Connection>::empty());
        assert(t[0] == c);
        assert(spec_ip_count(t, ip) == (if c.address.ip == ip {
            1int
        } else {
            0int
        }) + spec_ip_count(t.drop_first(), ip));
    } else {
        assert(t.drop_first() =~= s.drop_first().push(c));
        lemma_ip_count_push(s.drop_first(), c, ip);
        assert(t[0] == s[0]);
        assert(spec_ip_count(t, ip) == (if s[0].address.ip == ip {
            1int
        } else {
            0int
        }) + spec_ip_count(t.drop_first(), ip));
        assert(spec_ip_count(s, ip) == (if s[0].address.ip == ip {
            1int
        } else {
            0int
        }) + spec_ip_count(s.drop_first(), ip));
    }
}

/// Removing a connection lowers exactly its own IP's count.
proof fn lemma_ip_count_remove(s: Seq<Connection>, i: int, ip: IpAddress)
    requires
        0 <= i < s.len(),
    ensures
        spec_ip_count(s.remove(i), ip) == spec_ip_count(s, ip) - if s[i].address.ip == ip {
            1int
        } else {
            0int
        },
    decreases s.len(),
{
    let t = s.remove(i);
    if i == 0 {
        assert(t =~= s.drop_first());
    } else {
        assert(t.drop_first() =~= s.drop_first().remove(i - 1));
        assert(s.drop_first()[i - 1] == s[i]);
        lemma_ip_count_remove(s.drop_first(), i - 1, ip);
        assert(t[0] == s[0]);
    }
}

/// A connection at some index makes its IP's count at least one.
proof fn lemma_ip_count_at_least_one(s: Seq<Connection>, i: int)
    requires
        0 <= i < s.len(),
    ensures
        spec_ip_count(s, s[i].address.ip) >= 1,
    decreases s.len(),
{
    lemma_ip_count_bounds(s.drop_first(), s[i].address.ip);
    if i > 0 {
        assert(s.drop_first()[i - 1] == s[i]);
        lemma_ip_count_at_least_one(s.drop_first(), i - 1);
    }
}

/// Whether the new handshake survives a duplicate-identity race.
///
/// Between two peers with simultaneous inbound and outbound connections,
/// the peer with the lexicographically smaller identifier keeps its
/// outbound connection.
pub open spec fn spec_keep_new_connection(
    local_id: PeerId,
    remote_id: PeerId,
    new_direction: ConnectionDirection,
) -> bool {
    if spec_peer_id_lt(local_id, remote_id) {
        new_direction == ConnectionDirection::Outbound
    } else {
        new_direction == ConnectionDirection::Inbound
    }
}

/// Connection manager: owns the connection table and its counters.
pub struct ConnectionManager {
    pub config: ConnectionConfig,
    pub limits: ConnectionLimits,
    pub connections: Vec<Connection>,
    pub connecting: Vec<(Endpoint, u64)>,
    pub handshaking: Vec<(Endpoint, u64)>,
    pub ip_connections: CountMap,
}

/// Whether a peer identifier is present in a connection table.
pub open spec fn spec_table_has_peer(s: Seq<Connection>, p: PeerId) -> bool {
    exists|i: int| 0 <= i < s.len() && (#[trigger] s[i]).peer_id == p
}

/// Whether an endpoint is pending in a list of attempts.
pub open spec fn spec_pending_has(s: Seq<(Endpoint, u64)>, e: Endpoint) -> bool {
    exists|i: int| 0 <= i < s.len() && (#[trigger] s[i]).0 == e
}

impl ConnectionManager {
    /// The connection table invariants: distinct peers, and the per-IP
    /// counters in lock-step with the table.
    pub open spec fn wf(self) -> bool {
        &&& forall|i: int, j: int|
            0 <= i < j < self.connections@.len() ==> (#[trigger] self.connections@[i]).peer_id != (
            #[trigger] self.connections@[j]).peer_id
        &&& self.ip_connections.wf()
        &&& forall|ip: IpAddress| #[trigger]
            self.ip_connections.spec_get(CountKey::Ip(ip)) == spec_ip_count(self.connections@, ip)
        &&& self.ip_connections.spec_sum() == self.connections@.len()
        &&& self.connections@.len() < u32::MAX
    }

    /// Create a new connection manager.
    pub fn new(config: ConnectionConfig, limits: ConnectionLimits) -> (r: ConnectionManager)
        ensures
            r.wf(),
            r.connections@.len() == 0,
            r.connecting@.len() == 0,
            r.handshaking@.len() == 0,
    {
        let r = ConnectionManager {
            config,
            limits,
            connections: Vec::new(),
            connecting: Vec::new(),
            handshaking: Vec::new(),
            ip_connections: CountMap::new(),
        };
        proof {
            assert forall|ip: IpAddress| #[trigger]
                r.ip_connections.spec_get(CountKey::Ip(ip)) == spec_ip_count(
                    r.connections@,
                    ip,
                ) by {}
        }
        r
    }

    fn pending_contains(list: &Vec<(Endpoint, u64)>, addr: &Endpoint) -> (r: bool)
        ensures
            r == spec_pending_has(list@, *addr),
    {
        let mut i: usize = 0;
        while i < list.len()
            invariant
                i <= list@.len(),
                forall|j: int| 0 <= j < i ==> (#[trigger] list@[j]).0 != *addr,
            decreases list@.len() - i,
        {
            if list[i].0 == *addr {
                proof {
                    assert(list@[i as int].0 == *addr);
                }
                return true;
            }
            i = i + 1;
        }
        false
    }

    fn find_peer(&self, peer_id: &PeerId) -> (r: Option<usize>)
        ensures
            r matches Some(i) ==> i < self.connections@.len()
                && self.connections@[i as int].peer_id == *peer_id,
            r is None ==> !spec_table_has_peer(self.connections@, *peer_id),
    {
        let mut i: usize = 0;
        while i < self.connections.len()
            invariant
                i <= self.connections@.len(),
                forall|j: int| 0 <= j < i ==> (#[trigger] self.connections@[j]).peer_id != *peer_id,
            decreases self.connections@.len() - i,
        {
            if self.connections[i].peer_id == *peer_id {
                return Some(i);
            }
            i = i + 1;
        }
        None
    }

    /// Handle a new inbound connection attempt: admission checks, then the
    /// endpoint enters the handshaking state.
    ///
    /// Rejected when the table is full, the endpoint's IP is at its cap, or
    /// an attempt for the endpoint is already underway, and only then.
    pub fn handle_inbound_connection(&mut self, addr: Endpoint, now: u64) -> (r: Result<
        (),
        NetworkError,
    >)
        requires
            old(self).wf(),
        ensures
            final(self).wf(),
            r is Ok <==> {
                &&& old(self).connections@.len() < old(self).limits.max_inbound_connections
                &&& old(self).ip_connections.spec_get(CountKey::Ip(addr.ip)) < old(self).limits.max_connections_per_ip
                &&& !spec_pending_has(old(self).connecting@, addr)
                &&& !spec_pending_has(old(self).handshaking@, addr)
            },
            r is Ok ==> final(self).handshaking@ == old(self).handshaking@.push((addr, now)),
            r is Err ==> *final(self) == *old(self),
            final(self).connections@ == old(self).connections@,
            final(self).connecting@ == old(self).connecting@,
    {
        if self.connections.len() >= self.limits.max_inbound_connections {
            return Err(NetworkError::ConnectionFailed("too many connections".to_owned()));
        }
        let ip_count = self.ip_connections.get(CountKey::Ip(addr.ip));
        if ip_count >= self.limits.max_connections_per_ip {
            return Err(
                NetworkError::ConnectionFailed("too many connections from this IP".to_owned()),
            );
        }
        if Self::pending_contains(&self.connecting, &addr) || Self::pending_contains(
            &self.handshaking,
            &addr,
        ) {
            return Err(
                NetworkError::ConnectionFailed("already connecting to this address".to_owned()),
            );
        }
        self.handshaking.push((addr, now));
        Ok(())
    }

    /// Begin an outbound dial: admission checks, then the endpoint enters
    /// the connecting state.  The caller performs the actual dial.
    pub fn begin_outbound_connection(&mut self, addr: Endpoint, now: u64) -> (r: Result<
        (),
        NetworkError,
    >)
        requires
            old(self).wf(),
        ensures
            final(self).wf(),
            r is Ok <==> {
                &&& old(self).connections@.len() < old(self).limits.max_outbound_connections
                &&& old(self).ip_connections.spec_get(CountKey::Ip(addr.ip)) < old(self).limits.max_connections_per_ip
                &&& !spec_pending_has(old(self).connecting@, addr)
            },
            r is Ok ==> final(self).connecting@ == old(self).connecting@.push((addr, now)),
            r is Err ==> *final(self) == *old(self),
            final(self).connections@ == old(self).connections@,
            final(self).handshaking@ == old(self).handshaking@,
    {
        if self.connections.len() >= self.limits.max_outbound_connections {
            return Err(NetworkError::ConnectionFailed("too many outbound connections".to_owned()));
        }
        let ip_count = self.ip_connections.get(CountKey::Ip(addr.ip));
        if ip_count >= self.limits.max_connections_per_ip {
            return Err(
                NetworkError::ConnectionFailed("too many connections to this IP".to_owned()),
            );
        }
        if Self::pending_contains(&self.connecting, &addr) {
            return Err(
                NetworkError::ConnectionFailed("already connecting to this address".to_owned()),
            );
        }
        self.connecting.push((addr, now));
        Ok(())
    }

    /// Drop an endpoint from the pending lists, after a failed dial or a
    /// handshake that never finished.
    pub fn abort_pending(&mut self, addr: &Endpoint)
        requires
            old(self).wf(),
        ensures
            final(self).wf(),
            final(self).connections@ == old(self).connections@,
            !spec_pending_has(final(self).connecting@, *addr),
            !spec_pending_has(final(self).handshaking@, *addr),
    {
        let mut kept: Vec<(Endpoint, u64)> = Vec::new();
        let mut i: usize = 0;
        while i < self.connecting.len()
            invariant
                i <= self.connecting@.len(),
                forall|j: int| 0 <= j < kept@.len() ==> (#[trigger] kept@[j]).0 != *addr,
            decreases self.connecting@.len() - i,
        {
            let entry = self.connecting[i];
            if !(entry.0 == *addr) {
                kept.push(entry);
            }
            i = i + 1;
        }
        self.connecting = kept;
        let mut kept2: Vec<(Endpoint, u64)> = Vec::new();
        let mut j: usize = 0;
        while j < self.handshaking.len()
            invariant
                j <= self.handshaking@.len(),
                forall|j2: int| 0 <= j2 < kept2@.len() ==> (#[trigger] kept2@[j2]).0 != *addr,
            decreases self.handshaking@.len() - j,
        {
            let entry = self.handshaking[j];
            if !(entry.0 == *addr) {
                kept2.push(entry);
            }
            j = j + 1;
        }
        self.handshaking = kept2;
    }

    /// Attach a fresh connection to the table and raise its IP's counter.
    fn attach(&mut self, conn: Connection)
        requires
            old(self).wf(),
            !spec_table_has_peer(old(self).connections@, conn.peer_id),
            old(self).connections@.len() + 1 < u32::MAX,
        ensures
            final(self).wf(),
            final(self).connections@ == old(self).connections@.push(conn),
            final(self).connecting@ == old(self).connecting@,
            final(self).handshaking@ == old(self).handshaking@,
            final(self).config == old(self).config,
            final(self).limits == old(self).limits,
    {
        let ghost s = self.connections@;
        let ip = conn.address.ip;
        proof {
            lemma_ip_count_bounds(s, ip);
        }
        self.ip_connections.add(CountKey::Ip(ip), 1);
        self.connections.push(conn);
        proof {
            assert forall|ip2: IpAddress| #[trigger]
                self.ip_connections.spec_get(CountKey::Ip(ip2)) == spec_ip_count(
                    self.connections@,
                    ip2,
                ) by {
                lemma_ip_count_push(s, conn, ip2);
                if ip2 != ip {
                    assert(CountKey::Ip(ip2) != CountKey::Ip(ip));
                }
            };
        }
    }

    /// Detach the connection at an index and lower its IP's counter.
    fn detach(&mut self, index: usize)
        requires
            old(self).wf(),
            index < old(self).connections@.len(),
        ensures
            final(self).wf(),
            final(self).connections@ == old(self).connections@.remove(index as int),
            final(self).connecting@ == old(self).connecting@,
            final(self).handshaking@ == old(self).handshaking@,
            final(self).config == old(self).config,
            final(self).limits == old(self).limits,
    {
        let ghost s = self.connections@;
        let ip = self.connections[index].address.ip;
        proof {
            lemma_ip_count_at_least_one(s, index as int);
        }
        self.ip_connections.sub(CountKey::Ip(ip), 1);
        self.connections.remove(index);
        proof {
            assert forall|ip2: IpAddress| #[trigger]
                self.ip_connections.spec_get(CountKey::Ip(ip2)) == spec_ip_count(
                    self.connections@,
                    ip2,
                ) by {
                lemma_ip_count_remove(s, index as int, ip2);
                if ip2 != ip {
                    assert(CountKey::Ip(ip2) != CountKey::Ip(ip));
                }
            };
            let t = self.connections@;
            assert forall|i2: int, j2: int|
                0 <= i2 < j2 < t.len() implies (#[trigger] t[i2]).peer_id != (
            #[trigger] t[j2]).peer_id by {
                assert(t == s.subrange(0, index as int) + s.subrange(
                    index as int + 1,
                    s.len() as int,
                ));
            };
        }
    }

    /// Complete a handshake: bind the remote identity and register the
    /// connection.
    ///
    /// A duplicate identity is resolved deterministically: the side with
    /// the lexicographically smaller peer identifier keeps its outbound
    /// connection, and the loser is dropped with `DuplicateConnection` —
    /// either the new handshake (an error) or the existing connection
    /// (returned as an event for the caller to close).
    pub fn complete_handshake(
        &mut self,
        addr: Endpoint,
        peer_id: PeerId,
        direction: ConnectionDirection,
        protocol_version: u32,
        user_agent: String,
        local_id: PeerId,
        now: u64,
    ) -> (r: Result<Option<(PeerId, DisconnectReason)>, NetworkError>)
        requires
            old(self).wf(),
            old(self).connections@.len() + 1 < u32::MAX,
        ensures
            final(self).wf(),
            // no duplicate: the table gains exactly the new connection
            !spec_table_has_peer(old(self).connections@, peer_id) ==> r == Ok::<
                Option<(PeerId, DisconnectReason)>,
                NetworkError,
            >(None) && final(self).connections@ == old(self).connections@.push(
                (Connection {
                    peer_id,
                    address: addr,
                    direction,
                    state: ConnectionState::Connected,
                    connected_at_ms: now,
                    last_activity_ms: now,
                    user_agent,
                    protocol_version,
                }),
            ),
            // duplicate and the new connection wins: the old entry leaves and
            // the new connection is registered
            spec_table_has_peer(old(self).connections@, peer_id) && spec_keep_new_connection(
                local_id,
                peer_id,
                direction,
            ) ==> r == Ok::<Option<(PeerId, DisconnectReason)>, NetworkError>(
                Some((peer_id, DisconnectReason::DuplicateConnection)),
            ) && exists|i: int|
                0 <= i < old(self).connections@.len() && (#[trigger] old(self).connections@[i]).peer_id == peer_id && final(self).connections@ == old(self).connections@.remove(i).push(
                    (Connection {
                        peer_id,
                        address: addr,
                        direction,
                        state: ConnectionState::Connected,
                        connected_at_ms: now,
                        last_activity_ms: now,
                        user_agent,
                        protocol_version,
                    }),
                ),
            // duplicate and the existing connection wins: the new one is refused
            spec_table_has_peer(old(self).connections@, peer_id) && !spec_keep_new_connection(
                local_id,
                peer_id,
                direction,
            ) ==> r == Err::<Option<(PeerId, DisconnectReason)>, NetworkError>(
                NetworkError::DuplicateConnection,
            ) && final(self).connections@ == old(self).connections@,
            // either way the peer stays connected exactly once, and the
            // endpoint is no longer pending
            spec_table_has_peer(final(self).connections@, peer_id),
            !spec_pending_has(final(self).connecting@, addr),
            !spec_pending_has(final(self).handshaking@, addr),
    {
        self.abort_pending(&addr);
        let conn = Connection {
            peer_id,
            address: addr,
            direction,
            state: ConnectionState::Connected,
            connected_at_ms: now,
            last_activity_ms: now,
            user_agent,
            protocol_version,
        };
        match self.find_peer(&peer_id) {
            Some(existing) => {
                let keep_new = if local_id.lt(&peer_id) {
                    matches!(direction, ConnectionDirection::Outbound)
                } else {
                    matches!(direction, ConnectionDirection::Inbound)
                };
                if keep_new {
                    self.detach(existing);
                    proof {
                        let t = self.connections@;
                        let s = old(self).connections@;
                        assert forall|i2: int| 0 <= i2 < t.len() implies (#[trigger] t[i2]).peer_id
                            != peer_id by {
                            assert(t == s.subrange(0, existing as int) + s.subrange(
                                existing as int + 1,
                                s.len() as int,
                            ));
                            if i2 < existing as int {
                                assert(t[i2] == s[i2]);
                            } else {
                                assert(t[i2] == s[i2 + 1]);
                            }
                        };
                    }
                    self.attach(conn);
                    proof {
                        assert(self.connections@[self.connections@.len() - 1].peer_id == peer_id);
                    }
                    Ok(Some((peer_id, DisconnectReason::DuplicateConnection)))
                } else {
                    proof {
                        assert(old(self).connections@[existing as int].peer_id == peer_id);
                    }
                    Err(NetworkError::DuplicateConnection)
                }
            },
            None => {
                self.attach(conn);
                proof {
                    assert(self.connections@[self.connections@.len() - 1].peer_id == peer_id);
                }
                Ok(None)
            },
        }
    }

    /// Disconnect a peer, releasing its slot and its IP counter.
    pub fn disconnect(&mut self, peer_id: PeerId, _reason: DisconnectReason)
        requires
            old(self).wf(),
        ensures
            final(self).wf(),
            !spec_table_has_peer(final(self).connections@, peer_id),
            final(self).connections@.len() == if spec_table_has_peer(
                old(self).connections@,
                peer_id,
            ) {
                old(self).connections@.len() - 1
            } else {
                old(self).connections@.len() as int
            },
    {
        match self.find_peer(&peer_id) {
            Some(index) => {
                self.detach(index);
                proof {
                    let t = self.connections@;
                    let s = old(self).connections@;
                    assert(s[index as int].peer_id == peer_id);
                    assert forall|i2: int| 0 <= i2 < t.len() implies (#[trigger] t[i2]).peer_id
                        != peer_id by {
                        assert(t == s.subrange(0, index as int) + s.subrange(
                            index as int + 1,
                            s.len() as int,
                        ));
                        if i2 < index as int {
                            assert(t[i2] == s[i2]);
                        } else {
                            assert(t[i2] == s[i2 + 1]);
                        }
                    };
                }
            },
            None => {},
        }
    }

    /// Refresh a peer's activity timestamp.
    pub fn record_activity(&mut self, peer_id: &PeerId, now: u64)
        requires
            old(self).wf(),
        ensures
            final(self).wf(),
            final(self).connections@.len() == old(self).connections@.len(),
    {
        match self.find_peer(peer_id) {
            Some(index) => {
                let ghost s = self.connections@;
                let old_conn = &self.connections[index];
                let updated = Connection {
                    peer_id: old_conn.peer_id,
                    address: old_conn.address,
                    direction: old_conn.direction,
                    state: old_conn.state,
                    connected_at_ms: old_conn.connected_at_ms,
                    last_activity_ms: now,
                    user_agent: old_conn.user_agent.clone(),
                    protocol_version: old_conn.protocol_version,
                };
                self.connections.set(index, updated);
                proof {
                    let t = self.connections@;
                    assert(forall|i2: int|
                        0 <= i2 < t.len() ==> (#[trigger] t[i2]).peer_id == s[i2].peer_id && (
                        #[trigger] t[i2]).address == s[i2].address);
                    assert forall|ip2: IpAddress| #[trigger]
                        self.ip_connections.spec_get(CountKey::Ip(ip2)) == spec_ip_count(
                            t,
                            ip2,
                        ) by {
                        lemma_ip_count_same_ips(s, t, ip2);
                    };
                }
            },
            None => {},
        }
    }

    /// Get the number of connections.
    pub fn connection_count(&self) -> (r: usize)
        ensures
            r == self.connections@.len(),
    {
        self.connections.len()
    }

    /// Get the number of inbound connections.
    pub fn inbound_connection_count(&self) -> (r: usize)
        ensures
            r == spec_direction_count(self.connections@, ConnectionDirection::Inbound),
    {
        self.direction_count(ConnectionDirection::Inbound)
    }

    /// Get the number of outbound connections.
    pub fn outbound_connection_count(&self) -> (r: usize)
        ensures
            r == spec_direction_count(self.connections@, ConnectionDirection::Outbound),
    {
        self.direction_count(ConnectionDirection::Outbound)
    }

    fn direction_count(&self, d: ConnectionDirection) -> (r: usize)
        ensures
            r == spec_direction_count(self.connections@, d),
    {
        let ghost s = self.connections@;
        let mut count: usize = 0;
        let mut i: usize = 0;
        proof {
            assert(s.take(0) =~= Seq::<Connection>::empty());
        }
        while i < self.connections.len()
            invariant
                i <= s.len(),
                self.connections@ == s,
                count == spec_direction_count(s.take(i as int), d),
                count <= i,
            decreases s.len() - i,
        {
            proof {
                lemma_direction_count_take(s, i as int, d);
            }
            if self.connections[i].direction == d {
                count = count + 1;
            }
            i = i + 1;
        }
        proof {
            assert(s.take(s.len() as int) =~= s);
        }
        count
    }

    /// Check if we're connected to a peer.
    pub fn is_connected(&self, peer_id: &PeerId) -> (r: bool)
        ensures
            r == spec_table_has_peer(self.connections@, *peer_id),
    {
        match self.find_peer(peer_id) {
            Some(i) => {
                proof {
                    assert(self.connections@[i as int].peer_id == *peer_id);
                }
                true
            },
            None => false,
        }
    }

    /// Get a list of connected peers, in table order.
    pub fn connected_peers(&self) -> (r: Vec<PeerId>)
        ensures
            r@.len() == self.connections@.len(),
            forall|i: int|
                0 <= i < r@.len() ==> #[trigger] r@[i] == self.connections@[i].peer_id,
    {
        let mut out: Vec<PeerId> = Vec::new();
        let mut i: usize = 0;
        while i < self.connections.len()
            invariant
                i <= self.connections@.len(),
                out@.len() == i,
                forall|j: int|
                    0 <= j < i ==> #[trigger] out@[j] == self.connections@[j].peer_id,
            decreases self.connections@.len() - i,
        {
            out.push(self.connections[i].peer_id);
            i = i + 1;
        }
        out
    }

    /// Clean up stale handshakes and idle connections.
    ///
    /// Handshakes older than the handshake timeout are dropped with their
    /// counters untouched; connections idle past the idle timeout are
    /// disconnected and reported with the `Timeout` reason.
    pub fn clean_up_stale_connections(&mut self, now: u64) -> (r: Vec<(PeerId, DisconnectReason)>)
        requires
            old(self).wf(),
        ensures
            final(self).wf(),
            // surviving handshakes are the fresh ones, and every fresh one survives
            forall|j: int|
                0 <= j < final(self).handshaking@.len() ==> old(self).handshaking@.contains(
                    #[trigger] final(self).handshaking@[j],
                ) && final(self).handshaking@[j].1 + old(self).limits.handshake_timeout_ms >= now,
            forall|k: int|
                0 <= k < old(self).handshaking@.len() && (#[trigger] old(self).handshaking@[k]).1
                    + old(self).limits.handshake_timeout_ms >= now ==> final(self).handshaking@.contains(old(self).handshaking@[k]),
            // surviving connections are the active ones, and every active one survives
            forall|j: int|
                0 <= j < final(self).connections@.len() ==> (
                #[trigger] final(self).connections@[j]).last_activity_ms + old(self).limits.idle_timeout_ms >= now,
            forall|k: int|
                0 <= k < old(self).connections@.len() && (#[trigger] old(self).connections@[k]).last_activity_ms + old(self).limits.idle_timeout_ms >= now
                    ==> final(self).connections@.contains(old(self).connections@[k]),
            // every idle connection is reported with the timeout reason, and
            // every report carries it
            forall|k: int|
                0 <= k < old(self).connections@.len() && (#[trigger] old(self).connections@[k]).last_activity_ms + old(self).limits.idle_timeout_ms < now
                    ==> r@.contains((old(self).connections@[k].peer_id, DisconnectReason::Timeout)),
            forall|j: int|
                0 <= j < r@.len() ==> (#[trigger] r@[j]).1 == DisconnectReason::Timeout,
    {
        // drop stale handshakes
        let mut kept: Vec<(Endpoint, u64)> = Vec::new();
        let mut i: usize = 0;
        let ghost hs = self.handshaking@;
        while i < self.handshaking.len()
            invariant
                i <= hs.len(),
                self.handshaking@ == hs,
                forall|j: int|
                    0 <= j < kept@.len() ==> hs.contains(#[trigger] kept@[j]) && kept@[j].1
                        + self.limits.handshake_timeout_ms >= now,
                forall|k: int|
                    0 <= k < i && (#[trigger] hs[k]).1 + self.limits.handshake_timeout_ms >= now
                        ==> kept@.contains(hs[k]),
            decreases hs.len() - i,
        {
            let entry = self.handshaking[i];
            let fresh = match entry.1.checked_add(self.limits.handshake_timeout_ms) {
                Some(deadline) => deadline >= now,
                None => true,
            };
            let ghost old_kept = kept@;
            if fresh {
                proof {
                    assert(hs[i as int] == entry);
                }
                kept.push(entry);
            }
            proof {
                assert forall|k: int|
                    0 <= k < i + 1 && (#[trigger] hs[k]).1 + self.limits.handshake_timeout_ms
                        >= now implies kept@.contains(hs[k]) by {
                    if k < i {
                        assert(old_kept.contains(hs[k]));
                        let j = choose|j: int|
                            0 <= j < old_kept.len() && (#[trigger] old_kept[j]) == hs[k];
                        assert(kept@[j] == hs[k]);
                    } else {
                        assert(kept@[kept@.len() - 1] == hs[k]);
                    }
                };
            }
            i = i + 1;
        }
        self.handshaking = kept;

        // disconnect idle connections one at a time
        let mut out: Vec<(PeerId, DisconnectReason)> = Vec::new();
        proof {
            assert forall|j: int| 0 <= j < self.connections@.len() implies old(self).connections@.contains(#[trigger] self.connections@[j]) by {
                assert(old(self).connections@[j] == self.connections@[j]);
            };
            assert forall|k: int| 0 <= k < old(self).connections@.len() implies self.connections@.contains(
                #[trigger] old(self).connections@[k],
            ) by {
                assert(self.connections@[k] == old(self).connections@[k]);
            };
        }
        loop
            invariant
                self.wf(),
                forall|j: int|
                    0 <= j < out@.len() ==> (#[trigger] out@[j]).1 == DisconnectReason::Timeout,
                forall|j: int|
                    0 <= j < self.handshaking@.len() ==> old(self).handshaking@.contains(
                        #[trigger] self.handshaking@[j],
                    ) && self.handshaking@[j].1 + old(self).limits.handshake_timeout_ms >= now,
                forall|k: int|
                    0 <= k < old(self).handshaking@.len() && (#[trigger] old(self).handshaking@[k]).1 + old(self).limits.handshake_timeout_ms >= now
                        ==> self.handshaking@.contains(old(self).handshaking@[k]),
                self.limits == old(self).limits,
                // the table only shrinks: every current entry is an old one
                forall|j: int|
                    0 <= j < self.connections@.len() ==> old(self).connections@.contains(
                        #[trigger] self.connections@[j],
                    ),
                // active connections stay
                forall|k: int|
                    0 <= k < old(self).connections@.len() && (#[trigger] old(self).connections@[k]).last_activity_ms + old(self).limits.idle_timeout_ms >= now
                        ==> self.connections@.contains(old(self).connections@[k]),
                // idle connections are either still present or reported
                forall|k: int|
                    0 <= k < old(self).connections@.len() && (#[trigger] old(self).connections@[k]).last_activity_ms + old(self).limits.idle_timeout_ms < now
                        ==> (self.connections@.contains(old(self).connections@[k])
                        || out@.contains(
                        (old(self).connections@[k].peer_id, DisconnectReason::Timeout),
                    )),
            ensures
                self.wf(),
                self.limits == old(self).limits,
                forall|j: int|
                    0 <= j < out@.len() ==> (#[trigger] out@[j]).1 == DisconnectReason::Timeout,
                forall|j: int|
                    0 <= j < self.handshaking@.len() ==> old(self).handshaking@.contains(
                        #[trigger] self.handshaking@[j],
                    ) && self.handshaking@[j].1 + old(self).limits.handshake_timeout_ms >= now,
                forall|k: int|
                    0 <= k < old(self).handshaking@.len() && (#[trigger] old(self).handshaking@[k]).1 + old(self).limits.handshake_timeout_ms >= now
                        ==> self.handshaking@.contains(old(self).handshaking@[k]),
                forall|j: int|
                    0 <= j < self.connections@.len() ==> (
                    #[trigger] self.connections@[j]).last_activity_ms + old(self).limits.idle_timeout_ms >= now,
                forall|k: int|
                    0 <= k < old(self).connections@.len() && (#[trigger] old(self).connections@[k]).last_activity_ms + old(self).limits.idle_timeout_ms >= now
                        ==> self.connections@.contains(old(self).connections@[k]),
                forall|k: int|
                    0 <= k < old(self).connections@.len() && (#[trigger] old(self).connections@[k]).last_activity_ms + old(self).limits.idle_timeout_ms < now
                        ==> (self.connections@.contains(old(self).connections@[k])
                        || out@.contains(
                        (old(self).connections@[k].peer_id, DisconnectReason::Timeout),
                    )),
            decreases self.connections@.len(),
        {
            let mut idle_index: Option<usize> = None;
            let mut k: usize = 0;
            while k < self.connections.len()
                invariant
                    k <= self.connections@.len(),
                    idle_index matches Some(ii) ==> ii < self.connections@.len()
                        && self.connections@[ii as int].last_activity_ms
                        + self.limits.idle_timeout_ms < now,
                    idle_index is None ==> forall|j: int|
                        0 <= j < k ==> (#[trigger] self.connections@[j]).last_activity_ms
                            + self.limits.idle_timeout_ms >= now,
                decreases self.connections@.len() - k,
            {
                if idle_index.is_none() {
                    let idle = match self.connections[k].last_activity_ms.checked_add(
                        self.limits.idle_timeout_ms,
                    ) {
                        Some(deadline) => deadline < now,
                        None => false,
                    };
                    if idle {
                        idle_index = Some(k);
                    }
                }
                k = k + 1;
            }
            match idle_index {
                Some(index) => {
                    let ghost before = self.connections@;
                    let ghost out_before = out@;
                    let peer_id = self.connections[index].peer_id;
                    self.detach(index);
                    out.push((peer_id, DisconnectReason::Timeout));
                    proof {
                        let cur = self.connections@;
                        assert(cur == before.remove(index as int));
                        assert(cur == before.subrange(0, index as int) + before.subrange(
                            index as int + 1,
                            before.len() as int,
                        ));
                        assert forall|j: int| 0 <= j < cur.len() implies (#[trigger] cur[j])
                            == if j < index as int {
                            before[j]
                        } else {
                            before[j + 1]
                        } by {};
                        // shrinking preserved
                        assert forall|j: int| 0 <= j < cur.len() implies old(self).connections@.contains(#[trigger] cur[j]) by {
                            if j < index as int {
                                assert(before[j] == cur[j]);
                            } else {
                                assert(before[j + 1] == cur[j]);
                            }
                        };
                        // active connections survive the removal
                        assert forall|k2: int|
                            0 <= k2 < old(self).connections@.len() && (#[trigger] old(self).connections@[k2]).last_activity_ms + old(self).limits.idle_timeout_ms >= now implies cur.contains(
                            old(self).connections@[k2],
                        ) by {
                            assert(before.contains(old(self).connections@[k2]));
                            let jj = choose|jj: int|
                                0 <= jj < before.len() && (#[trigger] before[jj]) == old(self).connections@[k2];
                            assert(jj != index as int);
                            if jj < index as int {
                                assert(cur[jj] == before[jj]);
                            } else {
                                assert(cur[jj - 1] == before[jj]);
                            }
                        };
                        // idle connections stay present or become reported
                        assert forall|k2: int|
                            0 <= k2 < old(self).connections@.len() && (#[trigger] old(self).connections@[k2]).last_activity_ms + old(self).limits.idle_timeout_ms < now implies (cur.contains(
                            old(self).connections@[k2],
                        ) || out@.contains(
                            (old(self).connections@[k2].peer_id, DisconnectReason::Timeout),
                        )) by {
                            if before.contains(old(self).connections@[k2]) {
                                let jj = choose|jj: int|
                                    0 <= jj < before.len() && (#[trigger] before[jj]) == old(self).connections@[k2];
                                if jj == index as int {
                                    assert(out@[out@.len() - 1] == (
                                        old(self).connections@[k2].peer_id,
                                        DisconnectReason::Timeout,
                                    ));
                                } else if jj < index as int {
                                    assert(cur[jj] == before[jj]);
                                } else {
                                    assert(cur[jj - 1] == before[jj]);
                                }
                            } else {
                                assert(out_before.contains(
                                    (old(self).connections@[k2].peer_id, DisconnectReason::Timeout),
                                ));
                                let jo = choose|jo: int|
                                    0 <= jo < out_before.len() && (#[trigger] out_before[jo]) == (
                                        old(self).connections@[k2].peer_id,
                                        DisconnectReason::Timeout,
                                    );
                                assert(out@[jo] == out_before[jo]);
                            }
                        };
                    }
                },
                None => {
                    break;
                },
            }
        }
        proof {
            // an idle old connection cannot still be present: every final
            // entry is active
            assert forall|k: int|
                0 <= k < old(self).connections@.len() && (#[trigger] old(self).connections@[k]).last_activity_ms + old(self).limits.idle_timeout_ms
                    < now implies out@.contains(
                (old(self).connections@[k].peer_id, DisconnectReason::Timeout),
            ) by {
                if self.connections@.contains(old(self).connections@[k]) {
                    let j = choose|j: int|
                        0 <= j < self.connections@.len() && (#[trigger] self.connections@[j])
                            == old(self).connections@[k];
                }
            };
        }
        out
    }
}

/// Two tables with the same addresses at each index count every IP alike.
proof fn lemma_ip_count_same_ips(s: Seq<Connection>, t: Seq<Connection>, ip: IpAddress)
    requires
        s.len() == t.len(),
        forall|i: int| 0 <= i < t.len() ==> (#[trigger] t[i]).address == s[i].address,
    ensures
        spec_ip_count(t, ip) == spec_ip_count(s, ip),
    decreases s.len(),
{
    if s.len() > 0 {
        assert(t[0].address == s[0].address);
        assert forall|i: int|
            0 <= i < t.drop_first().len() implies (#[trigger] t.drop_first()[i]).address
            == s.drop_first()[i].address by {
            assert(t.drop_first()[i] == t[i + 1]);
            assert(s.drop_first()[i] == s[i + 1]);
        };
        lemma_ip_count_same_ips(s.drop_first(), t.drop_first(), ip);
    }
}

/// Extending a prefix by one element extends its direction count.
proof fn lemma_direction_count_take(s: Seq<Connection>, i: int, d: ConnectionDirection)
    requires
        0 <= i < s.len(),
    ensures
        spec_direction_count(s.take(i + 1), d) == spec_direction_count(s.take(i), d) + if s[i].direction
            == d {
            1int
        } else {
            0int
        },
    decreases i,
{
    if i == 0 {
        assert(s.take(1).drop_first() =~= Seq::<Connection>::empty());
        assert(s.take(1)[0] == s[0]);
        assert(s.take(0) =~= Seq::<Connection>::empty());
    } else {
        assert(s.take(i + 1).drop_first() =~= s.drop_first().take(i));
        assert(s.take(i).drop_first() =~= s.drop_first().take(i - 1));
        assert(s.take(i + 1)[0] == s[0]);
        assert(s.take(i)[0] == s[0]);
        assert(s.drop_first()[i - 1] == s[i]);
        lemma_direction_count_take(s.drop_first(), i - 1, d);
    }
}

/// Counter integrity: in a well-formed connection table the per-IP counters
/// sum to the number of connections, and each counter is exact.
pub proof fn lemma_counter_integrity(cm: ConnectionManager)
    requires
        cm.wf(),
    ensures
        cm.ip_connections.spec_sum() == cm.connections@.len(),
        forall|ip: IpAddress| #[trigger]
            cm.ip_connections.spec_get(CountKey::Ip(ip)) == spec_ip_count(cm.connections@, ip),
{
}

} // verus!
