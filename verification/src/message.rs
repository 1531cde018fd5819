//! Wire framing: the 12-byte little-endian message header, the payload
//! carrier, message fingerprints, and the recent-message cache used for
//! duplicate suppression.

use vstd::prelude::*;
use crate::hash::{spec_digest_of, digest_of_bytes, Digest, MessageHash};

verus! {

/// Protocol identifier carried in the message header.
#[derive(Debug, Clone, Copy, PartialEq, Eq, Structural, Hash)]
pub enum Protocol {
    Discovery,
    BlockExchange,
    Transaction,
    Consensus,
    StateSync,
    Control,
    Identity,
}

impl Protocol {
    /// The stable wire number of this protocol.
    pub open spec fn spec_as_u16(self) -> u16 {
        match self {
            Protocol::Discovery => 1,
            Protocol::BlockExchange => 2,
            Protocol::Transaction => 3,
            Protocol::Consensus => 4,
            Protocol::StateSync => 5,
            Protocol::Control => 6,
            Protocol::Identity => 7,
        }
    }

    /// Get all available protocol types.
    pub fn all() -> (r: Vec<Protocol>)
        ensures
            r@ == seq![
                Protocol::Discovery,
                Protocol::BlockExchange,
                Protocol::Transaction,
                Protocol::Consensus,
                Protocol::StateSync,
                Protocol::Control,
                Protocol::Identity,
            ],
    {
        let mut v: Vec<Protocol> = Vec::new();
        v.push(Protocol::Discovery);
        v.push(Protocol::BlockExchange);
        v.push(Protocol::Transaction);
        v.push(Protocol::Consensus);
        v.push(Protocol::StateSync);
        v.push(Protocol::Control);
        v.push(Protocol::Identity);
        proof {
            assert(v@ =~= seq![
                Protocol::Discovery,
                Protocol::BlockExchange,
                Protocol::Transaction,
                Protocol::Consensus,
                Protocol::StateSync,
                Protocol::Control,
                Protocol::Identity,
            ]);
        }
        v
    }

    /// Get the name of the protocol.
    pub fn name(&self) -> (r: &'static str)
        ensures
            *self is Discovery ==> r@ == "Discovery"@,
            *self is BlockExchange ==> r@ == "BlockExchange"@,
            *self is Transaction ==> r@ == "Transaction"@,
            *self is Consensus ==> r@ == "Consensus"@,
            *self is StateSync ==> r@ == "StateSync"@,
            *self is Control ==> r@ == "Control"@,
            *self is Identity ==> r@ == "Identity"@,
    {
        match self {
            Protocol::Discovery => "Discovery",
            Protocol::BlockExchange => "BlockExchange",
            Protocol::Transaction => "Transaction",
            Protocol::Consensus => "Consensus",
            Protocol::StateSync => "StateSync",
            Protocol::Control => "Control",
            Protocol::Identity => "Identity",
        }
    }

    /// Convert to the numeric identifier.
    pub fn as_u8(&self) -> (r: u8)
        ensures
            r == self.spec_as_u16(),
    {
        match self {
            Protocol::Discovery => 1,
            Protocol::BlockExchange => 2,
            Protocol::Transaction => 3,
            Protocol::Consensus => 4,
            Protocol::StateSync => 5,
            Protocol::Control => 6,
            Protocol::Identity => 7,
        }
    }

    /// Convert to the numeric identifier as carried in the header.
    pub fn as_u16(&self) -> (r: u16)
        ensures
            r == self.spec_as_u16(),
    {
        self.as_u8() as u16
    }

    /// Convert from the numeric identifier; unknown numbers yield `None`.
    pub fn from_u8(value: u8) -> (r: Option<Protocol>)
        ensures
            r matches Some(p) ==> p.spec_as_u16() == value,
            r is None <==> !(1 <= value <= 7),
    {
        match value {
            1 => Some(Protocol::Discovery),
            2 => Some(Protocol::BlockExchange),
            3 => Some(Protocol::Transaction),
            4 => Some(Protocol::Consensus),
            5 => Some(Protocol::StateSync),
            6 => Some(Protocol::Control),
            7 => Some(Protocol::Identity),
            _ => None,
        }
    }

    /// Convert from the header's 16-bit identifier.
    pub fn from_u16(value: u16) -> (r: Option<Protocol>)
        ensures
            r matches Some(p) ==> p.spec_as_u16() == value,
            r is None <==> !(1 <= value <= 7),
    {
        if value > 255 {
            None
        } else {
            Protocol::from_u8(value as u8)
        }
    }
}

/// Message header: five little-endian fields in twelve bytes on the wire
/// (the last two header bytes are reserved and always zero).
#[derive(Debug, Clone, Copy, PartialEq, Eq, Structural)]
pub struct MessageHeader {
    pub protocol_id: u16,
    pub message_type: u16,
    pub length: u32,
    pub version: u8,
    pub flags: u8,
}

/// Network message: a header plus opaque payload bytes.
///
/// Well-formed messages satisfy [`Message::wf`]: the header's `length`
/// field equals the payload length.
#[derive(Debug, Clone)]
pub struct Message {
    pub header: MessageHeader,
    pub payload: Vec<u8>,
}

/// Codec errors.
#[derive(Debug, Clone, Copy, PartialEq, Eq, Structural)]
pub enum CodecError {
    /// The byte string is shorter than a header, or its length does not
    /// equal twelve plus the header's length field.
    TruncatedMessage,
    /// The header's protocol identifier is not a known protocol.
    UnknownProtocol,
    /// The payload length exceeds the configured maximum message size.
    OversizedMessage,
}

/// The value of two little-endian bytes.
pub open spec fn spec_le16(b0: u8, b1: u8) -> u16 {
    (b0 + b1 * 0x100) as u16
}

/// The value of four little-endian bytes.
pub open spec fn spec_le32(b0: u8, b1: u8, b2: u8, b3: u8) -> u32 {
    (b0 + b1 * 0x100 + b2 * 0x10000 + b3 * 0x1000000) as u32
}

/// The twelve header bytes of a message: little-endian fields, then two
/// reserved zero bytes.
pub open spec fn spec_header_bytes(h: MessageHeader) -> Seq<u8> {
    seq![
        (h.protocol_id % 0x100) as u8,
        (h.protocol_id / 0x100) as u8,
        (h.message_type % 0x100) as u8,
        (h.message_type / 0x100) as u8,
        (h.length % 0x100) as u8,
        ((h.length / 0x100) % 0x100) as u8,
        ((h.length / 0x10000) % 0x100) as u8,
        ((h.length / 0x1000000) % 0x100) as u8,
        h.version,
        h.flags,
        0u8,
        0u8,
    ]
}

/// The full encoding of a message: header bytes, then the payload.
pub open spec fn spec_encoded(m: Message) -> Seq<u8> {
    spec_header_bytes(m.header) + m.payload@
}

/// A byte string is well framed when it is at least a header long and its
/// total length is twelve plus the length field.
pub open spec fn spec_well_framed(s: Seq<u8>) -> bool {
    &&& s.len() >= 12
    &&& s.len() == 12 + spec_le32(s[4], s[5], s[6], s[7])
}

/// The protocol identifier of a framed byte string is a known protocol.
pub open spec fn spec_protocol_known(s: Seq<u8>) -> bool
    recommends
        s.len() >= 2,
{
    1 <= spec_le16(s[0], s[1]) <= 7
}

/// The header parsed from a framed byte string.
pub open spec fn spec_parsed_header(s: Seq<u8>) -> MessageHeader
    recommends
        s.len() >= 12,
{
    MessageHeader {
        protocol_id: spec_le16(s[0], s[1]),
        message_type: spec_le16(s[2], s[3]),
        length: spec_le32(s[4], s[5], s[6], s[7]),
        version: s[8],
        flags: s[9],
    }
}

impl Message {
    /// The header's length field matches the payload.
    pub open spec fn wf(self) -> bool {
        self.header.length == self.payload@.len()
    }

    /// Create a new message over the given protocol.
    pub fn new(protocol: Protocol, message_type: u16, payload: Vec<u8>) -> (m: Message)
        requires
            payload@.len() <= u32::MAX,
        ensures
            m.wf(),
            m.header.protocol_id == protocol.spec_as_u16(),
            m.header.message_type == message_type,
            m.header.length == payload@.len(),
            m.header.version == 1,
            m.header.flags == 0,
            m.payload@ == payload@,
    {
        let length = payload.len() as u32;
        Message {
            header: MessageHeader {
                protocol_id: protocol.as_u16(),
                message_type,
                length,
                version: 1,
                flags: 0,
            },
            payload,
        }
    }

    /// Serialize the message: the twelve header bytes, then the payload.
    pub fn serialize(&self) -> (r: Result<Vec<u8>, CodecError>)
        requires
            self.wf(),
        ensures
            r matches Ok(bytes) && bytes@ == spec_encoded(*self),
    {
        let mut buffer: Vec<u8> = Vec::new();
        buffer.push((self.header.protocol_id % 0x100) as u8);
        buffer.push((self.header.protocol_id / 0x100) as u8);
        buffer.push((self.header.message_type % 0x100) as u8);
        buffer.push((self.header.message_type / 0x100) as u8);
        buffer.push((self.header.length % 0x100) as u8);
        buffer.push(((self.header.length / 0x100) % 0x100) as u8);
        buffer.push(((self.header.length / 0x10000) % 0x100) as u8);
        buffer.push(((self.header.length / 0x1000000) % 0x100) as u8);
        buffer.push(self.header.version);
        buffer.push(self.header.flags);
        buffer.push(0u8);
        buffer.push(0u8);
        proof {
            assert(buffer@ =~= spec_header_bytes(self.header));
        }
        buffer.extend_from_slice(self.payload.as_slice());
        proof {
            assert(buffer@ =~= spec_encoded(*self));
        }
        Ok(buffer)
    }

    /// Deserialize a message from bytes.
    ///
    /// Rejects byte strings whose length is not twelve plus the header's
    /// length field, and headers naming an unknown protocol.
    pub fn deserialize(bytes: &Vec<u8>) -> (r: Result<Message, CodecError>)
        ensures
            !spec_well_framed(bytes@) <==> r == Err::<Message, CodecError>(
                CodecError::TruncatedMessage,
            ),
            spec_well_framed(bytes@) && !spec_protocol_known(bytes@) <==> r == Err::<
                Message,
                CodecError,
            >(CodecError::UnknownProtocol),
            r matches Ok(m) ==> {
                &&& spec_well_framed(bytes@)
                &&& spec_protocol_known(bytes@)
                &&& m.header == spec_parsed_header(bytes@)
                &&& m.payload@ == bytes@.skip(12)
                &&& m.wf()
            },
            spec_well_framed(bytes@) && spec_protocol_known(bytes@) ==> r is Ok,
    {
        if bytes.len() < 12 {
            return Err(CodecError::TruncatedMessage);
        }
        let protocol_id: u16 = bytes[0] as u16 + bytes[1] as u16 * 0x100;
        let message_type: u16 = bytes[2] as u16 + bytes[3] as u16 * 0x100;
        let length: u32 = bytes[4] as u32 + bytes[5] as u32 * 0x100 + bytes[6] as u32 * 0x10000
            + bytes[7] as u32 * 0x1000000;
        let version = bytes[8];
        let flags = bytes[9];

        if bytes.len() - 12 != length as usize {
            return Err(CodecError::TruncatedMessage);
        }
        if Protocol::from_u16(protocol_id).is_none() {
            return Err(CodecError::UnknownProtocol);
        }

        let mut payload: Vec<u8> = Vec::new();
        let mut i: usize = 12;
        while i < bytes.len()
            invariant
                12 <= i <= bytes@.len(),
                payload@ == bytes@.subrange(12, i as int),
            decreases bytes@.len() - i,
        {
            payload.push(bytes[i]);
            i = i + 1;
        }
        proof {
            assert(payload@ =~= bytes@.skip(12));
        }
        Ok(Message {
            header: MessageHeader { protocol_id, message_type, length, version, flags },
            payload,
        })
    }
}

/// Encode a message, enforcing the configured maximum message size.
///
/// Fails only if the payload exceeds `max_message_size`.
pub fn encode(m: &Message, max_message_size: usize) -> (r: Result<Vec<u8>, CodecError>)
    requires
        m.wf(),
    ensures
        m.payload@.len() > max_message_size <==> r == Err::<Vec<u8>, CodecError>(
            CodecError::OversizedMessage,
        ),
        m.payload@.len() <= max_message_size ==> (r matches Ok(bytes) && bytes@ == spec_encoded(
            *m,
        )),
{
    if m.payload.len() > max_message_size {
        return Err(CodecError::OversizedMessage);
    }
    m.serialize()
}

/// Decode a message, enforcing the configured maximum message size.
///
/// Rejects, in this order: byte strings that are not well framed
/// (`TruncatedMessage`), unknown protocol identifiers (`UnknownProtocol`),
/// and payloads longer than `max_message_size` (`OversizedMessage`).
pub fn decode(bytes: &Vec<u8>, max_message_size: usize) -> (r: Result<Message, CodecError>)
    ensures
        !spec_well_framed(bytes@) <==> r == Err::<Message, CodecError>(
            CodecError::TruncatedMessage,
        ),
        spec_well_framed(bytes@) && !spec_protocol_known(bytes@) <==> r == Err::<
            Message,
            CodecError,
        >(CodecError::UnknownProtocol),
        spec_well_framed(bytes@) && spec_protocol_known(bytes@) && bytes@.len() - 12
            > max_message_size <==> r == Err::<Message, CodecError>(CodecError::OversizedMessage),
        r matches Ok(m) ==> {
            &&& spec_well_framed(bytes@)
            &&& spec_protocol_known(bytes@)
            &&& bytes@.len() - 12 <= max_message_size
            &&& m.header == spec_parsed_header(bytes@)
            &&& m.payload@ == bytes@.skip(12)
            &&& m.wf()
        },
        spec_well_framed(bytes@) && spec_protocol_known(bytes@) && bytes@.len() - 12
            <= max_message_size ==> r is Ok,
{
    match Message::deserialize(bytes) {
        Ok(m) => {
            if m.payload.len() > max_message_size {
                Err(CodecError::OversizedMessage)
            } else {
                Ok(m)
            }
        },
        Err(e) => Err(e),
    }
}

/// Framing round trip: the encoding of a well-formed message with a known
/// protocol identifier is well framed, and parsing it recovers the header
/// fields and the payload exactly.
pub proof fn lemma_codec_round_trip(m: Message)
    requires
        m.wf(),
    ensures
        spec_well_framed(spec_encoded(m)),
        spec_parsed_header(spec_encoded(m)) == m.header,
        spec_encoded(m).skip(12) == m.payload@,
        1 <= m.header.protocol_id <= 7 ==> spec_protocol_known(spec_encoded(m)),
{
    let s = spec_encoded(m);
    let h = m.header;
    assert(s.len() == 12 + m.payload@.len());
    assert(s[0] == (h.protocol_id % 0x100) as u8);
    assert(s[1] == (h.protocol_id / 0x100) as u8);
    assert(s[2] == (h.message_type % 0x100) as u8);
    assert(s[3] == (h.message_type / 0x100) as u8);
    assert(s[4] == (h.length % 0x100) as u8);
    assert(s[5] == ((h.length / 0x100) % 0x100) as u8);
    assert(s[6] == ((h.length / 0x10000) % 0x100) as u8);
    assert(s[7] == ((h.length / 0x1000000) % 0x100) as u8);
    assert(spec_le16(s[0], s[1]) == h.protocol_id) by {
        lemma_le16_round_trip(h.protocol_id);
    }
    assert(spec_le16(s[2], s[3]) == h.message_type) by {
        lemma_le16_round_trip(h.message_type);
    }
    assert(spec_le32(s[4], s[5], s[6], s[7]) == h.length) by {
        lemma_le32_round_trip(h.length);
    }
    assert(s.skip(12) =~= m.payload@);
}

/// Two little-endian bytes of a 16-bit value reassemble to that value.
proof fn lemma_le16_round_trip(x: u16)
    ensures
        spec_le16((x % 0x100) as u8, (x / 0x100) as u8) == x,
{
}

/// Four little-endian bytes of a 32-bit value reassemble to that value.
proof fn lemma_le32_round_trip(x: u32)
    ensures
        spec_le32(
            (x % 0x100) as u8,
            ((x / 0x100) % 0x100) as u8,
            ((x / 0x10000) % 0x100) as u8,
            ((x / 0x1000000) % 0x100) as u8,
        ) == x,
{
    assert(x % 0x100 + ((x / 0x100) % 0x100) * 0x100 + ((x / 0x10000) % 0x100) * 0x10000 + ((x
        / 0x1000000) % 0x100) * 0x1000000 == x) by (nonlinear_arith);
}

/// The byte sequence a message's fingerprint is computed over: the header's
/// demultiplexing fields, then the payload.
pub open spec fn spec_hash_input(m: Message) -> Seq<u8> {
    seq![
        (m.header.protocol_id % 0x100) as u8,
        (m.header.protocol_id / 0x100) as u8,
        (m.header.message_type % 0x100) as u8,
        (m.header.message_type / 0x100) as u8,
        m.header.version,
        m.header.flags,
    ] + m.payload@
}

/// The fingerprint of a message.
pub open spec fn spec_hash_message(m: Message) -> MessageHash {
    spec_digest_of(spec_hash_input(m))
}

/// Calculate the fingerprint of a message, used for duplicate detection.
pub fn hash_message(message: &Message) -> (r: MessageHash)
    ensures
        r == spec_hash_message(*message),
{
    let mut input: Vec<u8> = Vec::new();
    input.push((message.header.protocol_id % 0x100) as u8);
    input.push((message.header.protocol_id / 0x100) as u8);
    input.push((message.header.message_type % 0x100) as u8);
    input.push((message.header.message_type / 0x100) as u8);
    input.push(message.header.version);
    input.push(message.header.flags);
    input.extend_from_slice(message.payload.as_slice());
    proof {
        assert(input@ =~= spec_hash_input(*message));
    }
    digest_of_bytes(&input)
}

/// An entry inserted at time `t` is live at `now` while less than `ttl`
/// milliseconds have elapsed.
pub open spec fn spec_entry_live(t: u64, now: u64, ttl: u64) -> bool {
    now < t + ttl
}

/// Some live entry for `h` exists in the sequence.
pub open spec fn spec_has_live(s: Seq<(MessageHash, u64)>, h: MessageHash, now: u64, ttl: u64) -> bool {
    exists|i: int| 0 <= i < s.len() && (#[trigger] s[i]).0 == h && spec_entry_live(s[i].1, now, ttl)
}

/// `s_new` holds exactly the entries of `s_old` that are live at `now`.
pub open spec fn spec_purged(
    s_old: Seq<(MessageHash, u64)>,
    s_new: Seq<(MessageHash, u64)>,
    now: u64,
    ttl: u64,
) -> bool {
    &&& forall|j: int|
        0 <= j < s_new.len() ==> s_old.contains(#[trigger] s_new[j]) && spec_entry_live(
            s_new[j].1,
            now,
            ttl,
        )
    &&& forall|k: int|
        0 <= k < s_old.len() && spec_entry_live((#[trigger] s_old[k]).1, now, ttl)
            ==> s_new.contains(s_old[k])
}

/// Tracks recently seen message fingerprints to avoid duplication.
///
/// A bounded mapping from fingerprint to insertion time with a TTL: lookups
/// opportunistically purge expired entries, and inserting into a full cache
/// with no expired candidates evicts the oldest entry.
#[derive(Debug)]
pub struct RecentMessages {
    pub seen: Vec<(MessageHash, u64)>,
    pub capacity: usize,
    pub ttl_ms: u64,
}

impl RecentMessages {
    /// Entries hold pairwise distinct fingerprints and fit the capacity.
    pub open spec fn wf(self) -> bool {
        &&& self.seen@.len() <= self.capacity
        &&& self.capacity >= 1
        &&& self.ttl_ms >= 1
        &&& forall|i: int, j: int|
            0 <= i < j < self.seen@.len() ==> (#[trigger] self.seen@[i]).0 != (
            #[trigger] self.seen@[j]).0
    }

    pub open spec fn spec_entries(self) -> Seq<(MessageHash, u64)> {
        self.seen@
    }

    pub open spec fn spec_capacity(self) -> usize {
        self.capacity
    }

    pub open spec fn spec_ttl_ms(self) -> u64 {
        self.ttl_ms
    }

    /// Create a new tracker with the given capacity and TTL in milliseconds.
    pub fn new(capacity: usize, ttl_ms: u64) -> (r: RecentMessages)
        requires
            capacity >= 1,
            ttl_ms >= 1,
        ensures
            r.wf(),
            r.spec_entries() == Seq::<(MessageHash, u64)>::empty(),
            r.spec_capacity() == capacity,
            r.spec_ttl_ms() == ttl_ms,
    {
        let r = RecentMessages { seen: Vec::new(), capacity, ttl_ms };
        proof {
            assert(r.seen@ =~= Seq::<(MessageHash, u64)>::empty());
        }
        r
    }

    /// Remove every expired entry, keeping all live ones.
    fn purge_expired(&mut self, now: u64)
        requires
            old(self).wf(),
        ensures
            final(self).wf(),
            final(self).capacity == old(self).capacity,
            final(self).ttl_ms == old(self).ttl_ms,
            spec_purged(old(self).seen@, final(self).seen@, now, old(self).ttl_ms),
            final(self).seen@.len() <= old(self).seen@.len(),
    {
        let ghost s = self.seen@;
        let ghost ttl = self.ttl_ms;
        let mut kept: Vec<(MessageHash, u64)> = Vec::new();
        let mut i: usize = 0;
        while i < self.seen.len()
            invariant
                i <= s.len(),
                self.seen@ == s,
                self.ttl_ms == ttl,
                kept@.len() <= i,
                forall|j: int|
                    0 <= j < kept@.len() ==> spec_entry_live((#[trigger] kept@[j]).1, now, ttl)
                        && exists|k: int| 0 <= k < i && (#[trigger] s[k]) == kept@[j],
                forall|k: int|
                    0 <= k < i && spec_entry_live((#[trigger] s[k]).1, now, ttl) ==> kept@.contains(
                        s[k],
                    ),
                forall|i2: int, j2: int|
                    0 <= i2 < j2 < s.len() ==> (#[trigger] s[i2]).0 != (#[trigger] s[j2]).0,
                forall|i2: int, j2: int|
                    0 <= i2 < j2 < kept@.len() ==> (#[trigger] kept@[i2]).0 != (
                    #[trigger] kept@[j2]).0,
            decreases s.len() - i,
        {
            let (h, t) = self.seen[i];
            let live = match t.checked_add(self.ttl_ms) {
                Some(expiry) => now < expiry,
                None => true,
            };
            let ghost old_kept = kept@;
            if live {
                proof {
                    // a fresh entry cannot repeat a kept hash: kept entries come
                    // from earlier indices of s, and s's hashes are distinct
                    assert forall|j: int| 0 <= j < kept@.len() implies (#[trigger] kept@[j]).0
                        != s[i as int].0 by {
                        let k = choose|k: int| 0 <= k < i && (#[trigger] s[k]) == kept@[j];
                        assert(s[k].0 != s[i as int].0);
                    };
                }
                kept.push((h, t));
            }
            proof {
                assert forall|k: int|
                    0 <= k < i + 1 && spec_entry_live((#[trigger] s[k]).1, now, ttl)
                        implies kept@.contains(s[k]) by {
                    if k < i {
                        assert(old_kept.contains(s[k]));
                        let j = choose|j: int|
                            0 <= j < old_kept.len() && (#[trigger] old_kept[j]) == s[k];
                        assert(kept@[j] == s[k]);
                    } else {
                        assert(kept@[kept@.len() - 1] == s[k]);
                    }
                };
            }
            i = i + 1;
        }
        proof {
            assert forall|j: int| 0 <= j < kept@.len() implies s.contains(#[trigger] kept@[j])
                && spec_entry_live(kept@[j].1, now, ttl) by {
                let k = choose|k: int| 0 <= k < s.len() && (#[trigger] s[k]) == kept@[j];
                assert(s[k] == kept@[j]);
            };
        }
        self.seen = kept;
    }

    /// Check if a message fingerprint has been seen recently.
    ///
    /// Expired entries are purged first, so the answer reflects only live
    /// entries; the set of live entries is unchanged.
    pub fn contains(&mut self, hash: &MessageHash, now: u64) -> (r: bool)
        requires
            old(self).wf(),
        ensures
            final(self).wf(),
            final(self).capacity == old(self).capacity,
            final(self).ttl_ms == old(self).ttl_ms,
            r == spec_has_live(old(self).seen@, *hash, now, old(self).ttl_ms),
            spec_purged(old(self).seen@, final(self).seen@, now, old(self).ttl_ms),
            final(self).seen@.len() <= old(self).seen@.len(),
    {
        self.purge_expired(now);
        let ghost s_old = old(self).seen@;
        let ghost ttl = self.ttl_ms;
        let mut i: usize = 0;
        let mut found = false;
        while i < self.seen.len()
            invariant
                i <= self.seen@.len(),
                found == exists|j: int| 0 <= j < i && (#[trigger] self.seen@[j]).0 == *hash,
            decreases self.seen@.len() - i,
        {
            if self.seen[i].0 == *hash {
                found = true;
            }
            i = i + 1;
        }
        proof {
            if found {
                let j = choose|j: int|
                    0 <= j < self.seen@.len() && (#[trigger] self.seen@[j]).0 == *hash;
                assert(s_old.contains(self.seen@[j]) && spec_entry_live(self.seen@[j].1, now, ttl));
                let k = choose|k: int| 0 <= k < s_old.len() && s_old[k] == self.seen@[j];
                assert(s_old[k].0 == *hash && spec_entry_live(s_old[k].1, now, ttl));
            }
            if spec_has_live(s_old, *hash, now, ttl) {
                let k = choose|k: int|
                    0 <= k < s_old.len() && (#[trigger] s_old[k]).0 == *hash && spec_entry_live(
                        s_old[k].1,
                        now,
                        ttl,
                    );
                assert(self.seen@.contains(s_old[k]));
                let j = choose|j: int|
                    0 <= j < self.seen@.len() && (#[trigger] self.seen@[j]) == s_old[k];
                assert(self.seen@[j].0 == *hash);
                assert(found);
            }
        }
        found
    }

    /// Mark a message fingerprint as seen at time `now`.
    ///
    /// If the fingerprint is already live, this is a no-op apart from the
    /// opportunistic purge of expired entries.  Otherwise the entry is
    /// inserted; a full cache first evicts the oldest entry.
    pub fn insert(&mut self, hash: MessageHash, now: u64)
        requires
            old(self).wf(),
        ensures
            final(self).wf(),
            final(self).capacity == old(self).capacity,
            final(self).ttl_ms == old(self).ttl_ms,
            // the fingerprint is live afterwards
            spec_has_live(final(self).seen@, hash, now, final(self).ttl_ms),
            // nothing appears from nowhere: every kept entry is an old entry
            // that was live, or the new entry
            forall|j: int|
                0 <= j < final(self).seen@.len() ==> ((#[trigger] final(self).seen@[j]) == (
                hash,
                now,
            ) || (old(self).seen@.contains(final(self).seen@[j]) && spec_entry_live(
                final(self).seen@[j].1,
                now,
                old(self).ttl_ms,
            ))),
            // if the fingerprint was already live, the insert is a no-op: the
            // state holds exactly the old live entries
            spec_has_live(old(self).seen@, hash, now, old(self).ttl_ms) ==> spec_purged(
                old(self).seen@,
                final(self).seen@,
                now,
                old(self).ttl_ms,
            ),
            // without eviction pressure, every old live entry survives
            old(self).seen@.len() < old(self).capacity ==> forall|k: int|
                0 <= k < old(self).seen@.len() && spec_entry_live(
                    (#[trigger] old(self).seen@[k]).1,
                    now,
                    old(self).ttl_ms,
                ) ==> final(self).seen@.contains(old(self).seen@[k]),
            // a full cache evicts only an oldest live entry: any dropped live
            // entry is no younger than every kept one
            forall|k: int, k2: int|
                0 <= k < old(self).seen@.len() && 0 <= k2 < old(self).seen@.len()
                    && spec_entry_live((#[trigger] old(self).seen@[k]).1, now, old(self).ttl_ms)
                    && spec_entry_live((#[trigger] old(self).seen@[k2]).1, now, old(self).ttl_ms)
                    && !final(self).seen@.contains(old(self).seen@[k]) && final(self).seen@.contains(old(self).seen@[k2]) ==> old(self).seen@[k].1 <= old(self).seen@[k2].1,
            // and all other live entries are retained: at most one leaves
            forall|k: int, k2: int|
                0 <= k < old(self).seen@.len() && 0 <= k2 < old(self).seen@.len()
                    && spec_entry_live((#[trigger] old(self).seen@[k]).1, now, old(self).ttl_ms)
                    && spec_entry_live((#[trigger] old(self).seen@[k2]).1, now, old(self).ttl_ms)
                    && !final(self).seen@.contains(old(self).seen@[k]) && !final(self).seen@.contains(old(self).seen@[k2]) ==> old(self).seen@[k] == old(self).seen@[k2],
    {
        let ghost s_old = self.seen@;
        let ghost ttl = self.ttl_ms;
        let found = self.contains(&hash, now);
        if found {
            return;
        }
        let ghost s_purged = self.seen@;
        let ghost mut was_evicted: bool = false;
        let ghost mut evicted_index: int = 0;
        if self.seen.len() >= self.capacity {
            // all remaining entries are live; evict the oldest
            let mut oldest: usize = 0;
            let mut i: usize = 1;
            while i < self.seen.len()
                invariant
                    self.seen@.len() >= 1,
                    oldest < i <= self.seen@.len(),
                    self.seen@ == s_purged,
                    forall|j: int|
                        0 <= j < i ==> s_purged[oldest as int].1 <= (#[trigger] s_purged[j]).1,
                decreases self.seen@.len() - i,
            {
                if self.seen[i].1 < self.seen[oldest].1 {
                    oldest = i;
                }
                i = i + 1;
            }
            proof {
                evicted_index = oldest as int;
                was_evicted = true;
            }
            self.seen.remove(oldest);
            proof {
                lemma_remove_keeps_entries(s_purged, oldest as int);
                assert(forall|j: int|
                    0 <= j < self.seen@.len() ==> s_purged.contains(#[trigger] self.seen@[j]));
                assert(forall|i2: int, j2: int|
                    0 <= i2 < j2 < self.seen@.len() ==> (#[trigger] self.seen@[i2]).0 != (
                    #[trigger] self.seen@[j2]).0);
            }
        } else {
            proof {
                assert forall|j: int| 0 <= j < self.seen@.len() implies s_purged.contains(
                    #[trigger] self.seen@[j],
                ) by {
                    assert(s_purged[j] == self.seen@[j]);
                };
            }
        }
        let ghost s_base = self.seen@;
        proof {
            // the fingerprint is absent from the remaining entries (they are
            // all live entries of the old state, and the old state had no
            // live entry for it), so pushing it keeps hashes distinct
            assert forall|j: int| 0 <= j < s_base.len() implies (#[trigger] s_base[j]).0 != hash by {
                if s_base[j].0 == hash {
                    assert(s_purged.contains(s_base[j]));
                    let k = choose|k: int|
                        0 <= k < s_purged.len() && (#[trigger] s_purged[k]) == s_base[j];
                    assert(s_old.contains(s_purged[k]) && spec_entry_live(
                        s_purged[k].1,
                        now,
                        ttl,
                    ));
                    let k2 = choose|k2: int|
                        0 <= k2 < s_old.len() && (#[trigger] s_old[k2]) == s_purged[k];
                    assert(s_old[k2].0 == hash && spec_entry_live(s_old[k2].1, now, ttl));
                    assert(spec_has_live(s_old, hash, now, ttl));
                }
            };
        }
        self.seen.push((hash, now));
        proof {
            let s_new = self.seen@;
            assert(s_new[s_new.len() - 1] == (hash, now));
            assert(spec_entry_live(now, now, ttl));
            assert(spec_has_live(s_new, hash, now, ttl));
            // hash distinctness of the final state
            assert forall|i2: int, j2: int| 0 <= i2 < j2 < s_new.len() implies (
            #[trigger] s_new[i2]).0 != (#[trigger] s_new[j2]).0 by {
                if j2 < s_new.len() - 1 {
                    assert(s_new[i2] == s_base[i2] && s_new[j2] == s_base[j2]);
                } else {
                    assert(s_new[i2] == s_base[i2] && s_new[j2] == (hash, now));
                }
            };
            // provenance of every final entry
            assert forall|j: int| 0 <= j < s_new.len() implies ((#[trigger] s_new[j]) == (
                hash,
                now,
            ) || (s_old.contains(s_new[j]) && spec_entry_live(s_new[j].1, now, ttl))) by {
                if j < s_new.len() - 1 {
                    assert(s_new[j] == s_base[j]);
                    assert(s_purged.contains(s_base[j]));
                    let k = choose|k: int|
                        0 <= k < s_purged.len() && (#[trigger] s_purged[k]) == s_base[j];
                    assert(s_old.contains(s_purged[k]) && spec_entry_live(
                        s_purged[k].1,
                        now,
                        ttl,
                    ));
                }
            };
            if s_old.len() < old(self).capacity {
                assert forall|k: int|
                    0 <= k < s_old.len() && spec_entry_live(
                        (#[trigger] s_old[k]).1,
                        now,
                        ttl,
                    ) implies s_new.contains(s_old[k]) by {
                    assert(s_purged.contains(s_old[k]));
                    assert(s_purged.len() <= s_old.len());
                    assert(s_base == s_purged);
                    let j = choose|j: int|
                        0 <= j < s_base.len() && (#[trigger] s_base[j]) == s_old[k];
                    assert(s_new[j] == s_old[k]);
                };
            }
            // a dropped live entry can only be the evicted oldest one
            assert forall|k: int, k2: int|
                0 <= k < s_old.len() && 0 <= k2 < s_old.len() && spec_entry_live(
                    (#[trigger] s_old[k]).1,
                    now,
                    ttl,
                ) && spec_entry_live((#[trigger] s_old[k2]).1, now, ttl) && !s_new.contains(
                s_old[k],
            ) implies ((s_new.contains(s_old[k2]) ==> s_old[k].1 <= s_old[k2].1) && (
            !s_new.contains(s_old[k2]) ==> s_old[k] == s_old[k2])) by {
                assert(s_purged.contains(s_old[k]));
                let j = choose|j: int|
                    0 <= j < s_purged.len() && (#[trigger] s_purged[j]) == s_old[k];
                if !was_evicted {
                    assert(s_base == s_purged);
                    assert(s_new[j] == s_old[k]);
                    assert(false);
                } else {
                    if j != evicted_index {
                        if j < evicted_index {
                            assert(s_base[j] == s_purged[j]);
                            assert(s_new[j] == s_old[k]);
                        } else {
                            assert(s_base[j - 1] == s_purged[j]);
                            assert(s_new[j - 1] == s_old[k]);
                        }
                        assert(false);
                    }
                    assert(s_old[k] == s_purged[evicted_index]);
                    assert(s_purged.contains(s_old[k2]));
                    let j2 = choose|j2: int|
                        0 <= j2 < s_purged.len() && (#[trigger] s_purged[j2]) == s_old[k2];
                    assert(s_purged[evicted_index].1 <= s_purged[j2].1);
                    if !s_new.contains(s_old[k2]) {
                        if j2 != evicted_index {
                            if j2 < evicted_index {
                                assert(s_base[j2] == s_purged[j2]);
                                assert(s_new[j2] == s_old[k2]);
                            } else {
                                assert(s_base[j2 - 1] == s_purged[j2]);
                                assert(s_new[j2 - 1] == s_old[k2]);
                            }
                            assert(false);
                        }
                        assert(s_old[k2] == s_purged[evicted_index]);
                    }
                }
            };
        }
    }
}

/// Every entry of a sequence with one index removed is an entry of the
/// original sequence, and hash distinctness is preserved.
proof fn lemma_remove_keeps_entries(s: Seq<(MessageHash, u64)>, idx: int)
    requires
        0 <= idx < s.len(),
    ensures
        forall|j: int| 0 <= j < s.remove(idx).len() ==> s.contains(#[trigger] s.remove(idx)[j]),
        (forall|i2: int, j2: int|
            0 <= i2 < j2 < s.len() ==> (#[trigger] s[i2]).0 != (#[trigger] s[j2]).0) ==> (forall|
            i2: int,
            j2: int,
        |
            0 <= i2 < j2 < s.remove(idx).len() ==> (#[trigger] s.remove(idx)[i2]).0 != (
            #[trigger] s.remove(idx)[j2]).0),
        forall|j: int|
            0 <= j < s.remove(idx).len() ==> (#[trigger] s.remove(idx)[j]) == if j < idx {
                s[j]
            } else {
                s[j + 1]
            },
{
    let r = s.remove(idx);
    assert forall|j: int| 0 <= j < r.len() implies (#[trigger] r[j]) == if j < idx {
        s[j]
    } else {
        s[j + 1]
    } by {
        assert(r == s.subrange(0, idx) + s.subrange(idx + 1, s.len() as int));
    };
    assert forall|j: int| 0 <= j < r.len() implies s.contains(#[trigger] r[j]) by {
        if j < idx {
            assert(r[j] == s[j]);
        } else {
            assert(r[j] == s[j + 1]);
        }
    };
}

/// Purging expired entries never changes what is live at the purge time or
/// later: an entry dead at `now` is dead at every `now2 >= now`.
pub proof fn lemma_purge_preserves_live(
    s_old: Seq<(MessageHash, u64)>,
    s_new: Seq<(MessageHash, u64)>,
    h: MessageHash,
    now: u64,
    now2: u64,
    ttl: u64,
)
    requires
        now <= now2,
        spec_purged(s_old, s_new, now, ttl),
    ensures
        spec_has_live(s_new, h, now2, ttl) == spec_has_live(s_old, h, now2, ttl),
{
    if spec_has_live(s_old, h, now2, ttl) {
        let k = choose|k: int|
            0 <= k < s_old.len() && (#[trigger] s_old[k]).0 == h && spec_entry_live(
                s_old[k].1,
                now2,
                ttl,
            );
        assert(spec_entry_live(s_old[k].1, now, ttl));
        assert(s_new.contains(s_old[k]));
        let j = choose|j: int| 0 <= j < s_new.len() && (#[trigger] s_new[j]) == s_old[k];
        assert(s_new[j].0 == h && spec_entry_live(s_new[j].1, now2, ttl));
    }
    if spec_has_live(s_new, h, now2, ttl) {
        let j = choose|j: int|
            0 <= j < s_new.len() && (#[trigger] s_new[j]).0 == h && spec_entry_live(
                s_new[j].1,
                now2,
                ttl,
            );
        assert(s_old.contains(s_new[j]));
        let k = choose|k: int| 0 <= k < s_old.len() && (#[trigger] s_old[k]) == s_new[j];
        assert(s_old[k].0 == h && spec_entry_live(s_old[k].1, now2, ttl));
    }
}

/// After the TTL has elapsed since every insertion of a fingerprint, the
/// fingerprint is no longer live.
pub proof fn lemma_expired_not_live(
    s: Seq<(MessageHash, u64)>,
    h: MessageHash,
    now2: u64,
    ttl: u64,
)
    requires
        forall|i: int|
            0 <= i < s.len() && (#[trigger] s[i]).0 == h ==> s[i].1 + ttl <= now2,
    ensures
        !spec_has_live(s, h, now2, ttl),
{
}

} // verus!
