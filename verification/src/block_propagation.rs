//! Block propagation: full, compact and header-only announcements, and
//! short-id reconstruction of compact blocks against the local mempool.

use vstd::prelude::*;
use crate::hash::{
    combine_digests, digest_of_bytes, spec_be_bytes_of_u64, spec_combine, spec_digest_of,
    BlockHash, Digest, TransactionHash,
};
use crate::types::{NetworkError, PeerId};

verus! {

/// Unique short identifier for a transaction: the first eight bytes of the
/// transaction hash.
#[derive(Clone, Copy, Debug, PartialEq, Eq, Structural, Hash)]
pub struct ShortTransactionId(pub u64);

/// Block header structure.
#[derive(Clone, Copy, Debug, PartialEq, Eq, Structural)]
pub struct BlockHeader {
    pub version: u32,
    pub prev_block: BlockHash,
    pub merkle_root: Digest,
    pub timestamp: u64,
    pub difficulty: u32,
    pub nonce: u64,
}

/// Previous output reference.
#[derive(Clone, Copy, Debug, PartialEq, Eq, Structural)]
pub struct OutPoint {
    pub txid: TransactionHash,
    pub vout: u32,
}

/// Transaction input.
#[derive(Clone, Debug)]
pub struct TransactionInput {
    pub previous_output: OutPoint,
    pub script_sig: Vec<u8>,
    pub sequence: u32,
}

/// Transaction output.
#[derive(Clone, Debug)]
pub struct TransactionOutput {
    pub value: u64,
    pub script_pubkey: Vec<u8>,
}

/// Transaction structure.
#[derive(Clone, Debug)]
pub struct Transaction {
    pub version: u32,
    pub inputs: Vec<TransactionInput>,
    pub outputs: Vec<TransactionOutput>,
    pub lock_time: u32,
}

/// Block structure.
#[derive(Clone, Debug)]
pub struct Block {
    pub header: BlockHeader,
    pub transactions: Vec<Transaction>,
}

/// Types of block announcements.
#[derive(Clone, Debug)]
pub enum BlockAnnouncement {
    FullBlock(Block),
    CompactBlock {
        header: BlockHeader,
        short_ids: Vec<ShortTransactionId>,
        missing_transaction_hashes: Vec<TransactionHash>,
    },
    HeaderOnly { header: BlockHeader },
}

/// Block format preference of a peer.
#[derive(Clone, Copy, Debug, PartialEq, Eq, Structural)]
pub enum BlockPreference {
    FullBlocks,
    CompactBlocks,
    HeadersOnly,
}

/// The four big-endian bytes of a 32-bit value.
pub open spec fn spec_u32_bytes(x: u32) -> Seq<u8> {
    seq![(x >> 24) as u8, (x >> 16) as u8, (x >> 8) as u8, x as u8]
}

/// The canonical bytes of a digest: its four words, most significant first.
pub open spec fn spec_digest_bytes(d: Digest) -> Seq<u8> {
    spec_be_bytes_of_u64(d.w0) + spec_be_bytes_of_u64(d.w1) + spec_be_bytes_of_u64(d.w2)
        + spec_be_bytes_of_u64(d.w3)
}

/// The canonical bytes of a transaction input.
pub open spec fn spec_input_bytes(i: TransactionInput) -> Seq<u8> {
    spec_digest_bytes(i.previous_output.txid) + spec_u32_bytes(i.previous_output.vout)
        + spec_be_bytes_of_u64(i.script_sig@.len() as u64) + i.script_sig@ + spec_u32_bytes(
        i.sequence,
    )
}

/// The canonical bytes of a transaction output.
pub open spec fn spec_output_bytes(o: TransactionOutput) -> Seq<u8> {
    spec_be_bytes_of_u64(o.value) + spec_be_bytes_of_u64(o.script_pubkey@.len() as u64)
        + o.script_pubkey@
}

/// The canonical bytes of a sequence of inputs.
pub open spec fn spec_inputs_bytes(s: Seq<TransactionInput>) -> Seq<u8>
    decreases s.len(),
{
    if s.len() == 0 {
        Seq::empty()
    } else {
        spec_inputs_bytes(s.drop_last()) + spec_input_bytes(s.last())
    }
}

/// The canonical bytes of a sequence of outputs.
pub open spec fn spec_outputs_bytes(s: Seq<TransactionOutput>) -> Seq<u8>
    decreases s.len(),
{
    if s.len() == 0 {
        Seq::empty()
    } else {
        spec_outputs_bytes(s.drop_last()) + spec_output_bytes(s.last())
    }
}

/// The canonical bytes of a transaction.
pub open spec fn spec_tx_bytes(tx: Transaction) -> Seq<u8> {
    spec_u32_bytes(tx.version) + spec_be_bytes_of_u64(tx.inputs@.len() as u64) + spec_inputs_bytes(
        tx.inputs@,
    ) + spec_be_bytes_of_u64(tx.outputs@.len() as u64) + spec_outputs_bytes(tx.outputs@)
        + spec_u32_bytes(tx.lock_time)
}

/// The hash of a transaction.
pub open spec fn spec_tx_hash(tx: Transaction) -> TransactionHash {
    spec_digest_of(spec_tx_bytes(tx))
}

/// The canonical bytes of a block header.
pub open spec fn spec_header_bytes(h: BlockHeader) -> Seq<u8> {
    spec_u32_bytes(h.version) + spec_digest_bytes(h.prev_block) + spec_digest_bytes(h.merkle_root)
        + spec_be_bytes_of_u64(h.timestamp) + spec_u32_bytes(h.difficulty) + spec_be_bytes_of_u64(
        h.nonce,
    )
}

/// The hash of a block: the digest of its header bytes.
pub open spec fn spec_block_hash(b: Block) -> BlockHash {
    spec_digest_of(spec_header_bytes(b.header))
}

fn append_u32(v: &mut Vec<u8>, x: u32)
    ensures
        final(v)@ == old(v)@ + spec_u32_bytes(x),
{
    let ghost s = v@;
    v.push((x >> 24) as u8);
    v.push((x >> 16) as u8);
    v.push((x >> 8) as u8);
    v.push(x as u8);
    proof {
        assert(v@ =~= s + spec_u32_bytes(x));
    }
}

fn append_u64(v: &mut Vec<u8>, x: u64)
    ensures
        final(v)@ == old(v)@ + spec_be_bytes_of_u64(x),
{
    let ghost s = v@;
    v.push((x >> 56) as u8);
    v.push((x >> 48) as u8);
    v.push((x >> 40) as u8);
    v.push((x >> 32) as u8);
    v.push((x >> 24) as u8);
    v.push((x >> 16) as u8);
    v.push((x >> 8) as u8);
    v.push(x as u8);
    proof {
        assert(v@ =~= s + spec_be_bytes_of_u64(x));
    }
}

fn append_digest(v: &mut Vec<u8>, d: &Digest)
    ensures
        final(v)@ == old(v)@ + spec_digest_bytes(*d),
{
    let ghost s = v@;
    append_u64(v, d.w0);
    append_u64(v, d.w1);
    append_u64(v, d.w2);
    append_u64(v, d.w3);
    proof {
        assert(v@ =~= s + spec_digest_bytes(*d));
    }
}

fn append_input(v: &mut Vec<u8>, input: &TransactionInput)
    ensures
        final(v)@ == old(v)@ + spec_input_bytes(*input),
{
    let ghost s = v@;
    append_digest(v, &input.previous_output.txid);
    append_u32(v, input.previous_output.vout);
    append_u64(v, input.script_sig.len() as u64);
    v.extend_from_slice(input.script_sig.as_slice());
    append_u32(v, input.sequence);
    proof {
        assert(v@ =~= s + spec_input_bytes(*input));
    }
}

fn append_output(v: &mut Vec<u8>, output: &TransactionOutput)
    ensures
        final(v)@ == old(v)@ + spec_output_bytes(*output),
{
    let ghost s = v@;
    append_u64(v, output.value);
    append_u64(v, output.script_pubkey.len() as u64);
    v.extend_from_slice(output.script_pubkey.as_slice());
    proof {
        assert(v@ =~= s + spec_output_bytes(*output));
    }
}

proof fn lemma_inputs_bytes_take(s: Seq<TransactionInput>, i: int)
    requires
        0 <= i < s.len(),
    ensures
        spec_inputs_bytes(s.take(i + 1)) == spec_inputs_bytes(s.take(i)) + spec_input_bytes(s[i]),
{
    assert(s.take(i + 1).drop_last() =~= s.take(i));
    assert(s.take(i + 1).last() == s[i]);
}

proof fn lemma_outputs_bytes_take(s: Seq<TransactionOutput>, i: int)
    requires
        0 <= i < s.len(),
    ensures
        spec_outputs_bytes(s.take(i + 1)) == spec_outputs_bytes(s.take(i)) + spec_output_bytes(
            s[i],
        ),
{
    assert(s.take(i + 1).drop_last() =~= s.take(i));
    assert(s.take(i + 1).last() == s[i]);
}

impl Transaction {
    /// Calculate the transaction hash: the digest of the transaction's
    /// canonical byte encoding.
    pub fn hash(&self) -> (r: TransactionHash)
        ensures
            r == spec_tx_hash(*self),
    {
        let mut v: Vec<u8> = Vec::new();
        append_u32(&mut v, self.version);
        append_u64(&mut v, self.inputs.len() as u64);
        let ghost base_inputs = v@;
        let mut i: usize = 0;
        while i < self.inputs.len()
            invariant
                i <= self.inputs@.len(),
                v@ == base_inputs + spec_inputs_bytes(self.inputs@.take(i as int)),
            decreases self.inputs@.len() - i,
        {
            append_input(&mut v, &self.inputs[i]);
            proof {
                lemma_inputs_bytes_take(self.inputs@, i as int);
                assert(v@ =~= base_inputs + spec_inputs_bytes(self.inputs@.take(i as int + 1)));
            }
            i = i + 1;
        }
        proof {
            assert(self.inputs@.take(self.inputs@.len() as int) =~= self.inputs@);
        }
        append_u64(&mut v, self.outputs.len() as u64);
        let ghost base_outputs = v@;
        let mut j: usize = 0;
        while j < self.outputs.len()
            invariant
                j <= self.outputs@.len(),
                v@ == base_outputs + spec_outputs_bytes(self.outputs@.take(j as int)),
            decreases self.outputs@.len() - j,
        {
            append_output(&mut v, &self.outputs[j]);
            proof {
                lemma_outputs_bytes_take(self.outputs@, j as int);
                assert(v@ =~= base_outputs + spec_outputs_bytes(self.outputs@.take(j as int + 1)));
            }
            j = j + 1;
        }
        proof {
            assert(self.outputs@.take(self.outputs@.len() as int) =~= self.outputs@);
        }
        append_u32(&mut v, self.lock_time);
        proof {
            assert(v@ =~= spec_tx_bytes(*self));
        }
        digest_of_bytes(&v)
    }
}

impl Block {
    /// Calculate the block hash from the header.
    pub fn hash(&self) -> (r: BlockHash)
        ensures
            r == spec_block_hash(*self),
    {
        let mut v: Vec<u8> = Vec::new();
        append_u32(&mut v, self.header.version);
        append_digest(&mut v, &self.header.prev_block);
        append_digest(&mut v, &self.header.merkle_root);
        append_u64(&mut v, self.header.timestamp);
        append_u32(&mut v, self.header.difficulty);
        append_u64(&mut v, self.header.nonce);
        proof {
            assert(v@ =~= spec_header_bytes(self.header));
        }
        digest_of_bytes(&v)
    }

    /// Create a new block with the given header and transactions.
    pub fn new(header: BlockHeader, transactions: Vec<Transaction>) -> (r: Block)
        ensures
            r.header == header,
            r.transactions == transactions,
    {
        Block { header, transactions }
    }
}

/// Create a short transaction ID: the first eight bytes of the hash.
pub fn create_short_transaction_id(tx_hash: &TransactionHash) -> (r: ShortTransactionId)
    ensures
        r.0 == tx_hash.w0,
{
    ShortTransactionId(tx_hash.w0)
}

/// The all-zero digest, the merkle root of an empty transaction list.
pub open spec fn spec_zero_digest() -> Digest {
    Digest { w0: 0, w1: 0, w2: 0, w3: 0 }
}

/// One level of the merkle tree: adjacent pairs combined, an odd leftover
/// combined with itself.
pub open spec fn spec_merkle_level(s: Seq<Digest>) -> Seq<Digest> {
    Seq::new(
        ((s.len() + 1) / 2) as nat,
        |i: int|
            if 2 * i + 1 < s.len() {
                spec_combine(s[2 * i], s[2 * i + 1])
            } else {
                spec_combine(s[2 * i], s[2 * i])
            },
    )
}

/// The merkle root of a sequence of transaction hashes.
pub open spec fn spec_merkle_root(s: Seq<Digest>) -> Digest
    decreases s.len(),
{
    if s.len() == 0 {
        spec_zero_digest()
    } else if s.len() == 1 {
        s[0]
    } else {
        spec_merkle_root(spec_merkle_level(s))
    }
}

/// Compute the merkle root of a list of transaction hashes.
#[verifier::rlimit(50)]
pub fn compute_merkle_root(hashes: &Vec<Digest>) -> (r: Digest)
    requires
        hashes@.len() < usize::MAX,
    ensures
        r == spec_merkle_root(hashes@),
{
    if hashes.len() == 0 {
        return Digest { w0: 0, w1: 0, w2: 0, w3: 0 };
    }
    let mut level: Vec<Digest> = Vec::new();
    let mut i: usize = 0;
    while i < hashes.len()
        invariant
            i <= hashes@.len(),
            level@ == hashes@.take(i as int),
        decreases hashes@.len() - i,
    {
        level.push(hashes[i]);
        i = i + 1;
    }
    proof {
        assert(level@ =~= hashes@);
    }
    while level.len() > 1
        invariant
            1 <= level@.len() <= hashes@.len() < usize::MAX,
            spec_merkle_root(level@) == spec_merkle_root(hashes@),
        decreases level@.len(),
    {
        let ghost cur = level@;
        let mut next: Vec<Digest> = Vec::new();
        let mut k: usize = 0;
        let half = (level.len() + 1) / 2;
        while k < half
            invariant
                level@ == cur,
                cur.len() >= 2,
                cur.len() < usize::MAX,
                half == (cur.len() + 1) / 2,
                k <= half,
                next@ == spec_merkle_level(cur).take(k as int),
            decreases half - k,
        {
            proof {
                assert(2 * (k as int) < cur.len()) by (nonlinear_arith)
                    requires
                        0 <= k < half,
                        half == (cur.len() + 1) / 2,
                        cur.len() >= 2,
                ;
            }
            let a = level[2 * k];
            let b = if 2 * k + 1 < level.len() {
                level[2 * k + 1]
            } else {
                level[2 * k]
            };
            let combined = combine_digests(&a, &b);
            next.push(combined);
            proof {
                assert(next@ =~= spec_merkle_level(cur).take(k as int + 1));
            }
            k = k + 1;
        }
        proof {
            assert(spec_merkle_level(cur).take(half as int) =~= spec_merkle_level(cur));
            assert(spec_merkle_root(cur) == spec_merkle_root(spec_merkle_level(cur)));
        }
        level = next;
    }
    level[0]
}

/// Whether the mempool has a transaction under a hash.
pub open spec fn spec_mempool_has_hash(s: Seq<(TransactionHash, Transaction)>, h: Digest) -> bool {
    exists|i: int| 0 <= i < s.len() && (#[trigger] s[i]).0 == h
}

/// Whether the mempool has a transaction under a short id.
pub open spec fn spec_mempool_has_short(s: Seq<(TransactionHash, Transaction)>, sid: u64) -> bool {
    exists|i: int| 0 <= i < s.len() && (#[trigger] s[i]).0.w0 == sid
}

/// A transaction was resolved from the mempool entry holding a short id;
/// resolution copies the transaction, so it is compared by its canonical
/// encoding.
pub open spec fn spec_resolved_by_short(
    mempool: Seq<(TransactionHash, Transaction)>,
    tx: Transaction,
    sid: u64,
) -> bool {
    exists|k: int|
        0 <= k < mempool.len() && spec_tx_bytes((#[trigger] mempool[k]).1) == spec_tx_bytes(tx)
            && mempool[k].0.w0 == sid
}

/// A transaction was resolved from the mempool entry holding a full hash.
pub open spec fn spec_resolved_by_hash(
    mempool: Seq<(TransactionHash, Transaction)>,
    tx: Transaction,
    h: Digest,
) -> bool {
    exists|k: int|
        0 <= k < mempool.len() && spec_tx_bytes((#[trigger] mempool[k]).1) == spec_tx_bytes(tx)
            && mempool[k].0 == h
}

/// The transaction the mempool resolves a short id to: the first entry
/// whose key starts with those eight bytes.
pub open spec fn spec_resolve_short(
    mempool: Seq<(TransactionHash, Transaction)>,
    sid: u64,
) -> Option<Transaction>
    decreases mempool.len(),
{
    if mempool.len() == 0 {
        None
    } else if mempool[0].0.w0 == sid {
        Some(mempool[0].1)
    } else {
        spec_resolve_short(mempool.drop_first(), sid)
    }
}

/// The transaction the mempool resolves a full hash to.
pub open spec fn spec_resolve_hash(
    mempool: Seq<(TransactionHash, Transaction)>,
    h: Digest,
) -> Option<Transaction>
    decreases mempool.len(),
{
    if mempool.len() == 0 {
        None
    } else if mempool[0].0 == h {
        Some(mempool[0].1)
    } else {
        spec_resolve_hash(mempool.drop_first(), h)
    }
}

/// The transactions a compact announcement resolves to, in announcement
/// order: the short-id entries, then the full-hash entries.
pub open spec fn spec_resolved_txs(
    mempool: Seq<(TransactionHash, Transaction)>,
    short_ids: Seq<ShortTransactionId>,
    hashes: Seq<Digest>,
) -> Seq<Transaction> {
    Seq::new(
        (short_ids.len() + hashes.len()) as nat,
        |i: int|
            if i < short_ids.len() {
                spec_resolve_short(mempool, short_ids[i].0)->Some_0
            } else {
                spec_resolve_hash(mempool, hashes[i - short_ids.len()])->Some_0
            },
    )
}

/// A first matching entry decides the short-id resolution.
proof fn lemma_resolve_short_at(mempool: Seq<(TransactionHash, Transaction)>, i: int)
    requires
        0 <= i < mempool.len(),
        forall|j: int| 0 <= j < i ==> (#[trigger] mempool[j]).0.w0 != mempool[i].0.w0,
    ensures
        spec_resolve_short(mempool, mempool[i].0.w0) == Some(mempool[i].1),
    decreases mempool.len(),
{
    if i > 0 {
        assert(mempool.drop_first()[i - 1] == mempool[i]);
        assert forall|j: int| 0 <= j < i - 1 implies (#[trigger] mempool.drop_first()[j]).0.w0
            != mempool.drop_first()[i - 1].0.w0 by {
            assert(mempool.drop_first()[j] == mempool[j + 1]);
        };
        lemma_resolve_short_at(mempool.drop_first(), i - 1);
    }
}

/// A first matching entry decides the hash resolution.
proof fn lemma_resolve_hash_at(mempool: Seq<(TransactionHash, Transaction)>, i: int)
    requires
        0 <= i < mempool.len(),
        forall|j: int| 0 <= j < i ==> (#[trigger] mempool[j]).0 != mempool[i].0,
    ensures
        spec_resolve_hash(mempool, mempool[i].0) == Some(mempool[i].1),
    decreases mempool.len(),
{
    if i > 0 {
        assert(mempool.drop_first()[i - 1] == mempool[i]);
        assert forall|j: int| 0 <= j < i - 1 implies (#[trigger] mempool.drop_first()[j]).0
            != mempool.drop_first()[i - 1].0 by {
            assert(mempool.drop_first()[j] == mempool[j + 1]);
        };
        lemma_resolve_hash_at(mempool.drop_first(), i - 1);
    }
}

/// The estimated mempool prevalence of a transaction, in thousandths;
/// unmeasured transactions default to the threshold itself.
pub open spec fn spec_prevalence(s: Seq<(Digest, u32)>, h: Digest) -> u32
    decreases s.len(),
{
    if s.len() == 0 {
        800
    } else if s[0].0 == h {
        s[0].1
    } else {
        spec_prevalence(s.drop_first(), h)
    }
}

/// The short ids of the transactions whose prevalence reaches the
/// threshold, in block order.
pub open spec fn spec_short_ids(
    txs: Seq<Transaction>,
    prev: Seq<(Digest, u32)>,
    threshold: u32,
) -> Seq<ShortTransactionId>
    decreases txs.len(),
{
    if txs.len() == 0 {
        Seq::empty()
    } else {
        spec_short_ids(txs.drop_last(), prev, threshold) + (if spec_prevalence(
            prev,
            spec_tx_hash(txs.last()),
        ) >= threshold {
            seq![ShortTransactionId(spec_tx_hash(txs.last()).w0)]
        } else {
            Seq::empty()
        })
    }
}

/// The full hashes of the transactions below the threshold, in block order.
pub open spec fn spec_missing_hashes(
    txs: Seq<Transaction>,
    prev: Seq<(Digest, u32)>,
    threshold: u32,
) -> Seq<TransactionHash>
    decreases txs.len(),
{
    if txs.len() == 0 {
        Seq::empty()
    } else {
        spec_missing_hashes(txs.drop_last(), prev, threshold) + (if spec_prevalence(
            prev,
            spec_tx_hash(txs.last()),
        ) >= threshold {
            Seq::empty()
        } else {
            seq![spec_tx_hash(txs.last())]
        })
    }
}

/// A plan for announcing one block: the receivers grouped by preference
/// and the three announcement forms for the caller to send.
pub struct BlockPropagationPlan {
    pub full_block_peers: Vec<PeerId>,
    pub compact_peers: Vec<PeerId>,
    pub header_peers: Vec<PeerId>,
    pub full_announcement: BlockAnnouncement,
    pub compact_announcement: Option<BlockAnnouncement>,
    pub header_announcement: BlockAnnouncement,
}

/// Block propagation optimizer.
pub struct BlockPropagator {
    pub mempool: Vec<(TransactionHash, Transaction)>,
    pub seen_blocks: Vec<BlockHash>,
    pub compact_blocks_enabled: bool,
    pub prevalence_threshold_permille: u32,
    pub tx_prevalence_permille: Vec<(Digest, u32)>,
}

impl BlockPropagator {
    /// Mempool keys are the hashes of their transactions and are distinct.
    pub open spec fn wf(self) -> bool {
        &&& forall|i: int|
            0 <= i < self.mempool@.len() ==> (#[trigger] self.mempool@[i]).0 == spec_tx_hash(
                self.mempool@[i].1,
            )
        &&& forall|i: int, j: int|
            0 <= i < j < self.mempool@.len() ==> (#[trigger] self.mempool@[i]).0 != (
            #[trigger] self.mempool@[j]).0
    }

    /// Create a new block propagator.
    pub fn new(compact_enabled: bool, threshold_permille: u32) -> (r: BlockPropagator)
        ensures
            r.wf(),
            r.compact_blocks_enabled == compact_enabled,
            r.prevalence_threshold_permille == threshold_permille,
            r.mempool@.len() == 0,
            r.seen_blocks@.len() == 0,
    {
        BlockPropagator {
            mempool: Vec::new(),
            seen_blocks: Vec::new(),
            compact_blocks_enabled: compact_enabled,
            prevalence_threshold_permille: threshold_permille,
            tx_prevalence_permille: Vec::new(),
        }
    }

    /// Add a transaction to the mempool under its own hash.
    pub fn add_transaction_to_mempool(&mut self, transaction: Transaction)
        requires
            old(self).wf(),
        ensures
            final(self).wf(),
            final(self).mempool@.contains((spec_tx_hash(transaction), transaction)),
            final(self).seen_blocks@ == old(self).seen_blocks@,
            final(self).compact_blocks_enabled == old(self).compact_blocks_enabled,
            final(self).prevalence_threshold_permille == old(self).prevalence_threshold_permille,
            final(self).tx_prevalence_permille@ == old(self).tx_prevalence_permille@,
            // a known hash is replaced in place; a fresh one is appended
            spec_mempool_has_hash(old(self).mempool@, spec_tx_hash(transaction)) ==> exists|i: int|
                0 <= i < old(self).mempool@.len() && (#[trigger] old(self).mempool@[i]).0
                    == spec_tx_hash(transaction) && final(self).mempool@ == old(self).mempool@.update(i, (spec_tx_hash(transaction), transaction)),
            !spec_mempool_has_hash(old(self).mempool@, spec_tx_hash(transaction)) ==> final(self).mempool@ == old(self).mempool@.push((spec_tx_hash(transaction), transaction)),
    {
        let tx_hash = transaction.hash();
        let ghost s0 = self.mempool@;
        let mut i: usize = 0;
        let mut found: Option<usize> = None;
        while i < self.mempool.len()
            invariant
                i <= s0.len(),
                self.mempool@ == s0,
                tx_hash == spec_tx_hash(transaction),
                found matches Some(fi) ==> fi < s0.len() && s0[fi as int].0 == spec_tx_hash(
                    transaction,
                ),
                found is None ==> forall|j: int|
                    0 <= j < i ==> (#[trigger] s0[j]).0 != spec_tx_hash(transaction),
            decreases s0.len() - i,
        {
            if found.is_none() && self.mempool[i].0 == tx_hash {
                found = Some(i);
            }
            i = i + 1;
        }
        match found {
            Some(index) => {
                self.mempool.set(index, (tx_hash, transaction));
                proof {
                    let t = self.mempool@;
                    assert(t[index as int] == (spec_tx_hash(transaction), transaction));
                    assert(forall|i2: int| 0 <= i2 < t.len() ==> (#[trigger] t[i2]).0 == s0[i2].0);
                }
            },
            None => {
                self.mempool.push((tx_hash, transaction));
                proof {
                    let t = self.mempool@;
                    assert(t[t.len() - 1] == (spec_tx_hash(transaction), transaction));
                    assert forall|i2: int, j2: int| 0 <= i2 < j2 < t.len() implies (
                    #[trigger] t[i2]).0 != (#[trigger] t[j2]).0 by {
                        if j2 == t.len() - 1 {
                            assert(t[i2] == s0[i2]);
                        }
                    };
                }
            },
        }
    }

    /// Record a measured mempool prevalence for a transaction hash.
    pub fn set_transaction_prevalence(&mut self, tx_hash: Digest, permille: u32)
        requires
            old(self).wf(),
        ensures
            final(self).wf(),
            spec_prevalence(final(self).tx_prevalence_permille@, tx_hash) == permille,
            final(self).mempool@ == old(self).mempool@,
            final(self).seen_blocks@ == old(self).seen_blocks@,
            final(self).prevalence_threshold_permille == old(self).prevalence_threshold_permille,
            final(self).compact_blocks_enabled == old(self).compact_blocks_enabled,
            // a known hash is replaced in place; a fresh one is appended
            (exists|i: int|
                0 <= i < old(self).tx_prevalence_permille@.len() && (#[trigger] old(self).tx_prevalence_permille@[i]).0 == tx_hash) ==> exists|i: int|
                0 <= i < old(self).tx_prevalence_permille@.len() && (#[trigger] old(self).tx_prevalence_permille@[i]).0 == tx_hash && final(self).tx_prevalence_permille@
                    == old(self).tx_prevalence_permille@.update(i, (tx_hash, permille)),
            !(exists|i: int|
                0 <= i < old(self).tx_prevalence_permille@.len() && (#[trigger] old(self).tx_prevalence_permille@[i]).0 == tx_hash) ==> final(self).tx_prevalence_permille@ == old(self).tx_prevalence_permille@.push(
                (tx_hash, permille),
            ),
    {
        let ghost s0 = self.tx_prevalence_permille@;
        let mut i: usize = 0;
        while i < self.tx_prevalence_permille.len()
            invariant
                i <= s0.len(),
                self.tx_prevalence_permille@ == s0,
                s0 == old(self).tx_prevalence_permille@,
                forall|j: int| 0 <= j < i ==> (#[trigger] s0[j]).0 != tx_hash,
                self.mempool@ == old(self).mempool@,
                self.seen_blocks@ == old(self).seen_blocks@,
                self.prevalence_threshold_permille == old(self).prevalence_threshold_permille,
                self.compact_blocks_enabled == old(self).compact_blocks_enabled,
                old(self).wf(),
            decreases s0.len() - i,
        {
            if self.tx_prevalence_permille[i].0 == tx_hash {
                self.tx_prevalence_permille.set(i, (tx_hash, permille));
                proof {
                    lemma_prevalence_at(self.tx_prevalence_permille@, i as int);
                    assert((#[trigger] old(self).tx_prevalence_permille@[i as int]).0 == tx_hash);
                }
                return;
            }
            i = i + 1;
        }
        self.tx_prevalence_permille.push((tx_hash, permille));
        proof {
            lemma_prevalence_push_fresh(s0, tx_hash, permille);
        }
    }

    /// Estimate how prevalent a transaction is in peer mempools.
    pub fn estimate_transaction_prevalence(&self, tx_hash: &Digest) -> (r: u32)
        ensures
            r == spec_prevalence(self.tx_prevalence_permille@, *tx_hash),
    {
        let mut i: usize = 0;
        proof {
            assert(self.tx_prevalence_permille@.skip(0) =~= self.tx_prevalence_permille@);
        }
        while i < self.tx_prevalence_permille.len()
            invariant
                i <= self.tx_prevalence_permille@.len(),
                spec_prevalence(self.tx_prevalence_permille@, *tx_hash) == spec_prevalence(
                    self.tx_prevalence_permille@.skip(i as int),
                    *tx_hash,
                ),
            decreases self.tx_prevalence_permille@.len() - i,
        {
            proof {
                assert(self.tx_prevalence_permille@.skip(i as int)[0]
                    == self.tx_prevalence_permille@[i as int]);
                assert(self.tx_prevalence_permille@.skip(i as int).drop_first()
                    =~= self.tx_prevalence_permille@.skip(i as int + 1));
            }
            if self.tx_prevalence_permille[i].0 == *tx_hash {
                return self.tx_prevalence_permille[i].1;
            }
            i = i + 1;
        }
        proof {
            assert(self.tx_prevalence_permille@.skip(self.tx_prevalence_permille@.len() as int)
                =~= Seq::<(Digest, u32)>::empty());
        }
        800
    }

    /// Create a compact block: transactions at or above the prevalence
    /// threshold travel as short ids, the rest as full hashes.
    pub fn create_compact_block(&self, block: &Block) -> (r: BlockAnnouncement)
        ensures
            r matches BlockAnnouncement::CompactBlock {
                header,
                short_ids,
                missing_transaction_hashes,
            } && {
                &&& header == block.header
                &&& short_ids@ == spec_short_ids(
                    block.transactions@,
                    self.tx_prevalence_permille@,
                    self.prevalence_threshold_permille,
                )
                &&& missing_transaction_hashes@ == spec_missing_hashes(
                    block.transactions@,
                    self.tx_prevalence_permille@,
                    self.prevalence_threshold_permille,
                )
            },
    {
        let mut short_ids: Vec<ShortTransactionId> = Vec::new();
        let mut missing_hashes: Vec<TransactionHash> = Vec::new();
        let mut i: usize = 0;
        while i < block.transactions.len()
            invariant
                i <= block.transactions@.len(),
                short_ids@ == spec_short_ids(
                    block.transactions@.take(i as int),
                    self.tx_prevalence_permille@,
                    self.prevalence_threshold_permille,
                ),
                missing_hashes@ == spec_missing_hashes(
                    block.transactions@.take(i as int),
                    self.tx_prevalence_permille@,
                    self.prevalence_threshold_permille,
                ),
            decreases block.transactions@.len() - i,
        {
            let tx_hash = block.transactions[i].hash();
            let prevalence = self.estimate_transaction_prevalence(&tx_hash);
            proof {
                assert(block.transactions@.take(i as int + 1).drop_last()
                    =~= block.transactions@.take(i as int));
                assert(block.transactions@.take(i as int + 1).last()
                    == block.transactions@[i as int]);
            }
            if prevalence >= self.prevalence_threshold_permille {
                short_ids.push(create_short_transaction_id(&tx_hash));
                proof {
                    assert(short_ids@ =~= spec_short_ids(
                        block.transactions@.take(i as int + 1),
                        self.tx_prevalence_permille@,
                        self.prevalence_threshold_permille,
                    ));
                    assert(missing_hashes@ =~= spec_missing_hashes(
                        block.transactions@.take(i as int + 1),
                        self.tx_prevalence_permille@,
                        self.prevalence_threshold_permille,
                    ));
                }
            } else {
                missing_hashes.push(tx_hash);
                proof {
                    assert(short_ids@ =~= spec_short_ids(
                        block.transactions@.take(i as int + 1),
                        self.tx_prevalence_permille@,
                        self.prevalence_threshold_permille,
                    ));
                    assert(missing_hashes@ =~= spec_missing_hashes(
                        block.transactions@.take(i as int + 1),
                        self.tx_prevalence_permille@,
                        self.prevalence_threshold_permille,
                    ));
                }
            }
            i = i + 1;
        }
        proof {
            assert(block.transactions@.take(block.transactions@.len() as int)
                =~= block.transactions@);
        }
        BlockAnnouncement::CompactBlock {
            header: block.header,
            short_ids,
            missing_transaction_hashes: missing_hashes,
        }
    }

    fn find_tx_by_short_id(&self, sid: u64) -> (r: Option<usize>)
        ensures
            r matches Some(i) ==> i < self.mempool@.len() && self.mempool@[i as int].0.w0 == sid
                && forall|j: int| 0 <= j < i ==> (#[trigger] self.mempool@[j]).0.w0 != sid,
            r is None ==> !spec_mempool_has_short(self.mempool@, sid),
    {
        let mut i: usize = 0;
        while i < self.mempool.len()
            invariant
                i <= self.mempool@.len(),
                forall|j: int| 0 <= j < i ==> (#[trigger] self.mempool@[j]).0.w0 != sid,
            decreases self.mempool@.len() - i,
        {
            if self.mempool[i].0.w0 == sid {
                return Some(i);
            }
            i = i + 1;
        }
        None
    }

    fn find_tx_by_hash(&self, h: &Digest) -> (r: Option<usize>)
        ensures
            r matches Some(i) ==> i < self.mempool@.len() && self.mempool@[i as int].0 == *h
                && forall|j: int| 0 <= j < i ==> (#[trigger] self.mempool@[j]).0 != *h,
            r is None ==> !spec_mempool_has_hash(self.mempool@, *h),
    {
        let mut i: usize = 0;
        while i < self.mempool.len()
            invariant
                i <= self.mempool@.len(),
                forall|j: int| 0 <= j < i ==> (#[trigger] self.mempool@[j]).0 != *h,
            decreases self.mempool@.len() - i,
        {
            if self.mempool[i].0 == *h {
                return Some(i);
            }
            i = i + 1;
        }
        None
    }

    /// Verify the integrity of a reconstructed block: the merkle root
    /// recomputed from the transaction list matches the header.
    pub fn verify_block_integrity(&self, block: &Block) -> (r: bool)
        requires
            block.transactions@.len() < usize::MAX,
        ensures
            r == (spec_merkle_root(
                block.transactions@.map_values(|tx: Transaction| spec_tx_hash(tx)),
            ) == block.header.merkle_root),
    {
        let mut hashes: Vec<Digest> = Vec::new();
        let mut i: usize = 0;
        while i < block.transactions.len()
            invariant
                i <= block.transactions@.len(),
                hashes@ =~= block.transactions@.map_values(|tx: Transaction| spec_tx_hash(tx)).take(
                    i as int,
                ),
            decreases block.transactions@.len() - i,
        {
            hashes.push(block.transactions[i].hash());
            proof {
                assert(hashes@ =~= block.transactions@.map_values(
                    |tx: Transaction| spec_tx_hash(tx),
                ).take(i as int + 1));
            }
            i = i + 1;
        }
        proof {
            let m = block.transactions@.map_values(|tx: Transaction| spec_tx_hash(tx));
            assert(m.take(m.len() as int) =~= m);
        }
        let root = compute_merkle_root(&hashes);
        root == block.header.merkle_root
    }

    /// Handle a received compact block: resolve the short ids and missing
    /// hashes against the local mempool.
    ///
    /// Returns `Ok(None)` when transactions remain unresolved (the caller
    /// requests them and retries), `Ok(Some(block))` once every transaction
    /// is resolved and the recomputed merkle root matches the header, and
    /// an error for a non-compact announcement or a failed integrity check.
    pub fn handle_compact_block(&self, announcement: &BlockAnnouncement) -> (r: Result<
        Option<Block>,
        NetworkError,
    >)
        requires
            self.wf(),
            announcement matches BlockAnnouncement::CompactBlock {
                header,
                short_ids,
                missing_transaction_hashes,
            } ==> short_ids@.len() + missing_transaction_hashes@.len() < usize::MAX,
        ensures
            !(announcement is CompactBlock) ==> (r matches Err(e) && e matches
                NetworkError::InvalidMessage(_)),
            announcement matches BlockAnnouncement::CompactBlock {
                header,
                short_ids,
                missing_transaction_hashes,
            } ==> {
                // incomplete exactly when something cannot be resolved
                &&& (r == Ok::<Option<Block>, NetworkError>(None) <==> ((exists|i: int|
                    0 <= i < short_ids@.len() && !spec_mempool_has_short(
                        self.mempool@,
                        (#[trigger] short_ids@[i]).0,
                    )) || (exists|j: int|
                    0 <= j < missing_transaction_hashes@.len() && !spec_mempool_has_hash(
                        self.mempool@,
                        #[trigger] missing_transaction_hashes@[j],
                    ))))
                // a reconstructed block carries the header, resolves every
                // entry from the mempool in announcement order, and passes
                // the merkle check
                &&& (r matches Ok(Some(b)) ==> {
                    &&& b.header == header
                    &&& b.transactions@.len() == short_ids@.len()
                        + missing_transaction_hashes@.len()
                    &&& forall|i: int|
                        0 <= i < short_ids@.len() ==> spec_resolved_by_short(
                            self.mempool@,
                            b.transactions@[i],
                            (#[trigger] short_ids@[i]).0,
                        )
                    &&& forall|j: int|
                        0 <= j < missing_transaction_hashes@.len() ==> spec_resolved_by_hash(
                            self.mempool@,
                            b.transactions@[short_ids@.len() + j],
                            #[trigger] missing_transaction_hashes@[j],
                        )
                    &&& spec_merkle_root(
                        b.transactions@.map_values(|tx: Transaction| spec_tx_hash(tx)),
                    ) == header.merkle_root
                })
                // with everything resolvable the outcome is decided: the
                // block resolved from the mempool comes back when its merkle
                // root matches the header, and only a mismatch is an error
                &&& (((forall|i: int|
                    0 <= i < short_ids@.len() ==> spec_mempool_has_short(
                        self.mempool@,
                        (#[trigger] short_ids@[i]).0,
                    )) && (forall|j: int|
                    0 <= j < missing_transaction_hashes@.len() ==> spec_mempool_has_hash(
                        self.mempool@,
                        #[trigger] missing_transaction_hashes@[j],
                    ))) ==> {
                    let resolved = spec_resolved_txs(
                        self.mempool@,
                        short_ids@,
                        missing_transaction_hashes@,
                    );
                    &&& (spec_merkle_root(resolved.map_values(|tx: Transaction| spec_tx_hash(tx)))
                        == header.merkle_root ==> (r matches Ok(Some(b)) && b.header == header
                        && b.transactions@.len() == resolved.len() && forall|i: int|
                        0 <= i < resolved.len() ==> spec_tx_bytes(#[trigger] b.transactions@[i])
                            == spec_tx_bytes(resolved[i])))
                    &&& (spec_merkle_root(resolved.map_values(|tx: Transaction| spec_tx_hash(tx)))
                        != header.merkle_root ==> (r matches Err(e) && e matches
                        NetworkError::InvalidMessage(_)))
                })
            },
    {
        match announcement {
            BlockAnnouncement::CompactBlock { header, short_ids, missing_transaction_hashes } => {
                let mut transactions: Vec<Transaction> = Vec::new();
                let mut unresolved = false;
                let mut i: usize = 0;
                while i < short_ids.len()
                    invariant
                        i <= short_ids@.len(),
                        self.wf(),
                        !unresolved ==> transactions@.len() == i,
                        !unresolved ==> forall|i2: int|
                            0 <= i2 < i ==> spec_resolved_by_short(
                                self.mempool@,
                                transactions@[i2],
                                (#[trigger] short_ids@[i2]).0,
                            ),
                        !unresolved ==> forall|i2: int|
                            0 <= i2 < i ==> (spec_resolve_short(
                                self.mempool@,
                                (#[trigger] short_ids@[i2]).0,
                            ) is Some && spec_tx_bytes(transactions@[i2]) == spec_tx_bytes(
                                spec_resolve_short(self.mempool@, short_ids@[i2].0)->Some_0,
                            )),
                        unresolved == exists|i2: int|
                            0 <= i2 < i && !spec_mempool_has_short(
                                self.mempool@,
                                (#[trigger] short_ids@[i2]).0,
                            ),
                    decreases short_ids@.len() - i,
                {
                    match self.find_tx_by_short_id(short_ids[i].0) {
                        Some(k) => {
                            if !unresolved {
                                let ghost kk = k as int;
                                transactions.push(self.mempool[k].1.clone_tx());
                                proof {
                                    assert(spec_tx_bytes((#[trigger] self.mempool@[kk]).1)
                                        == spec_tx_bytes(transactions@[transactions@.len() - 1])
                                        && self.mempool@[kk].0.w0 == short_ids@[i as int].0);
                                    lemma_resolve_short_at(self.mempool@, kk);
                                }
                            }
                        },
                        None => {
                            proof {
                                assert(!spec_mempool_has_short(
                                    self.mempool@,
                                    short_ids@[i as int].0,
                                ));
                            }
                            unresolved = true;
                        },
                    }
                    i = i + 1;
                }
                let ghost n_short = transactions@.len();
                let mut j: usize = 0;
                while j < missing_transaction_hashes.len()
                    invariant
                        j <= missing_transaction_hashes@.len(),
                        self.wf(),
                        !unresolved ==> transactions@.len() == short_ids@.len() + j,
                        !unresolved ==> forall|i2: int|
                            0 <= i2 < short_ids@.len() ==> spec_resolved_by_short(
                                self.mempool@,
                                transactions@[i2],
                                (#[trigger] short_ids@[i2]).0,
                            ),
                        !unresolved ==> forall|i2: int|
                            0 <= i2 < short_ids@.len() ==> (spec_resolve_short(
                                self.mempool@,
                                (#[trigger] short_ids@[i2]).0,
                            ) is Some && spec_tx_bytes(transactions@[i2]) == spec_tx_bytes(
                                spec_resolve_short(self.mempool@, short_ids@[i2].0)->Some_0,
                            )),
                        !unresolved ==> forall|j2: int|
                            0 <= j2 < j ==> spec_resolved_by_hash(
                                self.mempool@,
                                transactions@[short_ids@.len() + j2],
                                #[trigger] missing_transaction_hashes@[j2],
                            ),
                        !unresolved ==> forall|j2: int|
                            0 <= j2 < j ==> (spec_resolve_hash(
                                self.mempool@,
                                #[trigger] missing_transaction_hashes@[j2],
                            ) is Some && spec_tx_bytes(transactions@[short_ids@.len() + j2])
                                == spec_tx_bytes(
                                spec_resolve_hash(
                                    self.mempool@,
                                    missing_transaction_hashes@[j2],
                                )->Some_0,
                            )),
                        unresolved == ((exists|i2: int|
                            0 <= i2 < short_ids@.len() && !spec_mempool_has_short(
                                self.mempool@,
                                (#[trigger] short_ids@[i2]).0,
                            )) || (exists|j2: int|
                            0 <= j2 < j && !spec_mempool_has_hash(
                                self.mempool@,
                                #[trigger] missing_transaction_hashes@[j2],
                            ))),
                    decreases missing_transaction_hashes@.len() - j,
                {
                    match self.find_tx_by_hash(&missing_transaction_hashes[j]) {
                        Some(k) => {
                            if !unresolved {
                                let ghost kk = k as int;
                                transactions.push(self.mempool[k].1.clone_tx());
                                proof {
                                    assert(spec_tx_bytes((#[trigger] self.mempool@[kk]).1)
                                        == spec_tx_bytes(transactions@[transactions@.len() - 1])
                                        && self.mempool@[kk].0
                                        == missing_transaction_hashes@[j as int]);
                                    lemma_resolve_hash_at(self.mempool@, kk);
                                }
                            }
                        },
                        None => {
                            proof {
                                assert(!spec_mempool_has_hash(
                                    self.mempool@,
                                    missing_transaction_hashes@[j as int],
                                ));
                            }
                            unresolved = true;
                        },
                    }
                    j = j + 1;
                }
                if unresolved {
                    return Ok(None);
                }
                let block = Block { header: *header, transactions };
                proof {
                    let resolved = spec_resolved_txs(
                        self.mempool@,
                        short_ids@,
                        missing_transaction_hashes@,
                    );
                    assert(block.transactions@.len() == resolved.len());
                    assert forall|i2: int| 0 <= i2 < resolved.len() implies spec_tx_bytes(
                        #[trigger] block.transactions@[i2],
                    ) == spec_tx_bytes(resolved[i2]) by {
                        if i2 < short_ids@.len() {
                            assert(resolved[i2] == spec_resolve_short(
                                self.mempool@,
                                short_ids@[i2].0,
                            )->Some_0);
                        } else {
                            assert(resolved[i2] == spec_resolve_hash(
                                self.mempool@,
                                missing_transaction_hashes@[i2 - short_ids@.len()],
                            )->Some_0);
                        }
                    };
                    assert(block.transactions@.map_values(|tx: Transaction| spec_tx_hash(tx))
                        =~= resolved.map_values(|tx: Transaction| spec_tx_hash(tx)));
                }
                if !self.verify_block_integrity(&block) {
                    return Err(
                        NetworkError::InvalidMessage("block integrity check failed".to_owned()),
                    );
                }
                Ok(Some(block))
            },
            _ => Err(NetworkError::InvalidMessage("not a compact block announcement".to_owned())),
        }
    }

    /// Whether a block hash was already propagated.
    pub fn has_seen_block(&self, h: &BlockHash) -> (r: bool)
        ensures
            r == self.seen_blocks@.contains(*h),
    {
        let mut i: usize = 0;
        while i < self.seen_blocks.len()
            invariant
                i <= self.seen_blocks@.len(),
                forall|j: int| 0 <= j < i ==> #[trigger] self.seen_blocks@[j] != *h,
            decreases self.seen_blocks@.len() - i,
        {
            if self.seen_blocks[i] == *h {
                proof {
                    assert(self.seen_blocks@[i as int] == *h);
                }
                return true;
            }
            i = i + 1;
        }
        false
    }

    /// Plan the propagation of a block: suppress blocks already seen,
    /// group the peers by announcement preference, and prepare the
    /// announcement forms for the caller to send.
    pub fn propagate_block(
        &mut self,
        block: &Block,
        peer_preferences: &Vec<(PeerId, BlockPreference)>,
    ) -> (r: Option<BlockPropagationPlan>)
        requires
            old(self).wf(),
        ensures
            final(self).wf(),
            final(self).mempool@ == old(self).mempool@,
            // an already-seen block is not propagated again
            old(self).seen_blocks@.contains(spec_block_hash(*block)) <==> r is None,
            // the block is marked as seen afterwards
            final(self).seen_blocks@.contains(spec_block_hash(*block)),
            // the announcement forms carry the block itself
            r matches Some(plan) ==> (plan.header_announcement matches BlockAnnouncement::HeaderOnly {
                header,
            } && header == block.header),
            r matches Some(plan) ==> (plan.full_announcement matches BlockAnnouncement::FullBlock(
                b,
            ) && b.header == block.header && b.transactions@.len() == block.transactions@.len()
                && (forall|i: int|
                0 <= i < b.transactions@.len() ==> spec_tx_bytes(#[trigger] b.transactions@[i])
                    == spec_tx_bytes(block.transactions@[i]))),
            r matches Some(plan) ==> (old(self).compact_blocks_enabled ==> (plan.compact_announcement
                matches Some(ca) && (ca matches BlockAnnouncement::CompactBlock {
                header,
                short_ids,
                missing_transaction_hashes,
            } && {
                &&& header == block.header
                &&& short_ids@ == spec_short_ids(
                    block.transactions@,
                    old(self).tx_prevalence_permille@,
                    old(self).prevalence_threshold_permille,
                )
                &&& missing_transaction_hashes@ == spec_missing_hashes(
                    block.transactions@,
                    old(self).tx_prevalence_permille@,
                    old(self).prevalence_threshold_permille,
                )
            }))),
            r matches Some(plan) ==> {
                &&& forall|i: int|
                    0 <= i < plan.full_block_peers@.len() ==> peer_preferences@.contains(
                        ((#[trigger] plan.full_block_peers@[i]), BlockPreference::FullBlocks),
                    )
                &&& forall|i: int|
                    0 <= i < plan.compact_peers@.len() ==> peer_preferences@.contains(
                        ((#[trigger] plan.compact_peers@[i]), BlockPreference::CompactBlocks),
                    )
                &&& forall|i: int|
                    0 <= i < plan.header_peers@.len() ==> peer_preferences@.contains(
                        ((#[trigger] plan.header_peers@[i]), BlockPreference::HeadersOnly),
                    )
                &&& plan.full_block_peers@.len() + plan.compact_peers@.len()
                    + plan.header_peers@.len() == peer_preferences@.len()
                &&& (old(self).compact_blocks_enabled <==> plan.compact_announcement is Some)
            },
    {
        let block_hash = block.hash();
        if self.has_seen_block(&block_hash) {
            return None;
        }
        self.seen_blocks.push(block_hash);
        proof {
            assert(self.seen_blocks@[self.seen_blocks@.len() - 1] == spec_block_hash(*block));
        }
        let mut full_block_peers: Vec<PeerId> = Vec::new();
        let mut compact_peers: Vec<PeerId> = Vec::new();
        let mut header_peers: Vec<PeerId> = Vec::new();
        let mut i: usize = 0;
        while i < peer_preferences.len()
            invariant
                i <= peer_preferences@.len(),
                forall|i2: int|
                    0 <= i2 < full_block_peers@.len() ==> peer_preferences@.contains(
                        ((#[trigger] full_block_peers@[i2]), BlockPreference::FullBlocks),
                    ),
                forall|i2: int|
                    0 <= i2 < compact_peers@.len() ==> peer_preferences@.contains(
                        ((#[trigger] compact_peers@[i2]), BlockPreference::CompactBlocks),
                    ),
                forall|i2: int|
                    0 <= i2 < header_peers@.len() ==> peer_preferences@.contains(
                        ((#[trigger] header_peers@[i2]), BlockPreference::HeadersOnly),
                    ),
                full_block_peers@.len() + compact_peers@.len() + header_peers@.len() == i,
            decreases peer_preferences@.len() - i,
        {
            let (peer_id, preference) = peer_preferences[i];
            proof {
                assert(peer_preferences@[i as int] == (peer_id, preference));
            }
            match preference {
                BlockPreference::FullBlocks => {
                    full_block_peers.push(peer_id);
                },
                BlockPreference::CompactBlocks => {
                    compact_peers.push(peer_id);
                },
                BlockPreference::HeadersOnly => {
                    header_peers.push(peer_id);
                },
            }
            i = i + 1;
        }
        let compact_announcement = if self.compact_blocks_enabled {
            Some(self.create_compact_block(block))
        } else {
            None
        };
        Some(
            BlockPropagationPlan {
                full_block_peers,
                compact_peers,
                header_peers,
                full_announcement: BlockAnnouncement::FullBlock(block.clone_block()),
                compact_announcement,
                header_announcement: BlockAnnouncement::HeaderOnly { header: block.header },
            },
        )
    }
}

/// With the key at one index updated, the prevalence for that key is new.
proof fn lemma_prevalence_at(s: Seq<(Digest, u32)>, i: int)
    requires
        0 <= i < s.len(),
        forall|j: int| 0 <= j < i ==> (#[trigger] s[j]).0 != s[i].0,
    ensures
        spec_prevalence(s, s[i].0) == s[i].1,
    decreases s.len(),
{
    if i > 0 {
        assert(s.drop_first()[i - 1] == s[i]);
        assert forall|j: int| 0 <= j < i - 1 implies (#[trigger] s.drop_first()[j]).0
            != s.drop_first()[i - 1].0 by {
            assert(s.drop_first()[j] == s[j + 1]);
        };
        lemma_prevalence_at(s.drop_first(), i - 1);
    }
}

/// Pushing a fresh key sets its prevalence.
proof fn lemma_prevalence_push_fresh(s: Seq<(Digest, u32)>, h: Digest, v: u32)
    requires
        forall|j: int| 0 <= j < s.len() ==> (#[trigger] s[j]).0 != h,
    ensures
        spec_prevalence(s.push((h, v)), h) == v,
    decreases s.len(),
{
    let t = s.push((h, v));
    if s.len() == 0 {
        assert(t[0] == (h, v));
    } else {
        assert(t[0] == s[0]);
        assert(t.drop_first() =~= s.drop_first().push((h, v)));
        assert forall|j: int| 0 <= j < s.drop_first().len() implies (
        #[trigger] s.drop_first()[j]).0 != h by {
            assert(s.drop_first()[j] == s[j + 1]);
        };
        lemma_prevalence_push_fresh(s.drop_first(), h, v);
    }
}

impl Transaction {
    /// A copy of the transaction with the same canonical encoding, and
    /// therefore the same hash.
    pub fn clone_tx(&self) -> (r: Transaction)
        ensures
            r.version == self.version,
            r.lock_time == self.lock_time,
            r.inputs@.len() == self.inputs@.len(),
            r.outputs@.len() == self.outputs@.len(),
            spec_tx_bytes(r) == spec_tx_bytes(*self),
            spec_tx_hash(r) == spec_tx_hash(*self),
    {
        let mut inputs: Vec<TransactionInput> = Vec::new();
        let mut i: usize = 0;
        while i < self.inputs.len()
            invariant
                i <= self.inputs@.len(),
                inputs@.len() == i,
                spec_inputs_bytes(inputs@) == spec_inputs_bytes(self.inputs@.take(i as int)),
            decreases self.inputs@.len() - i,
        {
            let input = &self.inputs[i];
            let mut script_sig: Vec<u8> = Vec::new();
            let mut k: usize = 0;
            while k < input.script_sig.len()
                invariant
                    k <= input.script_sig@.len(),
                    script_sig@ == input.script_sig@.take(k as int),
                    input == &self.inputs[i as int],
                    i < self.inputs@.len(),
                decreases input.script_sig@.len() - k,
            {
                script_sig.push(input.script_sig[k]);
                k = k + 1;
            }
            proof {
                assert(script_sig@ =~= input.script_sig@);
            }
            let copy = TransactionInput {
                previous_output: input.previous_output,
                script_sig,
                sequence: input.sequence,
            };
            let ghost before = inputs@;
            proof {
                assert(spec_input_bytes(copy) == spec_input_bytes(self.inputs@[i as int]));
            }
            inputs.push(copy);
            proof {
                assert(inputs@.drop_last() =~= before);
                assert(inputs@.last() == copy);
                lemma_inputs_bytes_take(self.inputs@, i as int);
            }
            i = i + 1;
        }
        proof {
            assert(self.inputs@.take(self.inputs@.len() as int) =~= self.inputs@);
        }
        let mut outputs: Vec<TransactionOutput> = Vec::new();
        let mut j: usize = 0;
        while j < self.outputs.len()
            invariant
                j <= self.outputs@.len(),
                outputs@.len() == j,
                spec_outputs_bytes(outputs@) == spec_outputs_bytes(self.outputs@.take(j as int)),
            decreases self.outputs@.len() - j,
        {
            let output = &self.outputs[j];
            let mut script_pubkey: Vec<u8> = Vec::new();
            let mut k: usize = 0;
            while k < output.script_pubkey.len()
                invariant
                    k <= output.script_pubkey@.len(),
                    script_pubkey@ == output.script_pubkey@.take(k as int),
                    output == &self.outputs[j as int],
                    j < self.outputs@.len(),
                decreases output.script_pubkey@.len() - k,
            {
                script_pubkey.push(output.script_pubkey[k]);
                k = k + 1;
            }
            proof {
                assert(script_pubkey@ =~= output.script_pubkey@);
            }
            let copy = TransactionOutput { value: output.value, script_pubkey };
            let ghost before = outputs@;
            proof {
                assert(spec_output_bytes(copy) == spec_output_bytes(self.outputs@[j as int]));
            }
            outputs.push(copy);
            proof {
                assert(outputs@.drop_last() =~= before);
                assert(outputs@.last() == copy);
                lemma_outputs_bytes_take(self.outputs@, j as int);
            }
            j = j + 1;
        }
        proof {
            assert(self.outputs@.take(self.outputs@.len() as int) =~= self.outputs@);
        }
        let r = Transaction {
            version: self.version,
            inputs,
            outputs,
            lock_time: self.lock_time,
        };
        proof {
            assert(spec_tx_bytes(r) == spec_tx_bytes(*self));
        }
        r
    }
}

impl Block {
    /// A copy of the block whose transactions share their canonical
    /// encodings with the original.
    pub fn clone_block(&self) -> (r: Block)
        ensures
            r.header == self.header,
            r.transactions@.len() == self.transactions@.len(),
            forall|i: int|
                0 <= i < r.transactions@.len() ==> spec_tx_bytes(#[trigger] r.transactions@[i])
                    == spec_tx_bytes(self.transactions@[i]),
    {
        let mut transactions: Vec<Transaction> = Vec::new();
        let mut i: usize = 0;
        while i < self.transactions.len()
            invariant
                i <= self.transactions@.len(),
                transactions@.len() == i,
                forall|i2: int|
                    0 <= i2 < i ==> spec_tx_bytes(#[trigger] transactions@[i2]) == spec_tx_bytes(
                        self.transactions@[i2],
                    ),
            decreases self.transactions@.len() - i,
        {
            transactions.push(self.transactions[i].clone_tx());
            i = i + 1;
        }
        Block { header: self.header, transactions }
    }
}

/// Compact block reconstruction: when every transaction of a block travels
/// as a short id, the mempool holds each of them under its own hash, and no
/// two mempool entries share a short id, resolving the announcement yields
/// the block's transactions in their original order.
pub proof fn lemma_compact_round_trip(
    mempool: Seq<(TransactionHash, Transaction)>,
    block_txs: Seq<Transaction>,
    short_ids: Seq<ShortTransactionId>,
    reconstructed: Seq<Transaction>,
)
    requires
        // the mempool keys its transactions by their hashes, unambiguously
        forall|i: int|
            0 <= i < mempool.len() ==> (#[trigger] mempool[i]).0 == spec_tx_hash(mempool[i].1),
        forall|i: int, j: int|
            0 <= i < j < mempool.len() ==> (#[trigger] mempool[i]).0.w0 != (
            #[trigger] mempool[j]).0.w0,
        // the mempool holds every transaction of the block
        forall|i: int|
            0 <= i < block_txs.len() ==> mempool.contains(
                (spec_tx_hash(#[trigger] block_txs[i]), block_txs[i]),
            ),
        // the announcement carried every transaction as a short id, in order
        short_ids.len() == block_txs.len(),
        forall|i: int|
            0 <= i < short_ids.len() ==> (#[trigger] short_ids[i]).0 == spec_tx_hash(
                block_txs[i],
            ).w0,
        // the reconstruction resolved each short id from the mempool
        reconstructed.len() == short_ids.len(),
        forall|i: int|
            0 <= i < reconstructed.len() ==> spec_resolved_by_short(
                mempool,
                #[trigger] reconstructed[i],
                short_ids[i].0,
            ),
    ensures
        reconstructed.len() == block_txs.len(),
        forall|i: int|
            0 <= i < reconstructed.len() ==> spec_tx_bytes(#[trigger] reconstructed[i])
                == spec_tx_bytes(block_txs[i]),
        forall|i: int|
            0 <= i < reconstructed.len() ==> spec_tx_hash(#[trigger] reconstructed[i])
                == spec_tx_hash(block_txs[i]),
{
    assert forall|i: int| 0 <= i < reconstructed.len() implies spec_tx_bytes(
        #[trigger] reconstructed[i],
    ) == spec_tx_bytes(block_txs[i]) by {
        let k = choose|k: int|
            0 <= k < mempool.len() && spec_tx_bytes((#[trigger] mempool[k]).1) == spec_tx_bytes(
                reconstructed[i],
            ) && mempool[k].0.w0 == short_ids[i].0;
        assert(mempool.contains((spec_tx_hash(block_txs[i]), block_txs[i])));
        let k2 = choose|k2: int|
            0 <= k2 < mempool.len() && (#[trigger] mempool[k2]) == (
                spec_tx_hash(block_txs[i]),
                block_txs[i],
            );
        assert(mempool[k2].0.w0 == spec_tx_hash(block_txs[i]).w0);
        assert(k == k2);
    };
}

/// When every transaction of a block reaches the prevalence threshold, the
/// compact encoding carries exactly one short id per transaction, in block
/// order, and no full hashes.
pub proof fn lemma_all_prevalent_short_ids(
    txs: Seq<Transaction>,
    prev: Seq<(Digest, u32)>,
    threshold: u32,
)
    requires
        forall|i: int|
            0 <= i < txs.len() ==> spec_prevalence(prev, spec_tx_hash(#[trigger] txs[i]))
                >= threshold,
    ensures
        spec_short_ids(txs, prev, threshold).len() == txs.len(),
        forall|i: int|
            0 <= i < txs.len() ==> (#[trigger] spec_short_ids(txs, prev, threshold)[i]).0
                == spec_tx_hash(txs[i]).w0,
        spec_missing_hashes(txs, prev, threshold).len() == 0,
    decreases txs.len(),
{
    if txs.len() > 0 {
        assert forall|i: int|
            0 <= i < txs.drop_last().len() implies spec_prevalence(
            prev,
            spec_tx_hash(#[trigger] txs.drop_last()[i]),
        ) >= threshold by {
            assert(txs.drop_last()[i] == txs[i]);
        };
        lemma_all_prevalent_short_ids(txs.drop_last(), prev, threshold);
        assert(spec_prevalence(prev, spec_tx_hash(txs.last())) >= threshold);
        assert forall|i: int|
            0 <= i < txs.len() implies (#[trigger] spec_short_ids(txs, prev, threshold)[i]).0
            == spec_tx_hash(txs[i]).w0 by {
            if i < txs.len() - 1 {
                assert(spec_short_ids(txs, prev, threshold)[i] == spec_short_ids(
                    txs.drop_last(),
                    prev,
                    threshold,
                )[i]);
                assert(txs.drop_last()[i] == txs[i]);
            }
        };
    }
}

} // verus!
