pub use crate::chain::Blockchain;
use crate::crypto::{push_all, PublicKey, Signature};
use crate::sha256;
use crate::sha256::{hash_of, push_u64, u64_be};
use crate::u256::U256;
use crate::util::MerkleRoot;
use vstd::prelude::*;

verus! {

/// An amount of value locked to a public key.
#[derive(Clone, Copy, Debug)]
pub struct TransactionOutput {
    pub value: u64,
    pub unique_id: u128,
    pub pubkey: PublicKey,
}

/// A reference to an unspent output, with the signature that authorises spending it.
#[derive(Clone, Copy, Debug)]
pub struct TransactionInput {
    pub prev_transaction_output_hash: sha256::Hash,
    pub signature: Signature,
}

/// Inputs spent and outputs created, in order.
#[derive(Clone, Debug)]
pub struct Transaction {
    pub inputs: Vec<TransactionInput>,
    pub outputs: Vec<TransactionOutput>,
}

/// The sixteen bytes of `x`, most significant first.
pub open spec fn u128_be(x: u128) -> Seq<u8> {
    u64_be((x / 0x1_0000_0000_0000_0000) as u64) + u64_be((x % 0x1_0000_0000_0000_0000) as u64)
}

/// The eight bytes of `x`, with the sign bit flipped so that the bytes order as the numbers do.
pub open spec fn i64_be(x: i64) -> Seq<u8> {
    u64_be((x + 0x8000_0000_0000_0000) as u64)
}

/// The 32 bytes of a 256-bit number, most significant first.
pub open spec fn u256_be(x: U256) -> Seq<u8> {
    sha256::Hash(x).bytes_spec()
}

pub open spec fn output_bytes(o: TransactionOutput) -> Seq<u8> {
    u64_be(o.value) + u128_be(o.unique_id) + o.pubkey.0@
}

pub open spec fn input_bytes(i: TransactionInput) -> Seq<u8> {
    i.prev_transaction_output_hash.bytes_spec() + i.signature.0@
}

pub open spec fn inputs_bytes(s: Seq<TransactionInput>) -> Seq<u8>
    decreases s.len(),
{
    if s.len() == 0 {
        Seq::empty()
    } else {
        inputs_bytes(s.drop_last()) + input_bytes(s.last())
    }
}

pub open spec fn outputs_bytes(s: Seq<TransactionOutput>) -> Seq<u8>
    decreases s.len(),
{
    if s.len() == 0 {
        Seq::empty()
    } else {
        outputs_bytes(s.drop_last()) + output_bytes(s.last())
    }
}

/// The canonical encoding of a transaction: each list is preceded by its length.
pub open spec fn transaction_bytes(t: Transaction) -> Seq<u8> {
    u64_be(t.inputs@.len() as u64) + inputs_bytes(t.inputs@) + u64_be(t.outputs@.len() as u64)
        + outputs_bytes(t.outputs@)
}

pub open spec fn transaction_hash(t: Transaction) -> sha256::Hash {
    hash_of(transaction_bytes(t))
}

pub open spec fn output_hash(o: TransactionOutput) -> sha256::Hash {
    hash_of(output_bytes(o))
}

fn push_u128(out: &mut Vec<u8>, x: u128)
    ensures
        final(out)@ == old(out)@ + u128_be(x),
{
    push_u64(out, (x / 0x1_0000_0000_0000_0000) as u64);
    push_u64(out, (x % 0x1_0000_0000_0000_0000) as u64);
    assert(final(out)@ =~= old(out)@ + u128_be(x));
}

fn push_i64(out: &mut Vec<u8>, x: i64)
    ensures
        final(out)@ == old(out)@ + i64_be(x),
{
    push_u64(out, (x as i128 + 0x8000_0000_0000_0000) as u64);
}

impl TransactionOutput {
    pub fn write_to(&self, out: &mut Vec<u8>)
        ensures
            final(out)@ == old(out)@ + output_bytes(*self),
    {
        push_u64(out, self.value);
        push_u128(out, self.unique_id);
        push_all(out, &self.pubkey.0);
        assert(final(out)@ =~= old(out)@ + output_bytes(*self));
    }

    /// The digest of the output's canonical encoding.
    pub fn hash(&self) -> (r: sha256::Hash)
        ensures
            r == output_hash(*self),
    {
        let mut out: Vec<u8> = Vec::new();
        self.write_to(&mut out);
        assert(out@ =~= output_bytes(*self));
        sha256::Hash::hash_bytes(&out)
    }
}

impl TransactionInput {
    pub fn write_to(&self, out: &mut Vec<u8>)
        ensures
            final(out)@ == old(out)@ + input_bytes(*self),
    {
        self.prev_transaction_output_hash.write_to(out);
        push_all(out, &self.signature.0);
        assert(final(out)@ =~= old(out)@ + input_bytes(*self));
    }
}

impl Transaction {
    pub fn new(inputs: Vec<TransactionInput>, outputs: Vec<TransactionOutput>) -> (r: Self)
        ensures
            r.inputs@ == inputs@,
            r.outputs@ == outputs@,
    {
        Transaction { inputs, outputs }
    }

    /// Appends the canonical encoding of the transaction.
    pub fn write_to(&self, out: &mut Vec<u8>)
        ensures
            final(out)@ == old(out)@ + transaction_bytes(*self),
    {
        let ghost start = out@;
        push_u64(out, self.inputs.len() as u64);
        let ghost mid = out@;
        let mut i: usize = 0;
        while i < self.inputs.len()
            invariant
                i <= self.inputs@.len(),
                out@ == mid + inputs_bytes(self.inputs@.subrange(0, i as int)),
            decreases self.inputs@.len() - i,
        {
            self.inputs[i].write_to(out);
            assert(self.inputs@.subrange(0, i + 1).drop_last() =~= self.inputs@.subrange(0, i as int));
            i = i + 1;
            assert(out@ =~= mid + inputs_bytes(self.inputs@.subrange(0, i as int)));
        }
        assert(self.inputs@.subrange(0, i as int) =~= self.inputs@);
        push_u64(out, self.outputs.len() as u64);
        let ghost mid2 = out@;
        let mut j: usize = 0;
        while j < self.outputs.len()
            invariant
                j <= self.outputs@.len(),
                out@ == mid2 + outputs_bytes(self.outputs@.subrange(0, j as int)),
            decreases self.outputs@.len() - j,
        {
            self.outputs[j].write_to(out);
            assert(self.outputs@.subrange(0, j + 1).drop_last() =~= self.outputs@.subrange(0, j as int));
            j = j + 1;
            assert(out@ =~= mid2 + outputs_bytes(self.outputs@.subrange(0, j as int)));
        }
        assert(self.outputs@.subrange(0, j as int) =~= self.outputs@);
        assert(out@ =~= start + transaction_bytes(*self));
    }

    /// The digest of the transaction's canonical encoding, which identifies it.
    pub fn hash(&self) -> (r: sha256::Hash)
        ensures
            r == transaction_hash(*self),
    {
        let mut out: Vec<u8> = Vec::new();
        self.write_to(&mut out);
        assert(out@ =~= transaction_bytes(*self));
        sha256::Hash::hash_bytes(&out)
    }
}

/// What a block commits to, and the proof-of-work search state.
#[derive(Clone, Copy, Debug)]
pub struct BlockHeader {
    /// Seconds since the Unix epoch.
    pub timestamp: i64,
    pub nonce: u64,
    pub prev_block_hash: sha256::Hash,
    pub merkle_root: MerkleRoot,
    pub target: U256,
}

/// The canonical encoding of a header.
#[verifier::opaque]
pub open spec fn header_bytes(h: BlockHeader) -> Seq<u8> {
    i64_be(h.timestamp) + u64_be(h.nonce) + h.prev_block_hash.bytes_spec()
        + h.merkle_root.0.bytes_spec() + u256_be(h.target)
}

/// The digest of a header, which identifies its block.
pub open spec fn header_hash(h: BlockHeader) -> sha256::Hash {
    hash_of(header_bytes(h))
}

/// The timestamp of the `k`-th mining try from `h`: one second later for
/// each time the nonce has wrapped.
pub open spec fn try_timestamp(h: BlockHeader, k: nat) -> int {
    h.timestamp + (h.nonce + k) / 0x1_0000_0000_0000_0000
}

/// Whether the `k`-th try's timestamp still fits an `i64`.
pub open spec fn try_in_range(h: BlockHeader, k: nat) -> bool {
    try_timestamp(h, k) <= i64::MAX
}

/// The header of the `k`-th mining try from `h`: the nonce advanced by `k`
/// (wrapping), the timestamp advanced at each wrap, the rest unchanged.
pub open spec fn kth_try(h: BlockHeader, k: nat) -> BlockHeader {
    BlockHeader {
        timestamp: try_timestamp(h, k) as i64,
        nonce: ((h.nonce + k) % 0x1_0000_0000_0000_0000) as u64,
        prev_block_hash: h.prev_block_hash,
        merkle_root: h.merkle_root,
        target: h.target,
    }
}

proof fn lemma_first_try(h: BlockHeader)
    ensures
        kth_try(h, 0) == h,
        try_in_range(h, 0),
{
}

proof fn lemma_next_try(h: BlockHeader, i: nat)
    requires
        try_in_range(h, i),
    ensures
        kth_try(h, i).nonce == u64::MAX ==> try_timestamp(h, i + 1) == try_timestamp(h, i) + 1
            && (try_timestamp(h, i) < i64::MAX ==> kth_try(h, i + 1) == (BlockHeader {
            nonce: 0,
            timestamp: (kth_try(h, i).timestamp + 1) as i64,
            ..kth_try(h, i)
        })),
        kth_try(h, i).nonce < u64::MAX ==> try_in_range(h, i + 1) && kth_try(h, i + 1) == (
        BlockHeader { nonce: (kth_try(h, i).nonce + 1) as u64, ..kth_try(h, i) }),
{
}

proof fn lemma_try_timestamp_ordered(h: BlockHeader, a: nat, b: nat)
    requires
        a <= b,
    ensures
        try_timestamp(h, a) <= try_timestamp(h, b),
{
    vstd::arithmetic::div_mod::lemma_div_is_ordered(
        h.nonce + a,
        h.nonce + b,
        0x1_0000_0000_0000_0000,
    );
}

impl BlockHeader {
    pub fn new(
        timestamp: i64,
        nonce: u64,
        prev_block_hash: sha256::Hash,
        merkle_root: MerkleRoot,
        target: U256,
    ) -> (r: Self)
        ensures
            r == (BlockHeader { timestamp, nonce, prev_block_hash, merkle_root, target }),
    {
        BlockHeader { timestamp, nonce, prev_block_hash, merkle_root, target }
    }

    pub fn write_to(&self, out: &mut Vec<u8>)
        ensures
            final(out)@ == old(out)@ + header_bytes(*self),
    {
        proof {
            reveal(header_bytes);
        }
        push_i64(out, self.timestamp);
        push_u64(out, self.nonce);
        self.prev_block_hash.write_to(out);
        self.merkle_root.0.write_to(out);
        sha256::Hash(self.target).write_to(out);
        assert(final(out)@ =~= old(out)@ + header_bytes(*self));
    }

    /// Searches for a nonce, at most `steps` tries, whose header digest is at
    /// most the target. Try `k` is `kth_try(start, k)`: the nonce advanced by
    /// `k`, the timestamp advanced by one second at each wrap. Returns whether
    /// a fitting header was found; without one, every try that kept the
    /// timestamp in range missed. The search stops early when the timestamp
    /// would leave its range.
    pub fn mine(&mut self, steps: usize) -> (r: bool)
        ensures
            r ==> exists|k: nat|
                k < steps && try_in_range(*old(self), k) && *final(self) == kth_try(*old(self), k)
                    && header_hash(*final(self)).0.value() <= final(self).target.value(),
            !r ==> forall|k: nat|
                k < steps && try_in_range(*old(self), k) ==> !(header_hash(
                    #[trigger] kth_try(*old(self), k),
                ).0.value() <= old(self).target.value()),
            final(self).prev_block_hash == old(self).prev_block_hash,
            final(self).merkle_root == old(self).merkle_root,
            final(self).target == old(self).target,
    {
        let mut i: usize = 0;
        proof {
            lemma_first_try(*self);
        }
        while i < steps
            invariant
                i <= steps,
                try_in_range(*old(self), i as nat),
                *self == kth_try(*old(self), i as nat),
                forall|k: nat|
                    k < i && try_in_range(*old(self), k) ==> !(header_hash(
                        #[trigger] kth_try(*old(self), k),
                    ).0.value() <= old(self).target.value()),
            decreases steps - i,
        {
            if self.hash().matches_target(self.target) {
                return true;
            }
            proof {
                lemma_next_try(*old(self), i as nat);
            }
            if self.nonce == u64::MAX {
                if self.timestamp == i64::MAX {
                    proof {
                        assert forall|k: nat| k < steps && try_in_range(*old(self), k) implies !(header_hash(
                            #[trigger] kth_try(*old(self), k),
                        ).0.value() <= old(self).target.value()) by {
                            if k > i {
                                lemma_try_timestamp_ordered(*old(self), (i + 1) as nat, k);
                            }
                        }
                    }
                    return false;
                }
                self.nonce = 0;
                self.timestamp = self.timestamp + 1;
            } else {
                self.nonce = self.nonce + 1;
            }
            i = i + 1;
        }
        false
    }

    pub fn hash(&self) -> (r: sha256::Hash)
        ensures
            r == header_hash(*self),
    {
        let mut out: Vec<u8> = Vec::new();
        self.write_to(&mut out);
        assert(out@ =~= header_bytes(*self));
        sha256::Hash::hash_bytes(&out)
    }
}

/// A header and the transactions it commits to.
#[derive(Clone, Debug)]
pub struct Block {
    pub header: BlockHeader,
    pub transactions: Vec<Transaction>,
}

impl Block {
    pub fn new(header: BlockHeader, transactions: Vec<Transaction>) -> (r: Self)
        ensures
            r.header == header,
            r.transactions@ == transactions@,
    {
        Block { header, transactions }
    }

    /// A block is identified by the digest of its header.
    pub fn hash(&self) -> (r: sha256::Hash)
        ensures
            r == header_hash(self.header),
    {
        self.header.hash()
    }
}

} // verus!
