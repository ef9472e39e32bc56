use crate::sha256;
use crate::sha256::hash_of;
use crate::types::{transaction_hash, Transaction};
use vstd::prelude::*;

verus! {

/// The digest that binds a block header to its list of transactions.
#[derive(Clone, Copy, Debug, PartialEq, Eq, Structural)]
pub struct MerkleRoot(pub sha256::Hash);

/// The interior node over two digests.
pub open spec fn pair_hash(left: sha256::Hash, right: sha256::Hash) -> sha256::Hash {
    hash_of(left.bytes_spec() + right.bytes_spec())
}

/// One level up the tree: adjacent digests are paired, and a last digest
/// without a partner is paired with itself.
pub open spec fn merkle_layer(s: Seq<sha256::Hash>) -> Seq<sha256::Hash> {
    Seq::new(
        ((s.len() + 1) / 2) as nat,
        |i: int|
            pair_hash(s[2 * i], if 2 * i + 1 < s.len() { s[2 * i + 1] } else { s[2 * i] }),
    )
}

/// Levels are built until one digest is left.
pub open spec fn merkle_reduce(s: Seq<sha256::Hash>) -> Seq<sha256::Hash>
    decreases s.len(),
{
    if s.len() <= 1 {
        s
    } else {
        merkle_reduce(merkle_layer(s))
    }
}

/// The digests of the transactions, in order.
pub open spec fn transaction_hashes(txs: Seq<Transaction>) -> Seq<sha256::Hash> {
    Seq::new(txs.len(), |i: int| transaction_hash(txs[i]))
}

/// The Merkle root of a non-empty list of transactions.
pub open spec fn merkle_root_of(txs: Seq<Transaction>) -> MerkleRoot {
    MerkleRoot(merkle_reduce(transaction_hashes(txs))[0])
}

proof fn lemma_reduce_len(s: Seq<sha256::Hash>)
    requires
        s.len() >= 1,
    ensures
        merkle_reduce(s).len() == 1,
    decreases s.len(),
{
    if s.len() > 1 {
        lemma_reduce_len(merkle_layer(s));
    }
}

/// The Merkle root depends on the transactions alone: equal lists give equal roots.
pub proof fn lemma_merkle_root_deterministic(a: Seq<Transaction>, b: Seq<Transaction>)
    requires
        a.len() >= 1,
        a == b,
    ensures
        merkle_root_of(a) == merkle_root_of(b),
        merkle_reduce(transaction_hashes(a)).len() == 1,
{
    lemma_reduce_len(transaction_hashes(a));
}

fn next_layer(layer: &Vec<sha256::Hash>) -> (r: Vec<sha256::Hash>)
    ensures
        r@ == merkle_layer(layer@),
{
    let mut new_layer: Vec<sha256::Hash> = Vec::new();
    let n = layer.len();
    let half = n / 2 + n % 2;
    let mut k: usize = 0;
    while k < half
        invariant
            n == layer@.len(),
            half == (n + 1) / 2,
            k <= half,
            new_layer@.len() == k,
            forall|j: int| 0 <= j < k ==> new_layer@[j] == merkle_layer(layer@)[j],
        decreases half - k,
    {
        let i = 2 * k;
        let left = layer[i];
        let right = if i + 1 < n {
            layer[i + 1]
        } else {
            layer[i]
        };
        let mut bytes: Vec<u8> = Vec::new();
        left.write_to(&mut bytes);
        right.write_to(&mut bytes);
        assert(bytes@ =~= left.bytes_spec() + right.bytes_spec());
        let h = sha256::Hash::hash_bytes(&bytes);
        assert(h == merkle_layer(layer@)[k as int]);
        new_layer.push(h);
        k = k + 1;
    }
    assert(new_layer@ =~= merkle_layer(layer@));
    new_layer
}

impl MerkleRoot {
    /// Computes the Merkle root of a block's transactions.
    pub fn calculate(transactions: &[Transaction]) -> (r: MerkleRoot)
        requires
            transactions@.len() >= 1,
        ensures
            r == merkle_root_of(transactions@),
    {
        let mut layer: Vec<sha256::Hash> = Vec::new();
        let mut i: usize = 0;
        while i < transactions.len()
            invariant
                i <= transactions@.len(),
                layer@ == transaction_hashes(transactions@).subrange(0, i as int),
            decreases transactions@.len() - i,
        {
            layer.push(transactions[i].hash());
            i = i + 1;
            assert(layer@ =~= transaction_hashes(transactions@).subrange(0, i as int));
        }
        assert(layer@ =~= transaction_hashes(transactions@));
        while layer.len() > 1
            invariant
                layer@.len() >= 1,
                merkle_reduce(layer@) == merkle_reduce(transaction_hashes(transactions@)),
            decreases layer@.len(),
        {
            layer = next_layer(&layer);
        }
        MerkleRoot(layer[0])
    }
}

} // verus!
