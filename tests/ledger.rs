use btclib::crypto::{PublicKey, Signature};
use btclib::difficulty::retarget;
use btclib::error::BtcError;
use btclib::sha256;
use btclib::sync::{select_longest_peer, sync_step, SyncAction, SyncEvent, SyncPhase};
use btclib::types::{Block, BlockHeader, Blockchain, Transaction, TransactionInput, TransactionOutput};
use btclib::u256::U256;
use btclib::util::MerkleRoot;
use btclib::chain::ChainConfig;
use btclib::utxo::UtxoSet;
use k256::ecdsa::signature::Signer;
use k256::ecdsa::SigningKey;

fn signing_key(seed: u8) -> SigningKey {
    SigningKey::from_slice(&[seed; 32]).unwrap()
}

fn public_key(sk: &SigningKey) -> PublicKey {
    let point = sk.verifying_key().to_encoded_point(true);
    let mut bytes = [0u8; 33];
    bytes.copy_from_slice(point.as_bytes());
    PublicKey(bytes)
}

fn sign(sk: &SigningKey, h: &sha256::Hash) -> Signature {
    let sig: k256::ecdsa::Signature = sk.sign(&h.as_bytes());
    let mut bytes = [0u8; 64];
    bytes.copy_from_slice(&sig.to_bytes());
    Signature(bytes)
}

fn output(value: u64, unique_id: u128, sk: &SigningKey) -> TransactionOutput {
    TransactionOutput { value, unique_id, pubkey: public_key(sk) }
}

fn spend(prev: sha256::Hash, owner: &SigningKey) -> TransactionInput {
    TransactionInput { prev_transaction_output_hash: prev, signature: sign(owner, &prev) }
}

fn easiest() -> U256 {
    U256 { w0: u64::MAX, w1: u64::MAX, w2: u64::MAX, w3: u64::MAX }
}

fn block_on(prev: sha256::Hash, timestamp: i64, txs: Vec<Transaction>) -> Block {
    let root = MerkleRoot::calculate(&txs);
    Block::new(BlockHeader::new(timestamp, 0, prev, root, easiest()), txs)
}

fn issuance(value: u64, unique_id: u128, to: &SigningKey) -> Transaction {
    Transaction::new(vec![], vec![output(value, unique_id, to)])
}

fn genesis(to: &SigningKey, value: u64) -> Block {
    block_on(sha256::Hash::zero(), 1_000, vec![issuance(value, 2, to)])
}

/// A chain holding one accepted first block that issued 1000 to `owner`,
/// with the digest of that block and of its issuance transaction.
fn funded(owner: &SigningKey) -> (Blockchain, sha256::Hash, sha256::Hash) {
    let mut chain = Blockchain::new();
    let g = genesis(owner, 1000);
    let g_tx = g.transactions[0].hash();
    chain.add_block(g.clone()).unwrap();
    (chain, g.hash(), g_tx)
}

#[test]
fn sha256_of_abc() {
    let h = sha256::Hash::hash_bytes(&b"abc".to_vec());
    assert_eq!(h.0.w3, 0xba7816bf8f01cfea);
    assert_eq!(h.0.w2, 0x414140de5dae2223);
    assert_eq!(h.0.w1, 0xb00361a396177a9c);
    assert_eq!(h.0.w0, 0xb410ff61f20015ad);
    assert_eq!(h.as_bytes()[0], 0xba);
    assert_eq!(h.as_bytes().len(), 32);
}

#[test]
fn zero_hash_meets_any_target() {
    assert!(sha256::Hash::zero().matches_target(U256::zero()));
    let h = sha256::Hash::hash_bytes(&b"abc".to_vec());
    assert!(!h.matches_target(U256::from_u64(u64::MAX)));
    assert!(h.matches_target(easiest()));
}

#[test]
fn signature_checks_key_and_message() {
    let k1 = signing_key(1);
    let k2 = signing_key(2);
    let h = sha256::Hash::hash_bytes(&b"output".to_vec());
    let other = sha256::Hash::hash_bytes(&b"other".to_vec());
    let sig = sign(&k1, &h);
    assert!(sig.verify(&h, &public_key(&k1)));
    assert!(!sig.verify(&h, &public_key(&k2)));
    assert!(!sig.verify(&other, &public_key(&k1)));
}

#[test]
fn merkle_root_of_one_transaction_is_its_hash() {
    let k = signing_key(3);
    let tx = Transaction::new(vec![], vec![output(5, 9, &k)]);
    assert_eq!(MerkleRoot::calculate(&[tx.clone()]), MerkleRoot(tx.hash()));
}

#[test]
fn merkle_root_is_deterministic_and_order_sensitive() {
    let k = signing_key(3);
    let a = Transaction::new(vec![], vec![output(5, 1, &k)]);
    let b = Transaction::new(vec![], vec![output(6, 2, &k)]);
    let c = Transaction::new(vec![], vec![output(7, 3, &k)]);
    let abc = vec![a.clone(), b.clone(), c.clone()];
    let bac = vec![b.clone(), a.clone(), c.clone()];
    assert_eq!(MerkleRoot::calculate(&abc), MerkleRoot::calculate(&abc.clone()));
    assert_ne!(MerkleRoot::calculate(&abc), MerkleRoot::calculate(&bac));
    assert_ne!(
        MerkleRoot::calculate(&[a.clone(), b.clone()]),
        MerkleRoot::calculate(&[b.clone(), a.clone()])
    );
}

#[test]
fn merkle_root_pairs_odd_element_with_itself() {
    let k = signing_key(3);
    let a = Transaction::new(vec![], vec![output(5, 1, &k)]);
    let b = Transaction::new(vec![], vec![output(6, 2, &k)]);
    let c = Transaction::new(vec![], vec![output(7, 3, &k)]);
    let pair = |l: sha256::Hash, r: sha256::Hash| {
        let mut bytes = l.as_bytes();
        bytes.extend(r.as_bytes());
        sha256::Hash::hash_bytes(&bytes)
    };
    let ab = pair(a.hash(), b.hash());
    let cc = pair(c.hash(), c.hash());
    assert_eq!(MerkleRoot::calculate(&[a, b, c]), MerkleRoot(pair(ab, cc)));
}

#[test]
fn utxo_set_insert_replace_remove() {
    let k = signing_key(4);
    let mut set = UtxoSet::new();
    let h1 = sha256::Hash::hash_bytes(&b"one".to_vec());
    let h2 = sha256::Hash::hash_bytes(&b"two".to_vec());
    set.insert(h1, output(1, 1, &k));
    set.insert(h2, output(2, 2, &k));
    set.insert(h1, output(3, 3, &k));
    assert_eq!(set.len(), 2);
    assert_eq!(set.get(&h1).unwrap().value, 3);
    set.remove(&h1);
    assert!(!set.contains_key(&h1));
    assert!(set.get(&h1).is_none());
    assert_eq!(set.len(), 1);
    assert_eq!(set.copy().get(&h2).unwrap().value, 2);
}

#[test]
fn end_to_end_two_blocks() {
    let k1 = signing_key(11);
    let k2 = signing_key(12);
    let mut chain = Blockchain::new();
    let g = genesis(&k1, 1000);
    let g_tx = g.transactions[0].hash();
    assert_eq!(chain.add_block(g.clone()), Ok(()));
    assert_eq!(chain.utxos().len(), 1);
    let out = chain.utxos().get(&g_tx).unwrap();
    assert_eq!(out.value, 1000);
    assert_eq!(out.pubkey.0, public_key(&k1).0);

    let tx2 = Transaction::new(vec![spend(g_tx, &k1)], vec![output(900, 3, &k2)]);
    let tx2_hash = tx2.hash();
    let b2 = block_on(g.hash(), 1_060, vec![tx2]);
    assert_eq!(chain.add_block(b2), Ok(()));
    assert_eq!(chain.block_height(), 2);
    assert_eq!(chain.utxos().len(), 1);
    assert!(!chain.utxos().contains_key(&g_tx));
    let out2 = chain.utxos().get(&tx2_hash).unwrap();
    assert_eq!(out2.value, 900);
    assert_eq!(out2.pubkey.0, public_key(&k2).0);
}

#[test]
fn genesis_only_on_empty_chain() {
    let k1 = signing_key(11);
    let mut chain = Blockchain::new();
    let g = genesis(&k1, 1000);
    assert_eq!(chain.add_block(g.clone()), Ok(()));
    let mut again = g.clone();
    again.header.timestamp = 2_000;
    assert_eq!(chain.add_block(again), Err(BtcError::InvalidBlock));
    assert_eq!(chain.block_height(), 1);
}

#[test]
fn first_block_must_name_zero_predecessor() {
    let k1 = signing_key(11);
    let mut chain = Blockchain::new();
    let mut g = genesis(&k1, 1000);
    g.header.prev_block_hash = sha256::Hash::hash_bytes(&b"elsewhere".to_vec());
    assert_eq!(chain.add_block(g), Err(BtcError::InvalidBlock));
    assert_eq!(chain.block_height(), 0);
}

#[test]
fn issuance_above_the_reward_is_refused() {
    let k1 = signing_key(11);
    let mut chain = Blockchain::new();
    let reward = chain.config().block_reward;
    assert_eq!(chain.add_block(genesis(&k1, reward + 1)), Err(BtcError::InvalidTransaction));
    assert_eq!(chain.add_block(genesis(&k1, reward)), Ok(()));
}

#[test]
fn issuance_only_as_first_transaction() {
    let k1 = signing_key(11);
    let (mut chain, g_hash, g_tx) = funded(&k1);
    let spend_tx = Transaction::new(vec![spend(g_tx, &k1)], vec![output(900, 3, &k1)]);
    let b = block_on(g_hash, 1_060, vec![spend_tx, issuance(50, 4, &k1)]);
    assert_eq!(chain.add_block(b), Err(BtcError::InvalidTransaction));
    let spend_tx = Transaction::new(vec![spend(g_tx, &k1)], vec![output(900, 3, &k1)]);
    let b = block_on(g_hash, 1_060, vec![issuance(50, 4, &k1), spend_tx]);
    assert_eq!(chain.add_block(b), Ok(()));
    assert_eq!(chain.utxos().len(), 2);
}

#[test]
fn double_spend_within_block_is_refused() {
    let k1 = signing_key(11);
    let k2 = signing_key(12);
    let (mut chain, g_hash, g_tx) = funded(&k1);
    let first = Transaction::new(vec![spend(g_tx, &k1)], vec![output(500, 3, &k2)]);
    let second = Transaction::new(vec![spend(g_tx, &k1)], vec![output(400, 4, &k2)]);
    let b = block_on(g_hash, 1_060, vec![first, second]);
    assert_eq!(chain.add_block(b), Err(BtcError::InvalidTransaction));
    assert_eq!(chain.block_height(), 1);
    assert!(chain.utxos().contains_key(&g_tx));
}

#[test]
fn double_spend_within_transaction_is_refused() {
    let k1 = signing_key(11);
    let k2 = signing_key(12);
    let (mut chain, g_hash, g_tx) = funded(&k1);
    let tx = Transaction::new(
        vec![spend(g_tx, &k1), spend(g_tx, &k1)],
        vec![output(1500, 3, &k2)],
    );
    let b = block_on(g_hash, 1_060, vec![tx]);
    assert_eq!(chain.add_block(b), Err(BtcError::InvalidTransaction));
}

#[test]
fn outputs_worth_more_than_inputs_are_refused() {
    let k1 = signing_key(11);
    let k2 = signing_key(12);
    let (mut chain, g_hash, g_tx) = funded(&k1);
    let tx = Transaction::new(vec![spend(g_tx, &k1)], vec![output(1001, 3, &k2)]);
    assert_eq!(chain.add_block(block_on(g_hash, 1_060, vec![tx])), Err(BtcError::InvalidTransaction));
    assert_eq!(chain.utxos().len(), 1);
}

#[test]
fn fee_is_allowed() {
    let k1 = signing_key(11);
    let k2 = signing_key(12);
    let (mut chain, g_hash, g_tx) = funded(&k1);
    let tx = Transaction::new(vec![spend(g_tx, &k1)], vec![output(999, 3, &k2)]);
    assert_eq!(chain.add_block(block_on(g_hash, 1_060, vec![tx])), Ok(()));
}

#[test]
fn unknown_input_is_refused() {
    let k1 = signing_key(11);
    let (mut chain, g_hash, _) = funded(&k1);
    let unknown = sha256::Hash::hash_bytes(&b"nowhere".to_vec());
    let tx = Transaction::new(vec![spend(unknown, &k1)], vec![output(1, 3, &k1)]);
    assert_eq!(chain.add_block(block_on(g_hash, 1_060, vec![tx])), Err(BtcError::InvalidTransaction));
}

#[test]
fn wrong_signer_is_refused() {
    let k1 = signing_key(11);
    let k2 = signing_key(12);
    let (mut chain, g_hash, g_tx) = funded(&k1);
    let tx = Transaction::new(vec![spend(g_tx, &k2)], vec![output(900, 3, &k2)]);
    assert_eq!(chain.add_block(block_on(g_hash, 1_060, vec![tx])), Err(BtcError::InvalidSignature));
}

#[test]
fn empty_block_is_refused() {
    let mut chain = Blockchain::new();
    let header = BlockHeader::new(
        1_000,
        0,
        sha256::Hash::zero(),
        MerkleRoot(sha256::Hash::zero()),
        easiest(),
    );
    assert_eq!(chain.add_block(Block::new(header, vec![])), Err(BtcError::InvalidTransaction));
}

#[test]
fn wrong_merkle_root_is_refused() {
    let k1 = signing_key(11);
    let mut chain = Blockchain::new();
    let mut g = genesis(&k1, 1000);
    g.header.merkle_root = MerkleRoot(sha256::Hash::zero());
    assert_eq!(chain.add_block(g), Err(BtcError::InvalidMerkleRoot));
}

#[test]
fn timestamp_must_advance() {
    let k1 = signing_key(11);
    let k2 = signing_key(12);
    let (mut chain, g_hash, g_tx) = funded(&k1);
    let tx2 = Transaction::new(vec![spend(g_tx, &k1)], vec![output(900, 3, &k2)]);
    let b2 = block_on(g_hash, 1_000, vec![tx2]);
    assert_eq!(chain.add_block(b2), Err(BtcError::InvalidBlock));
}

#[test]
fn too_little_work_is_refused() {
    let k1 = signing_key(11);
    let mut chain = Blockchain::new();
    let mut g = genesis(&k1, 1000);
    g.header.target = U256::zero();
    assert_eq!(chain.add_block(g), Err(BtcError::InvalidBlock));
}

#[test]
fn mined_header_meets_target_and_mutation_breaks_it() {
    let k1 = signing_key(11);
    let mut g = genesis(&k1, 1000);
    g.header.target = U256 { w0: u64::MAX, w1: u64::MAX, w2: u64::MAX, w3: 0x00FF_FFFF_FFFF_FFFF };
    assert!(g.header.mine(1_000_000));
    assert!(g.header.hash().matches_target(g.header.target));
    let mut chain = Blockchain::new();
    let mut mutated = g.clone();
    mutated.header.nonce = mutated.header.nonce.wrapping_add(1);
    mutated.header.timestamp += 7;
    assert!(!mutated.header.hash().matches_target(mutated.header.target));
    assert_eq!(chain.check(&mutated), Err(BtcError::InvalidBlock));
    let mut rebound = g.clone();
    rebound.header.prev_block_hash = sha256::Hash::hash_bytes(&b"elsewhere".to_vec());
    assert_eq!(chain.check(&rebound), Err(BtcError::InvalidBlock));
    assert_eq!(chain.add_block(g.clone()), Ok(()));
    assert!(chain.blocks()[0].header.hash().matches_target(chain.blocks()[0].header.target));
}

#[test]
fn mining_wraps_nonce_into_timestamp() {
    let mut header = BlockHeader::new(5, u64::MAX, sha256::Hash::zero(), MerkleRoot(sha256::Hash::zero()), U256::zero());
    assert!(!header.mine(1));
    assert_eq!(header.nonce, 0);
    assert_eq!(header.timestamp, 6);
    assert!(!header.mine(1));
    assert_eq!(header.nonce, 1);
    assert_eq!(header.timestamp, 6);
}

#[test]
fn retarget_five_times_too_fast_halves_target() {
    let old = U256 { w0: 0, w1: 0, w2: 0, w3: 0x0000_FFFF_0000_0000 };
    let max = U256 { w0: u64::MAX, w1: u64::MAX, w2: u64::MAX, w3: 0x0000_FFFF_FFFF_FFFF };
    let new = retarget(old, 300, 10 * 60, max);
    assert_eq!(new, U256 { w0: 0, w1: 0, w2: 0, w3: 0x0000_7FFF_8000_0000 });
    assert!(new.le(&old));
}

#[test]
fn retarget_is_clamped_to_a_factor_of_four() {
    let old = U256 { w0: 0, w1: 0, w2: 0, w3: 0x0000_0000_FFFF_0000 };
    let max = U256 { w0: u64::MAX, w1: u64::MAX, w2: u64::MAX, w3: 0x0000_FFFF_FFFF_FFFF };
    assert_eq!(retarget(old, 10, 600, max), U256 { w0: 0, w1: 0, w2: 0, w3: 0x0000_0000_3FFF_C000 });
    assert_eq!(retarget(old, 60_000, 600, max), U256 { w0: 0, w1: 0, w2: 0, w3: 0x0000_0003_FFFC_0000 });
    assert_eq!(retarget(old, 600, 600, max), old);
}

#[test]
fn retarget_never_exceeds_the_easiest_target() {
    let max = U256 { w0: u64::MAX, w1: u64::MAX, w2: u64::MAX, w3: 0x0000_FFFF_FFFF_FFFF };
    assert_eq!(retarget(max, 1200, 600, max), max);
}

#[test]
fn wide_arithmetic() {
    let x = U256 { w0: u64::MAX, w1: 1, w2: 0, w3: u64::MAX };
    let (lo, carry) = x.mul_u64(2);
    assert_eq!(lo, U256 { w0: u64::MAX - 1, w1: 3, w2: 0, w3: u64::MAX - 1 });
    assert_eq!(carry, 1);
    assert_eq!(lo.div_wide(carry, 2), x);
}

#[test]
fn longest_peer_is_selected() {
    assert_eq!(select_longest_peer(&vec![3, 7]), Some(1));
    assert_eq!(select_longest_peer(&vec![7, 3, 7]), Some(0));
    assert_eq!(select_longest_peer(&vec![]), None);
}

fn peer_chain(n: usize) -> Blockchain {
    let mut chain = Blockchain::new();
    let keys: Vec<SigningKey> = (0..=n).map(|i| signing_key(20 + i as u8)).collect();
    let g = genesis(&keys[0], 1000);
    let mut prev_tx = g.transactions[0].hash();
    let mut prev_block = g.hash();
    chain.add_block(g).unwrap();
    for i in 1..n {
        let tx = Transaction::new(
            vec![spend(prev_tx, &keys[i - 1])],
            vec![output(1000 - 10 * i as u64, 100 + i as u128, &keys[i])],
        );
        prev_tx = tx.hash();
        let b = block_on(prev_block, 1_000 + 60 * i as i64, vec![tx]);
        prev_block = b.hash();
        chain.add_block(b).unwrap();
    }
    chain
}

#[test]
fn sync_adopts_longest_chain_and_rebuilds_utxos() {
    let short = peer_chain(3);
    let long = peer_chain(7);
    let lengths = vec![short.block_height(), long.block_height()];
    let pick = select_longest_peer(&lengths).unwrap();
    assert_eq!(pick, 1);
    let mut local = peer_chain(2);
    assert_eq!(local.adopt_chain(long.blocks().clone(), lengths[pick]), Ok(()));
    assert_eq!(local.block_height(), 7);
    assert_eq!(local.target(), long.target());
    let mut replayed = Blockchain::new();
    for b in long.blocks() {
        replayed.add_block(b.clone()).unwrap();
    }
    replayed.rebuild_utxos();
    assert_eq!(local.utxos().len(), 1);
    assert_eq!(replayed.utxos().len(), 1);
    let last_tx = long.blocks()[6].transactions[0].hash();
    assert_eq!(local.utxos().get(&last_tx).unwrap().value, 940);
    assert_eq!(replayed.utxos().get(&last_tx).unwrap().value, 940);
}

#[test]
fn sync_refuses_a_short_download() {
    let long = peer_chain(4);
    let mut local = Blockchain::new();
    assert_eq!(local.adopt_chain(long.blocks().clone(), 5), Err(BtcError::SyncFailure));
    assert_eq!(local.block_height(), 0);
}

#[test]
fn sync_refuses_an_invalid_chain_and_keeps_the_old_one() {
    let mut bad = peer_chain(3).blocks().clone();
    bad[2].header.timestamp = 0;
    let mut local = peer_chain(2);
    assert_eq!(local.adopt_chain(bad, 3), Err(BtcError::InvalidBlock));
    assert_eq!(local.block_height(), 2);
}

#[test]
fn rebuild_reproduces_live_set() {
    let mut chain = peer_chain(5);
    let before = chain.utxos().copy();
    chain.rebuild_utxos();
    assert_eq!(chain.utxos().len(), before.len());
    let last_tx = chain.blocks()[4].transactions[0].hash();
    assert_eq!(chain.utxos().get(&last_tx).unwrap().value, before.get(&last_tx).unwrap().value);
}

#[test]
fn target_unchanged_below_interval() {
    let chain = peer_chain(3);
    let fresh = Blockchain::new();
    assert_eq!(chain.target(), fresh.target());
}

#[test]
fn sync_sequence_with_peers() {
    let (p, a) = sync_step(SyncPhase::Idle, &SyncEvent::Start);
    assert_eq!((p, a), (SyncPhase::Discovering, SyncAction::ConnectToSeeds));
    let (p, a) = sync_step(p, &SyncEvent::PeersConnected(2));
    assert_eq!((p, a), (SyncPhase::Selecting, SyncAction::QueryLengths));
    let (p, a) = sync_step(p, &SyncEvent::LengthsReported(vec![3, 7]));
    assert_eq!((p, a), (SyncPhase::Downloading, SyncAction::Download { peer: 1, length: 7 }));
    let (p, a) = sync_step(p, &SyncEvent::ChainReceived);
    assert_eq!((p, a), (SyncPhase::Rebuilding, SyncAction::Adopt));
    let (p, a) = sync_step(p, &SyncEvent::Adopted(true));
    assert_eq!((p, a), (SyncPhase::Idle, SyncAction::Done));
}

#[test]
fn sync_without_peers_runs_as_seed() {
    assert_eq!(
        sync_step(SyncPhase::Discovering, &SyncEvent::PeersConnected(0)),
        (SyncPhase::Idle, SyncAction::RunAsSeed)
    );
    assert_eq!(
        sync_step(SyncPhase::Selecting, &SyncEvent::LengthsReported(vec![])),
        (SyncPhase::Idle, SyncAction::RunAsSeed)
    );
    assert_eq!(
        sync_step(SyncPhase::Rebuilding, &SyncEvent::Adopted(false)),
        (SyncPhase::Idle, SyncAction::Abandon)
    );
    assert_eq!(
        sync_step(SyncPhase::Downloading, &SyncEvent::Start),
        (SyncPhase::Downloading, SyncAction::Ignore)
    );
}

#[test]
fn check_does_not_change_the_chain() {
    let k1 = signing_key(11);
    let chain = Blockchain::new();
    let reward = chain.config().block_reward;
    assert_eq!(chain.check(&genesis(&k1, 1000)), Ok(()));
    assert_eq!(chain.check(&genesis(&k1, reward + 1)), Err(BtcError::InvalidTransaction));
    assert_eq!(chain.block_height(), 0);
    assert_eq!(chain.utxos().len(), 0);
}

#[test]
fn from_blocks_builds_the_same_chain() {
    let peer = peer_chain(4);
    let config = ChainConfig::default_config();
    let built = Blockchain::from_blocks(config, peer.blocks().clone()).unwrap();
    assert_eq!(built.block_height(), 4);
    assert_eq!(built.utxos().len(), 1);
    let mut broken = peer.blocks().clone();
    broken.remove(1);
    assert_eq!(
        Blockchain::from_blocks(config, broken).err(),
        Some(BtcError::InvalidBlock)
    );
}

#[test]
fn chain_retargets_after_a_fast_window() {
    let config = ChainConfig { retarget_interval: 10, block_seconds: 60, block_reward: 1_000 };
    let mut chain = Blockchain::with_config(config);
    let start = chain.target();
    let key = signing_key(30);
    let mut prev = sha256::Hash::zero();
    for i in 0..10u64 {
        let stamp = if i == 9 { 1_300 } else { 1_000 + 30 * i as i64 };
        let b = block_on(prev, stamp, vec![issuance(1_000, 500 + i as u128, &key)]);
        prev = b.hash();
        assert_eq!(chain.add_block(b), Ok(()));
        if i < 9 {
            assert_eq!(chain.target(), start);
        }
    }
    let expected = retarget(start, 300, 600, start);
    assert_eq!(chain.target(), expected);
    assert!(expected.le(&start) && expected != start);
    assert_eq!(expected, U256 { w0: u64::MAX, w1: u64::MAX, w2: u64::MAX, w3: 0x0000_7FFF_FFFF_FFFF });
}

#[test]
fn rebuild_on_an_empty_chain_is_empty() {
    let mut chain = Blockchain::new();
    chain.rebuild_utxos();
    assert_eq!(chain.utxos().len(), 0);
}
