use crate::difficulty::{
    retarget, retarget_value, BLOCK_REWARD, DIFFICULTY_UPDATE_INTERVAL, IDEAL_BLOCK_TIME,
};
use crate::error::BtcError;
use crate::sha256;
use crate::types::{
    header_hash, transaction_hash, Block, BlockHeader, Transaction, TransactionInput,
    TransactionOutput,
};
use crate::u256::U256;
use crate::util::{merkle_root_of, MerkleRoot};
use crate::utxo::UtxoSet;
use crate::validation::block_transactions_check;
use vstd::prelude::*;

verus! {

/// The easiest target a block may have.
pub open spec fn easiest_target() -> U256 {
    U256 { w0: 0xFFFF_FFFF_FFFF_FFFF, w1: 0xFFFF_FFFF_FFFF_FFFF, w2: 0xFFFF_FFFF_FFFF_FFFF, w3: 0x0000_FFFF_FFFF_FFFF }
}

pub fn easiest_target_exec() -> (r: U256)
    ensures
        r == easiest_target(),
{
    U256 { w0: 0xFFFF_FFFF_FFFF_FFFF, w1: 0xFFFF_FFFF_FFFF_FFFF, w2: 0xFFFF_FFFF_FFFF_FFFF, w3: 0x0000_FFFF_FFFF_FFFF }
}

/// The set after the inputs' outputs are taken out, in order.
#[verifier::opaque]
pub open spec fn remove_inputs(
    u: Map<sha256::Hash, TransactionOutput>,
    ins: Seq<TransactionInput>,
) -> Map<sha256::Hash, TransactionOutput>
    decreases ins.len(),
{
    if ins.len() == 0 {
        u
    } else {
        remove_inputs(u, ins.drop_last()).remove(ins.last().prev_transaction_output_hash)
    }
}

/// The set after the outputs are stored under `key`, in order.
#[verifier::opaque]
pub open spec fn insert_outputs(
    u: Map<sha256::Hash, TransactionOutput>,
    key: sha256::Hash,
    outs: Seq<TransactionOutput>,
) -> Map<sha256::Hash, TransactionOutput>
    decreases outs.len(),
{
    if outs.len() == 0 {
        u
    } else {
        insert_outputs(u, key, outs.drop_last()).insert(key, outs.last())
    }
}

/// A transaction consumes what its inputs name and stores its outputs under
/// its own digest, the key an input names to spend them; of several outputs
/// the last one stored is the one that stays.
pub open spec fn apply_transaction(
    u: Map<sha256::Hash, TransactionOutput>,
    tx: Transaction,
) -> Map<sha256::Hash, TransactionOutput> {
    insert_outputs(remove_inputs(u, tx.inputs@), transaction_hash(tx), tx.outputs@)
}

#[verifier::opaque]
pub open spec fn apply_transactions(
    u: Map<sha256::Hash, TransactionOutput>,
    txs: Seq<Transaction>,
) -> Map<sha256::Hash, TransactionOutput>
    decreases txs.len(),
{
    if txs.len() == 0 {
        u
    } else {
        apply_transaction(apply_transactions(u, txs.drop_last()), txs.last())
    }
}

/// The set obtained by applying every block's transactions to `initial`, in order.
#[verifier::opaque]
pub open spec fn replay(
    initial: Map<sha256::Hash, TransactionOutput>,
    blocks: Seq<Block>,
) -> Map<sha256::Hash, TransactionOutput>
    decreases blocks.len(),
{
    if blocks.len() == 0 {
        initial
    } else {
        apply_transactions(replay(initial, blocks.drop_last()), blocks.last().transactions@)
    }
}

pub open spec fn zero_hash() -> sha256::Hash {
    sha256::Hash(U256 { w0: 0, w1: 0, w2: 0, w3: 0 })
}

/// Whether `block` names the right predecessor: the zero digest on an empty
/// chain, else the digest of the last header.
pub open spec fn lineage_ok(blocks: Seq<Block>, block: Block) -> bool {
    if blocks.len() == 0 {
        block.header.prev_block_hash == zero_hash()
    } else {
        block.header.prev_block_hash == header_hash(blocks.last().header)
    }
}

/// Whether the header's digest, as a number, is at most its target.
pub open spec fn meets_target(h: BlockHeader) -> bool {
    header_hash(h).0.value() <= h.target.value()
}

/// The outcome of offering `block` to a chain of `blocks` whose unspent set
/// is `utxos`: the checks run in order and the first failure is reported.
#[verifier::opaque]
pub open spec fn check_block(
    reward: u64,
    blocks: Seq<Block>,
    utxos: Map<sha256::Hash, TransactionOutput>,
    block: Block,
) -> Result<(), BtcError> {
    if !lineage_ok(blocks, block) {
        Err(BtcError::InvalidBlock)
    } else if !meets_target(block.header) {
        Err(BtcError::InvalidBlock)
    } else if block.transactions@.len() == 0 {
        Err(BtcError::InvalidTransaction)
    } else if merkle_root_of(block.transactions@) != block.header.merkle_root {
        Err(BtcError::InvalidMerkleRoot)
    } else if blocks.len() > 0 && block.header.timestamp <= blocks.last().header.timestamp {
        Err(BtcError::InvalidBlock)
    } else {
        block_transactions_check(utxos, block.transactions@, reward)
    }
}

/// The settings a chain is run with.
#[derive(Clone, Copy, Debug, PartialEq, Eq, Structural)]
pub struct ChainConfig {
    /// Blocks between two retargets.
    pub retarget_interval: u64,
    /// The intended number of seconds between two blocks.
    pub block_seconds: u64,
    /// The most value a block's issuance transaction may create.
    pub block_reward: u64,
}

impl ChainConfig {
    pub open spec fn valid(self) -> bool {
        &&& self.retarget_interval > 0
        &&& self.block_seconds > 0
        &&& self.retarget_interval * self.block_seconds <= u64::MAX
    }

    /// A retarget every fifty blocks of ten seconds, and fifty coins of
    /// a hundred million units each per block.
    pub fn default_config() -> (r: ChainConfig)
        ensures
            r.valid(),
            r.retarget_interval == DIFFICULTY_UPDATE_INTERVAL,
            r.block_seconds == IDEAL_BLOCK_TIME,
            r.block_reward == BLOCK_REWARD,
    {
        ChainConfig {
            retarget_interval: DIFFICULTY_UPDATE_INTERVAL,
            block_seconds: IDEAL_BLOCK_TIME,
            block_reward: BLOCK_REWARD,
        }
    }
}

/// The target after a retarget check on a chain of `blocks` whose target was
/// `old`: recomputed when the chain length is a non-zero multiple of the
/// interval, from the timestamps of the first and last blocks of the last
/// window; otherwise unchanged.
#[verifier::opaque]
pub open spec fn adjusted_target(config: ChainConfig, blocks: Seq<Block>, old: nat) -> nat {
    let n = blocks.len();
    let r = config.retarget_interval;
    if n == 0 || r == 0 || n % (r as nat) != 0 {
        old
    } else {
        let first = blocks[n - r].header.timestamp;
        let last = blocks[n - 1].header.timestamp;
        let span: int = if last > first {
            last - first
        } else {
            0
        };
        retarget_value(
            old,
            span as nat,
            (config.retarget_interval * config.block_seconds) as nat,
            easiest_target().value(),
        )
    }
}

/// The target a chain of `blocks` has: the easiest target, adjusted after
/// each block in turn.
#[verifier::opaque]
pub open spec fn target_history(config: ChainConfig, blocks: Seq<Block>) -> nat
    decreases blocks.len(),
{
    if blocks.len() == 0 {
        easiest_target().value()
    } else {
        adjusted_target(config, blocks, target_history(config, blocks.drop_last()))
    }
}

/// Whether each block, offered in turn to an empty chain, was accepted.
#[verifier::opaque]
pub open spec fn chain_accepted(reward: u64, blocks: Seq<Block>) -> bool
    decreases blocks.len(),
{
    if blocks.len() == 0 {
        true
    } else {
        chain_accepted(reward, blocks.drop_last()) && check_block(
            reward,
            blocks.drop_last(),
            replay(Map::empty(), blocks.drop_last()),
            blocks.last(),
        ) is Ok
    }
}

/// Replaying one more block applies its transactions to the previous replay,
/// the longer chain was accepted exactly when the shorter one was and the new
/// block passed its checks against it, and its target is the shorter chain's
/// target adjusted once.
pub proof fn lemma_chain_extend(config: ChainConfig, blocks: Seq<Block>, block: Block)
    ensures
        replay(Map::empty(), blocks.push(block)) == apply_transactions(
            replay(Map::empty(), blocks),
            block.transactions@,
        ),
        chain_accepted(config.block_reward, blocks.push(block)) == (chain_accepted(
            config.block_reward,
            blocks,
        ) && check_block(config.block_reward, blocks, replay(Map::empty(), blocks), block) is Ok),
        target_history(config, blocks.push(block)) == adjusted_target(
            config,
            blocks.push(block),
            target_history(config, blocks),
        ),
{
    reveal(replay);
    reveal(chain_accepted);
    reveal(target_history);
    assert(blocks.push(block).drop_last() =~= blocks);
}

proof fn lemma_chain_empty(config: ChainConfig)
    ensures
        replay(Map::empty(), Seq::<Block>::empty()) == Map::<sha256::Hash, TransactionOutput>::empty(),
        chain_accepted(config.block_reward, Seq::<Block>::empty()),
        target_history(config, Seq::<Block>::empty()) == easiest_target().value(),
{
    reveal(replay);
    reveal(chain_accepted);
    reveal(target_history);
}

proof fn lemma_accepted_prefix(reward: u64, blocks: Seq<Block>, k: int)
    requires
        0 <= k <= blocks.len(),
        chain_accepted(reward, blocks),
    ensures
        chain_accepted(reward, blocks.subrange(0, k)),
    decreases blocks.len(),
{
    if k == blocks.len() {
        assert(blocks.subrange(0, k) =~= blocks);
    } else {
        reveal(chain_accepted);
        lemma_accepted_prefix(reward, blocks.drop_last(), k);
        assert(blocks.drop_last().subrange(0, k) =~= blocks.subrange(0, k));
    }
}

fn apply_transaction_exec(utxos: &mut UtxoSet, tx: &Transaction)
    requires
        old(utxos).wf(),
    ensures
        final(utxos).wf(),
        final(utxos)@ == apply_transaction(old(utxos)@, *tx),
{
    let ghost u0 = utxos@;
    let mut j: usize = 0;
    proof {
        reveal(remove_inputs);
        reveal(insert_outputs);
        assert(tx.inputs@.subrange(0, 0) =~= Seq::<TransactionInput>::empty());
    }
    while j < tx.inputs.len()
        invariant
            utxos.wf(),
            j <= tx.inputs@.len(),
            utxos@ == remove_inputs(u0, tx.inputs@.subrange(0, j as int)),
        decreases tx.inputs@.len() - j,
    {
        proof {
            reveal(remove_inputs);
            assert(tx.inputs@.subrange(0, j + 1).drop_last() =~= tx.inputs@.subrange(0, j as int));
        }
        utxos.remove(&tx.inputs[j].prev_transaction_output_hash);
        j = j + 1;
    }
    assert(tx.inputs@.subrange(0, j as int) =~= tx.inputs@);
    let ghost u1 = utxos@;
    let key = tx.hash();
    let mut k: usize = 0;
    assert(tx.outputs@.subrange(0, 0) =~= Seq::<TransactionOutput>::empty());
    while k < tx.outputs.len()
        invariant
            utxos.wf(),
            k <= tx.outputs@.len(),
            utxos@ == insert_outputs(u1, key, tx.outputs@.subrange(0, k as int)),
        decreases tx.outputs@.len() - k,
    {
        proof {
            reveal(insert_outputs);
            assert(tx.outputs@.subrange(0, k + 1).drop_last() =~= tx.outputs@.subrange(0, k as int));
        }
        utxos.insert(key, tx.outputs[k]);
        k = k + 1;
    }
    assert(tx.outputs@.subrange(0, k as int) =~= tx.outputs@);
}

fn apply_block(utxos: &mut UtxoSet, block: &Block)
    requires
        old(utxos).wf(),
    ensures
        final(utxos).wf(),
        final(utxos)@ == apply_transactions(old(utxos)@, block.transactions@),
{
    let ghost u0 = utxos@;
    let mut i: usize = 0;
    assert(block.transactions@.subrange(0, 0) =~= Seq::<Transaction>::empty());
    proof {
        reveal(apply_transactions);
    }
    while i < block.transactions.len()
        invariant
            utxos.wf(),
            i <= block.transactions@.len(),
            utxos@ == apply_transactions(u0, block.transactions@.subrange(0, i as int)),
        decreases block.transactions@.len() - i,
    {
        proof {
            reveal(apply_transactions);
            assert(block.transactions@.subrange(0, i + 1).drop_last()
                =~= block.transactions@.subrange(0, i as int));
        }
        apply_transaction_exec(utxos, &block.transactions[i]);
        i = i + 1;
    }
    assert(block.transactions@.subrange(0, i as int) =~= block.transactions@);
}

/// The accepted blocks, the unspent outputs at their tip, the current
/// proof-of-work target, and the settings the chain runs with.
pub struct Blockchain {
    blocks: Vec<Block>,
    utxos: UtxoSet,
    target: U256,
    config: ChainConfig,
}

impl Blockchain {
    /// Every block was accepted in turn, the unspent set is what replaying
    /// the blocks from an empty set gives, and the target is what retargeting
    /// after each block gives.
    pub closed spec fn wf(&self) -> bool {
        &&& self.utxos.wf()
        &&& self.config.valid()
        &&& self.utxos@ == replay(Map::empty(), self.blocks@)
        &&& chain_accepted(self.config.block_reward, self.blocks@)
        &&& self.target.value() == target_history(self.config, self.blocks@)
    }

    pub closed spec fn blocks_spec(&self) -> Seq<Block> {
        self.blocks@
    }

    pub closed spec fn utxos_spec(&self) -> Map<sha256::Hash, TransactionOutput> {
        self.utxos@
    }

    pub closed spec fn target_spec(&self) -> U256 {
        self.target
    }

    pub closed spec fn config_spec(&self) -> ChainConfig {
        self.config
    }

    /// An empty chain with the default settings.
    pub fn new() -> (r: Self)
        ensures
            r.wf(),
            r.blocks_spec().len() == 0,
            r.utxos_spec() == Map::<sha256::Hash, TransactionOutput>::empty(),
            r.target_spec() == easiest_target(),
            r.config_spec().retarget_interval == DIFFICULTY_UPDATE_INTERVAL,
            r.config_spec().block_seconds == IDEAL_BLOCK_TIME,
            r.config_spec().block_reward == BLOCK_REWARD,
    {
        Blockchain::with_config(ChainConfig::default_config())
    }

    /// An empty chain with the given settings.
    pub fn with_config(config: ChainConfig) -> (r: Self)
        requires
            config.valid(),
        ensures
            r.wf(),
            r.blocks_spec().len() == 0,
            r.utxos_spec() == Map::<sha256::Hash, TransactionOutput>::empty(),
            r.target_spec() == easiest_target(),
            r.config_spec() == config,
    {
        let r = Blockchain {
            blocks: Vec::new(),
            utxos: UtxoSet::new(),
            target: easiest_target_exec(),
            config,
        };
        proof {
            lemma_chain_empty(config);
            assert(r.blocks@ =~= Seq::<Block>::empty());
        }
        r
    }

    /// What well-formedness says of the spec views.
    pub proof fn lemma_wf_facts(&self)
        requires
            self.wf(),
        ensures
            self.utxos_spec() == replay(Map::empty(), self.blocks_spec()),
            chain_accepted(self.config_spec().block_reward, self.blocks_spec()),
            self.target_spec().value() == target_history(self.config_spec(), self.blocks_spec()),
            self.config_spec().valid(),
    {
    }

    pub fn blocks(&self) -> (r: &Vec<Block>)
        ensures
            r@ == self.blocks_spec(),
    {
        &self.blocks
    }

    pub fn utxos(&self) -> (r: &UtxoSet)
        requires
            self.wf(),
        ensures
            r@ == self.utxos_spec(),
            r.wf(),
    {
        &self.utxos
    }

    pub fn target(&self) -> (r: U256)
        ensures
            r == self.target_spec(),
    {
        self.target
    }

    pub fn config(&self) -> (r: ChainConfig)
        ensures
            r == self.config_spec(),
    {
        self.config
    }

    /// The number of accepted blocks.
    pub fn block_height(&self) -> (r: u64)
        ensures
            r == self.blocks_spec().len(),
    {
        self.blocks.len() as u64
    }

    /// Runs the acceptance checks on `block` without changing anything.
    pub fn check(&self, block: &Block) -> (r: Result<(), BtcError>)
        requires
            self.wf(),
        ensures
            r == check_block(self.config_spec().block_reward, self.blocks_spec(), self.utxos_spec(), *block),
    {
        proof {
            reveal(check_block);
        }
        let n = self.blocks.len();
        if n == 0 {
            if block.header.prev_block_hash != sha256::Hash::zero() {
                return Err(BtcError::InvalidBlock);
            }
        } else {
            if block.header.prev_block_hash != self.blocks[n - 1].hash() {
                return Err(BtcError::InvalidBlock);
            }
        }
        if !block.header.hash().matches_target(block.header.target) {
            return Err(BtcError::InvalidBlock);
        }
        if block.transactions.len() == 0 {
            return Err(BtcError::InvalidTransaction);
        }
        let calculated_merkle_root = MerkleRoot::calculate(block.transactions.as_slice());
        if calculated_merkle_root != block.header.merkle_root {
            return Err(BtcError::InvalidMerkleRoot);
        }
        if n > 0 && block.header.timestamp <= self.blocks[n - 1].header.timestamp {
            return Err(BtcError::InvalidBlock);
        }
        block.verify_transactions(&self.utxos, self.config.block_reward)
    }

    /// Offers a block. On success it is appended, its transactions are
    /// applied to the unspent set and the difficulty controller runs; on
    /// failure nothing changes and the first rule it broke is reported.
    pub fn add_block(&mut self, block: Block) -> (r: Result<(), BtcError>)
        requires
            old(self).wf(),
        ensures
            final(self).wf(),
            r == check_block(
                old(self).config_spec().block_reward,
                old(self).blocks_spec(),
                old(self).utxos_spec(),
                block,
            ),
            r is Ok ==> final(self).blocks_spec() == old(self).blocks_spec().push(block)
                && final(self).utxos_spec() == apply_transactions(
                old(self).utxos_spec(),
                block.transactions@,
            ) && final(self).target_spec().value() == adjusted_target(
                old(self).config_spec(),
                final(self).blocks_spec(),
                old(self).target_spec().value(),
            ),
            r is Err ==> final(self).blocks_spec() == old(self).blocks_spec()
                && final(self).utxos_spec() == old(self).utxos_spec()
                && final(self).target_spec() == old(self).target_spec(),
            final(self).config_spec() == old(self).config_spec(),
    {
        let checked = self.check(&block);
        if checked.is_err() {
            return checked;
        }
        let ghost old_blocks = self.blocks@;
        apply_block(&mut self.utxos, &block);
        proof {
            lemma_chain_extend(self.config, old_blocks, block);
        }
        self.blocks.push(block);
        assert(self.blocks@ == old_blocks.push(block));
        self.adjust_target();
        checked
    }

    /// The difficulty controller: recomputes the target when the chain has
    /// just completed a retarget window; otherwise leaves it as it is.
    fn adjust_target(&mut self)
        requires
            old(self).config.valid(),
        ensures
            final(self).target.value() == adjusted_target(
                old(self).config,
                old(self).blocks@,
                old(self).target.value(),
            ),
            final(self).blocks == old(self).blocks,
            final(self).utxos == old(self).utxos,
            final(self).config == old(self).config,
    {
        proof {
            reveal(adjusted_target);
        }
        let n = self.blocks.len() as u64;
        let interval = self.config.retarget_interval;
        if n == 0 || n % interval != 0 {
            return;
        }
        proof {
            if n < interval {
                vstd::arithmetic::div_mod::lemma_small_mod(n as nat, interval as nat);
            }
            let a = interval as int;
            let b = self.config.block_seconds as int;
            assert(a * b > 0) by (nonlinear_arith)
                requires a > 0, b > 0;
        }
        let first = self.blocks[(n - interval) as usize].header.timestamp;
        let last = self.blocks[(n - 1) as usize].header.timestamp;
        let span: u64 = if last > first {
            (last as i128 - first as i128) as u64
        } else {
            0
        };
        self.target = retarget(
            self.target,
            span,
            interval * self.config.block_seconds,
            easiest_target_exec(),
        );
    }

    /// Builds a chain with the given settings by offering each block in turn
    /// to an empty chain. Fails with the first refusal.
    pub fn from_blocks(config: ChainConfig, blocks: Vec<Block>) -> (r: Result<Blockchain, BtcError>)
        requires
            config.valid(),
        ensures
            r is Ok <==> chain_accepted(config.block_reward, blocks@),
            r matches Ok(c) ==> c.wf() && c.blocks_spec() == blocks@ && c.config_spec() == config
                && c.utxos_spec() == replay(Map::empty(), blocks@)
                && c.target_spec().value() == target_history(config, blocks@),
    {
        let ghost all = blocks@;
        let n = blocks.len();
        let mut fresh = Blockchain::with_config(config);
        let mut rest = blocks;
        let mut i: usize = 0;
        proof {
            assert(all.subrange(0, 0) =~= Seq::<Block>::empty());
            assert(fresh.blocks_spec() =~= all.subrange(0, 0));
            assert(all.subrange(0, all.len() as int) =~= all);
            assert(rest@ =~= all.subrange(0, all.len() as int));
        }
        while rest.len() > 0
            invariant
                fresh.wf(),
                all == blocks@,
                all.len() == n,
                fresh.config_spec() == config,
                i + rest@.len() == all.len(),
                rest@ == all.subrange(i as int, all.len() as int),
                fresh.blocks_spec() == all.subrange(0, i as int),
            decreases rest@.len(),
        {
            let block = rest.remove(0);
            proof {
                assert(block == all[i as int]);
                assert(all.subrange(0, i + 1) =~= all.subrange(0, i as int).push(block));
                assert(rest@ =~= all.subrange(i + 1, all.len() as int));
                lemma_chain_extend(config, all.subrange(0, i as int), block);
                fresh.lemma_wf_facts();
            }
            let added = fresh.add_block(block);
            if added.is_err() {
                proof {
                    assert(!chain_accepted(config.block_reward, all.subrange(0, i + 1)));
                    if chain_accepted(config.block_reward, all) {
                        lemma_accepted_prefix(config.block_reward, all, i + 1);
                    }
                }
                return Err(added.unwrap_err());
            }
            i = i + 1;
        }
        proof {
            fresh.lemma_wf_facts();
        }
        Ok(fresh)
    }

    /// Replaces the chain with one downloaded from a peer that advertised
    /// `advertised` blocks. Each block is run through acceptance on a fresh
    /// chain with the same settings, the unspent set is then rebuilt by
    /// replay from an empty set, and the target is the one the chain's
    /// history gives. A short or over-long download fails with `SyncFailure`;
    /// a block that is refused fails with its error. On any failure the chain
    /// is left as it was.
    pub fn adopt_chain(&mut self, blocks: Vec<Block>, advertised: u64) -> (r: Result<(), BtcError>)
        requires
            old(self).wf(),
        ensures
            final(self).wf(),
            blocks@.len() != advertised ==> r == Err::<(), BtcError>(BtcError::SyncFailure),
            r is Ok <==> (blocks@.len() == advertised && chain_accepted(
                old(self).config_spec().block_reward,
                blocks@,
            )),
            r is Ok ==> final(self).blocks_spec() == blocks@ && final(self).utxos_spec() == replay(
                Map::empty(),
                blocks@,
            ) && final(self).target_spec().value() == target_history(
                old(self).config_spec(),
                blocks@,
            ),
            r is Err ==> final(self).blocks_spec() == old(self).blocks_spec()
                && final(self).utxos_spec() == old(self).utxos_spec()
                && final(self).target_spec() == old(self).target_spec(),
            final(self).config_spec() == old(self).config_spec(),
    {
        if blocks.len() as u64 != advertised {
            return Err(BtcError::SyncFailure);
        }
        let mut fresh = match Blockchain::from_blocks(self.config, blocks) {
            Ok(c) => c,
            Err(e) => {
                return Err(e);
            },
        };
        fresh.rebuild_utxos();
        proof {
            fresh.lemma_wf_facts();
        }
        *self = fresh;
        Ok(())
    }

    /// Discards the unspent set and rebuilds it by replaying every block's
    /// transactions from an empty set.
    pub fn rebuild_utxos(&mut self)
        requires
            old(self).wf(),
        ensures
            final(self).wf(),
            final(self).utxos_spec() == replay(Map::empty(), old(self).blocks_spec()),
            final(self).blocks_spec() == old(self).blocks_spec(),
            final(self).target_spec() == old(self).target_spec(),
            final(self).config_spec() == old(self).config_spec(),
    {
        let mut utxos = UtxoSet::new();
        let mut i: usize = 0;
        proof {
            lemma_chain_empty(self.config);
            assert(self.blocks@.subrange(0, 0) =~= Seq::<Block>::empty());
        }
        while i < self.blocks.len()
            invariant
                utxos.wf(),
                i <= self.blocks@.len(),
                utxos@ == replay(Map::empty(), self.blocks@.subrange(0, i as int)),
            decreases self.blocks@.len() - i,
        {
            proof {
                assert(self.blocks@.subrange(0, i + 1) =~= self.blocks@.subrange(0, i as int).push(self.blocks@[i as int]));
                lemma_chain_extend(self.config, self.blocks@.subrange(0, i as int), self.blocks@[i as int]);
            }
            apply_block(&mut utxos, &self.blocks[i]);
            i = i + 1;
        }
        assert(self.blocks@.subrange(0, i as int) =~= self.blocks@);
        self.utxos = utxos;
    }
}

} // verus!

verus! {

proof fn lemma_accepted_meet_target(reward: u64, blocks: Seq<Block>)
    requires
        chain_accepted(reward, blocks),
    ensures
        forall|i: int| 0 <= i < blocks.len() ==> meets_target(#[trigger] blocks[i].header),
    decreases blocks.len(),
{
    reveal(chain_accepted);
    reveal(check_block);
    if blocks.len() > 0 {
        lemma_accepted_meet_target(reward, blocks.drop_last());
        assert forall|i: int| 0 <= i < blocks.len() implies meets_target(#[trigger] blocks[i].header) by {
            if i < blocks.len() - 1 {
                assert(blocks.drop_last()[i] == blocks[i]);
            }
        }
    }
}

/// Every block of a chain built by `add_block` has a header digest that, as a
/// number, is at most the header's target.
pub proof fn lemma_blocks_meet_target(chain: &Blockchain)
    requires
        chain.wf(),
    ensures
        forall|i: int|
            0 <= i < chain.blocks_spec().len() ==> meets_target(
                #[trigger] chain.blocks_spec()[i].header,
            ),
{
    lemma_accepted_meet_target(chain.config_spec().block_reward, chain.blocks_spec());
}

/// The live unspent set of a chain is exactly what replaying its blocks from
/// an empty set gives.
pub proof fn lemma_replay_reproduces_live_set(chain: &Blockchain)
    requires
        chain.wf(),
    ensures
        replay(Map::empty(), chain.blocks_spec()) == chain.utxos_spec(),
{
}

/// Two chains with the same blocks hold the same unspent set, however each
/// was obtained: a chain adopted from a peer agrees with one built
/// independently from that peer's blocks.
pub proof fn lemma_same_blocks_same_utxos(a: &Blockchain, b: &Blockchain)
    requires
        a.wf(),
        b.wf(),
        a.blocks_spec() == b.blocks_spec(),
    ensures
        a.utxos_spec() == b.utxos_spec(),
{
}

/// When a block completes a retarget window whose blocks came faster than the
/// settings ask for, the chain's target after it is no easier than before and
/// no harder than a quarter of it.
pub proof fn lemma_fast_window_retarget(config: ChainConfig, blocks: Seq<Block>, old: nat)
    requires
        config.valid(),
        blocks.len() > 0,
        blocks.len() % (config.retarget_interval as nat) == 0,
        old <= easiest_target().value(),
        blocks[blocks.len() - 1].header.timestamp - blocks[blocks.len()
            - config.retarget_interval].header.timestamp < config.retarget_interval
            * config.block_seconds,
    ensures
        adjusted_target(config, blocks, old) <= old,
        adjusted_target(config, blocks, old) >= old / 4,
{
    reveal(adjusted_target);
    let a = config.retarget_interval as int;
    let b = config.block_seconds as int;
    assert(a * b > 0) by (nonlinear_arith)
        requires a > 0, b > 0;
    let first = blocks[blocks.len() - config.retarget_interval].header.timestamp;
    let last = blocks[blocks.len() - 1].header.timestamp;
    let span: int = if last > first { last - first } else { 0 };
    crate::difficulty::lemma_fast_window_lowers_target(
        old,
        span as nat,
        (config.retarget_interval * config.block_seconds) as nat,
        easiest_target().value(),
    );
}

/// A block that names the zero digest as its predecessor is refused by any
/// non-empty chain (whose last header does not itself hash to zero).
pub proof fn lemma_genesis_only_on_empty_chain(
    reward: u64,
    blocks: Seq<Block>,
    utxos: Map<sha256::Hash, TransactionOutput>,
    block: Block,
)
    requires
        block.header.prev_block_hash == zero_hash(),
        blocks.len() > 0,
        header_hash(blocks.last().header) != zero_hash(),
    ensures
        check_block(reward, blocks, utxos, block) == Err::<(), BtcError>(BtcError::InvalidBlock),
{
    reveal(check_block);
}

} // verus!
