use crate::crypto::signs;
use crate::error::BtcError;
use crate::sha256;
use crate::types::{Block, Transaction, TransactionInput, TransactionOutput};
use crate::utxo::UtxoSet;
use vstd::prelude::*;

verus! {

/// The digests spent by a list of inputs, in order.
pub open spec fn prevs(ins: Seq<TransactionInput>) -> Seq<sha256::Hash> {
    Seq::new(ins.len(), |i: int| ins[i].prev_transaction_output_hash)
}

/// The checks on one input, against the set as of the start of the block and
/// the digests already spent earlier in the block.
#[verifier::opaque]
pub open spec fn input_check(
    utxos: Map<sha256::Hash, TransactionOutput>,
    spent: Seq<sha256::Hash>,
    input: TransactionInput,
) -> Result<(), BtcError> {
    let h = input.prev_transaction_output_hash;
    if !utxos.contains_key(h) {
        Err(BtcError::InvalidTransaction)
    } else if spent.contains(h) {
        Err(BtcError::InvalidTransaction)
    } else if !signs(input.signature, h, utxos[h].pubkey) {
        Err(BtcError::InvalidSignature)
    } else {
        Ok(())
    }
}

/// The inputs are checked in order; the first failure is reported.
#[verifier::opaque]
pub open spec fn inputs_check(
    utxos: Map<sha256::Hash, TransactionOutput>,
    ins: Seq<TransactionInput>,
    spent: Seq<sha256::Hash>,
) -> Result<(), BtcError>
    decreases ins.len(),
{
    if ins.len() == 0 {
        Ok(())
    } else {
        match input_check(utxos, spent, ins[0]) {
            Err(e) => Err(e),
            Ok(_) => inputs_check(
                utxos,
                ins.drop_first(),
                spent.push(ins[0].prev_transaction_output_hash),
            ),
        }
    }
}

/// The total value of the outputs that the inputs spend.
#[verifier::opaque]
pub open spec fn input_value(
    utxos: Map<sha256::Hash, TransactionOutput>,
    ins: Seq<TransactionInput>,
) -> int
    decreases ins.len(),
{
    if ins.len() == 0 {
        0
    } else {
        input_value(utxos, ins.drop_last()) + utxos[ins.last().prev_transaction_output_hash].value
    }
}

/// The total value of a list of outputs.
#[verifier::opaque]
pub open spec fn output_value(outs: Seq<TransactionOutput>) -> int
    decreases outs.len(),
{
    if outs.len() == 0 {
        0
    } else {
        output_value(outs.drop_last()) + outs.last().value
    }
}

/// The checks on one transaction: its inputs, then that it creates no value.
#[verifier::opaque]
pub open spec fn transaction_check(
    utxos: Map<sha256::Hash, TransactionOutput>,
    tx: Transaction,
    spent: Seq<sha256::Hash>,
) -> Result<(), BtcError> {
    match inputs_check(utxos, tx.inputs@, spent) {
        Err(e) => Err(e),
        Ok(_) => if input_value(utxos, tx.inputs@) < output_value(tx.outputs@) {
            Err(BtcError::InvalidTransaction)
        } else {
            Ok(())
        },
    }
}

/// The transactions of a block are checked in order against one set, with
/// the outputs spent so far carried along.
#[verifier::opaque]
pub open spec fn transactions_check(
    utxos: Map<sha256::Hash, TransactionOutput>,
    txs: Seq<Transaction>,
    spent: Seq<sha256::Hash>,
) -> Result<(), BtcError>
    decreases txs.len(),
{
    if txs.len() == 0 {
        Ok(())
    } else {
        match transaction_check(utxos, txs[0], spent) {
            Err(e) => Err(e),
            Ok(_) => transactions_check(utxos, txs.drop_first(), spent + prevs(txs[0].inputs@)),
        }
    }
}

/// Whether a block's first transaction issues new value: it spends nothing.
pub open spec fn is_issuance(txs: Seq<Transaction>) -> bool {
    txs.len() > 0 && txs[0].inputs@.len() == 0
}

/// What checking a block's transactions gives. An empty block is refused.
/// A first transaction without inputs issues new value, at most `reward`;
/// every other transaction is checked against `utxos`.
pub open spec fn block_transactions_check(
    utxos: Map<sha256::Hash, TransactionOutput>,
    txs: Seq<Transaction>,
    reward: u64,
) -> Result<(), BtcError> {
    if txs.len() == 0 {
        Err(BtcError::InvalidTransaction)
    } else if is_issuance(txs) {
        if output_value(txs[0].outputs@) > reward {
            Err(BtcError::InvalidTransaction)
        } else {
            transactions_check(utxos, txs.subrange(1, txs.len() as int), Seq::empty())
        }
    } else {
        transactions_check(utxos, txs, Seq::empty())
    }
}

fn spent_contains(spent: &Vec<sha256::Hash>, h: &sha256::Hash) -> (r: bool)
    ensures
        r == spent@.contains(*h),
{
    let mut i: usize = 0;
    while i < spent.len()
        invariant
            i <= spent@.len(),
            forall|j: int| 0 <= j < i ==> spent@[j] != *h,
        decreases spent@.len() - i,
    {
        if spent[i] == *h {
            assert(spent@[i as int] == *h);
            return true;
        }
        i = i + 1;
    }
    false
}

proof fn lemma_input_value_bound(
    utxos: Map<sha256::Hash, TransactionOutput>,
    ins: Seq<TransactionInput>,
)
    ensures
        0 <= input_value(utxos, ins) <= ins.len() * 0xFFFF_FFFF_FFFF_FFFF,
    decreases ins.len(),
{
    reveal(input_value);
    if ins.len() > 0 {
        lemma_input_value_bound(utxos, ins.drop_last());
        assert((ins.len() - 1) * 0xFFFF_FFFF_FFFF_FFFF + 0xFFFF_FFFF_FFFF_FFFF == ins.len()
            * 0xFFFF_FFFF_FFFF_FFFF) by (nonlinear_arith);
    }
}

proof fn lemma_output_value_bound(outs: Seq<TransactionOutput>)
    ensures
        0 <= output_value(outs) <= outs.len() * 0xFFFF_FFFF_FFFF_FFFF,
    decreases outs.len(),
{
    reveal(output_value);
    if outs.len() > 0 {
        lemma_output_value_bound(outs.drop_last());
        assert((outs.len() - 1) * 0xFFFF_FFFF_FFFF_FFFF + 0xFFFF_FFFF_FFFF_FFFF == outs.len()
            * 0xFFFF_FFFF_FFFF_FFFF) by (nonlinear_arith);
    }
}

fn check_input(utxos: &UtxoSet, spent: &Vec<sha256::Hash>, input: &TransactionInput) -> (r: Result<
    u64,
    BtcError,
>)
    requires
        utxos.wf(),
    ensures
        match r {
            Ok(v) => input_check(utxos@, spent@, *input) == Ok::<(), BtcError>(())
                && utxos@.contains_key(input.prev_transaction_output_hash)
                && v == utxos@[input.prev_transaction_output_hash].value,
            Err(e) => input_check(utxos@, spent@, *input) == Err::<(), BtcError>(e),
        },
{
    proof {
        reveal(input_check);
    }
    let h = input.prev_transaction_output_hash;
    let prev_output = match utxos.get(&h) {
        Some(o) => o,
        None => {
            return Err(BtcError::InvalidTransaction);
        },
    };
    if spent_contains(spent, &h) {
        return Err(BtcError::InvalidTransaction);
    }
    if !input.signature.verify(&h, &prev_output.pubkey) {
        return Err(BtcError::InvalidSignature);
    }
    Ok(prev_output.value)
}

proof fn lemma_inputs_check_step(
    u: Map<sha256::Hash, TransactionOutput>,
    ins: Seq<TransactionInput>,
    j: int,
    spent: Seq<sha256::Hash>,
)
    requires
        0 <= j < ins.len(),
    ensures
        inputs_check(u, ins.subrange(j, ins.len() as int), spent) == (match input_check(
            u,
            spent,
            ins[j],
        ) {
            Err(e) => Err(e),
            Ok(_) => inputs_check(
                u,
                ins.subrange(j + 1, ins.len() as int),
                spent.push(ins[j].prev_transaction_output_hash),
            ),
        }),
{
    reveal(inputs_check);
    let rest = ins.subrange(j, ins.len() as int);
    assert(rest[0] == ins[j]);
    assert(rest.drop_first() =~= ins.subrange(j + 1, ins.len() as int));
}

/// One more summand, and the running total still fits.
proof fn lemma_sum_step(total: int, k: int, v: int)
    requires
        0 <= total <= k * 0xFFFF_FFFF_FFFF_FFFF,
        0 <= k < 0xFFFF_FFFF_FFFF_FFFF,
        0 <= v <= 0xFFFF_FFFF_FFFF_FFFF,
    ensures
        total + v <= (k + 1) * 0xFFFF_FFFF_FFFF_FFFF,
        (k + 1) * 0xFFFF_FFFF_FFFF_FFFF < 0x1_0000_0000_0000_0000_0000_0000_0000_0000,
{
    assert(total + v <= (k + 1) * 0xFFFF_FFFF_FFFF_FFFF) by (nonlinear_arith)
        requires
            total <= k * 0xFFFF_FFFF_FFFF_FFFF,
            v <= 0xFFFF_FFFF_FFFF_FFFF,
    ;
    assert((k + 1) * 0xFFFF_FFFF_FFFF_FFFF < 0x1_0000_0000_0000_0000_0000_0000_0000_0000) by (nonlinear_arith)
        requires k < 0xFFFF_FFFF_FFFF_FFFF;
}

fn total_output_value(outs: &Vec<TransactionOutput>) -> (r: u128)
    ensures
        r == output_value(outs@),
{
    let mut output_total: u128 = 0;
    let mut k: usize = 0;
    proof {
        reveal(output_value);
        assert(outs@.subrange(0, 0) =~= Seq::<TransactionOutput>::empty());
    }
    while k < outs.len()
        invariant
            k <= outs@.len(),
            output_total == output_value(outs@.subrange(0, k as int)),
        decreases outs@.len() - k,
    {
        proof {
            lemma_output_value_bound(outs@.subrange(0, k as int));
            lemma_sum_step(output_total as int, k as int, outs@[k as int].value as int);
            reveal(output_value);
            assert(outs@.subrange(0, k + 1).drop_last() =~= outs@.subrange(0, k as int));
        }
        output_total = output_total + outs[k].value as u128;
        k = k + 1;
    }
    assert(outs@.subrange(0, k as int) =~= outs@);
    proof {
        reveal(output_value);
    }
    output_total
}

proof fn lemma_input_loop_step(
    u: Map<sha256::Hash, TransactionOutput>,
    ins: Seq<TransactionInput>,
    j: int,
    spent0: Seq<sha256::Hash>,
    spent: Seq<sha256::Hash>,
    total: int,
)
    requires
        0 <= j < ins.len(),
        j < 0xFFFF_FFFF_FFFF_FFFF,
        spent == spent0 + prevs(ins.subrange(0, j)),
        total == input_value(u, ins.subrange(0, j)),
        u.contains_key(ins[j].prev_transaction_output_hash),
    ensures
        spent.push(ins[j].prev_transaction_output_hash) == spent0 + prevs(ins.subrange(0, j + 1)),
        total + u[ins[j].prev_transaction_output_hash].value == input_value(u, ins.subrange(0, j + 1)),
        total + u[ins[j].prev_transaction_output_hash].value < 0x1_0000_0000_0000_0000_0000_0000_0000_0000,
{
    let v = u[ins[j].prev_transaction_output_hash].value;
    lemma_input_value_bound(u, ins.subrange(0, j));
    lemma_sum_step(total, j, v as int);
    reveal(input_value);
    assert(ins.subrange(0, j + 1).drop_last() =~= ins.subrange(0, j));
    assert(prevs(ins.subrange(0, j + 1)) =~= prevs(ins.subrange(0, j)).push(
        ins[j].prev_transaction_output_hash,
    ));
    assert(spent.push(ins[j].prev_transaction_output_hash) =~= spent0 + prevs(ins.subrange(0, j + 1)));
}

proof fn lemma_inputs_start(
    u: Map<sha256::Hash, TransactionOutput>,
    ins: Seq<TransactionInput>,
    spent0: Seq<sha256::Hash>,
)
    ensures
        0 == input_value(u, ins.subrange(0, 0)),
        spent0 == spent0 + prevs(ins.subrange(0, 0)),
        ins.subrange(0, ins.len() as int) == ins,
{
    reveal(input_value);
    assert(ins.subrange(0, 0) =~= Seq::<TransactionInput>::empty());
    assert(ins.subrange(0, ins.len() as int) =~= ins);
    assert(spent0 + prevs(ins.subrange(0, 0)) =~= spent0);
}

proof fn lemma_input_failure(
    u: Map<sha256::Hash, TransactionOutput>,
    tx: Transaction,
    j: int,
    spent0: Seq<sha256::Hash>,
    spent: Seq<sha256::Hash>,
    e: BtcError,
)
    requires
        0 <= j < tx.inputs@.len(),
        inputs_check(u, tx.inputs@, spent0) == inputs_check(
            u,
            tx.inputs@.subrange(j, tx.inputs@.len() as int),
            spent,
        ),
        input_check(u, spent, tx.inputs@[j]) == Err::<(), BtcError>(e),
    ensures
        transaction_check(u, tx, spent0) == Err::<(), BtcError>(e),
{
    lemma_inputs_check_step(u, tx.inputs@, j, spent);
    reveal(transaction_check);
}

proof fn lemma_inputs_passed(
    u: Map<sha256::Hash, TransactionOutput>,
    tx: Transaction,
    spent0: Seq<sha256::Hash>,
    spent: Seq<sha256::Hash>,
    total_in: int,
    total_out: int,
)
    requires
        inputs_check(u, tx.inputs@, spent0) == inputs_check(
            u,
            tx.inputs@.subrange(tx.inputs@.len() as int, tx.inputs@.len() as int),
            spent,
        ),
        total_in == input_value(u, tx.inputs@.subrange(0, tx.inputs@.len() as int)),
        total_out == output_value(tx.outputs@),
    ensures
        transaction_check(u, tx, spent0) == (if total_in < total_out {
            Err::<(), BtcError>(BtcError::InvalidTransaction)
        } else {
            Ok(())
        }),
{
    reveal(transaction_check);
    reveal(inputs_check);
    assert(tx.inputs@.subrange(tx.inputs@.len() as int, tx.inputs@.len() as int) =~= Seq::<TransactionInput>::empty());
    assert(tx.inputs@.subrange(0, tx.inputs@.len() as int) =~= tx.inputs@);
}

/// Checks one transaction and records the digests it spends in `spent`.
fn check_transaction(utxos: &UtxoSet, tx: &Transaction, spent_before: Vec<sha256::Hash>) -> (r: (
    Result<(), BtcError>,
    Vec<sha256::Hash>,
))
    requires
        utxos.wf(),
    ensures
        r.0 == transaction_check(utxos@, *tx, spent_before@),
        r.0.is_ok() ==> r.1@ == spent_before@ + prevs(tx.inputs@),
{
    let ghost u = utxos@;
    let ghost ins = tx.inputs@;
    let ghost spent0 = spent_before@;
    let mut spent = spent_before;
    let mut input_total: u128 = 0;
    let mut j: usize = 0;
    proof {
        lemma_inputs_start(u, ins, spent0);
    }
    while j < tx.inputs.len()
        invariant
            u == utxos@,
            utxos.wf(),
            ins == tx.inputs@,
            spent0 == spent_before@,
            j <= ins.len(),
            spent@ == spent0 + prevs(ins.subrange(0, j as int)),
            inputs_check(u, ins, spent0) == inputs_check(u, ins.subrange(j as int, ins.len() as int), spent@),
            input_total == input_value(u, ins.subrange(0, j as int)),
        decreases ins.len() - j,
    {
        let input = &tx.inputs[j];
        let value = match check_input(utxos, &spent, input) {
            Ok(v) => v,
            Err(e) => {
                proof {
                    lemma_input_failure(u, *tx, j as int, spent0, spent@, e);
                }
                return (Err(e), spent);
            },
        };
        proof {
            lemma_inputs_check_step(u, ins, j as int, spent@);
            lemma_input_loop_step(u, ins, j as int, spent0, spent@, input_total as int);
        }
        input_total = input_total + value as u128;
        spent.push(input.prev_transaction_output_hash);
        j = j + 1;
    }
    let output_total = total_output_value(&tx.outputs);
    proof {
        lemma_inputs_passed(u, *tx, spent0, spent@, input_total as int, output_total as int);
    }
    if input_total < output_total {
        return (Err(BtcError::InvalidTransaction), spent);
    }
    (Ok(()), spent)
}

impl Block {
    /// Checks every transaction against `utxos`, the set as of the start of
    /// the block; an output may be spent once in the whole block.
    pub fn verify_transactions(&self, utxos: &UtxoSet, reward: u64) -> (r: Result<(), BtcError>)
        requires
            utxos.wf(),
        ensures
            r == block_transactions_check(utxos@, self.transactions@, reward),
    {
        if self.transactions.len() == 0 {
            return Err(BtcError::InvalidTransaction);
        }
        let ghost txs = self.transactions@;
        let mut start: usize = 0;
        if self.transactions[0].inputs.len() == 0 {
            if total_output_value(&self.transactions[0].outputs) > reward as u128 {
                return Err(BtcError::InvalidTransaction);
            }
            start = 1;
        }
        let mut spent: Vec<sha256::Hash> = Vec::new();
        let mut i: usize = start;
        assert(txs.subrange(0, txs.len() as int) =~= txs);
        while i < self.transactions.len()
            invariant
                utxos.wf(),
                txs == self.transactions@,
                start <= i <= txs.len(),
                block_transactions_check(utxos@, txs, reward) == transactions_check(
                    utxos@,
                    txs.subrange(i as int, txs.len() as int),
                    spent@,
                ),
            decreases txs.len() - i,
        {
            proof {
                reveal(transactions_check);
                let rest = txs.subrange(i as int, txs.len() as int);
                assert(rest[0] == txs[i as int]);
                assert(rest.drop_first() =~= txs.subrange(i + 1, txs.len() as int));
            }
            let (r, next) = check_transaction(utxos, &self.transactions[i], spent);
            match r {
                Err(e) => {
                    return Err(e);
                },
                Ok(_) => {},
            }
            spent = next;
            i = i + 1;
        }
        assert(txs.subrange(i as int, txs.len() as int) =~= Seq::<Transaction>::empty());
        proof {
            reveal(transactions_check);
        }
        Ok(())
    }
}


/// A transaction whose first input names an output already spent earlier in
/// the block is refused as invalid, even though that output is in the set.
pub proof fn lemma_double_spend_refused(
    utxos: Map<sha256::Hash, TransactionOutput>,
    first: Transaction,
    second: Transaction,
    reward: u64,
)
    requires
        transaction_check(utxos, first, Seq::empty()) is Ok,
        second.inputs@.len() > 0,
        prevs(first.inputs@).contains(second.inputs@[0].prev_transaction_output_hash),
        utxos.contains_key(second.inputs@[0].prev_transaction_output_hash),
    ensures
        block_transactions_check(utxos, seq![first, second], reward) == Err::<(), BtcError>(
            BtcError::InvalidTransaction,
        ),
{
    let txs = seq![first, second];
    assert(first.inputs@.len() > 0);
    let spent = Seq::<sha256::Hash>::empty() + prevs(first.inputs@);
    assert(spent =~= prevs(first.inputs@));
    let h = second.inputs@[0].prev_transaction_output_hash;
    assert(input_check(utxos, spent, second.inputs@[0]) == Err::<(), BtcError>(
        BtcError::InvalidTransaction,
    )) by {
        reveal(input_check);
    }
    assert(inputs_check(utxos, second.inputs@, spent) == Err::<(), BtcError>(
        BtcError::InvalidTransaction,
    )) by {
        reveal(inputs_check);
    }
    assert(transaction_check(utxos, second, spent) == Err::<(), BtcError>(
        BtcError::InvalidTransaction,
    )) by {
        reveal(transaction_check);
    }
    assert(txs[0] == first);
    assert(txs.drop_first() =~= seq![second]);
    assert(seq![second][0] == second);
    assert(transactions_check(utxos, seq![second], spent) == Err::<(), BtcError>(
        BtcError::InvalidTransaction,
    )) by {
        reveal(transactions_check);
    }
    assert(transactions_check(utxos, txs, Seq::empty()) == Err::<(), BtcError>(
        BtcError::InvalidTransaction,
    )) by {
        reveal(transactions_check);
    }
}

/// An input that names an output spent earlier in the block, or earlier in
/// its own transaction, is refused as invalid once the inputs before it have
/// passed, even though that output is in the set.
pub proof fn lemma_respent_input_refused(
    utxos: Map<sha256::Hash, TransactionOutput>,
    ins: Seq<TransactionInput>,
    spent: Seq<sha256::Hash>,
    j: int,
)
    requires
        0 <= j < ins.len(),
        utxos.contains_key(ins[j].prev_transaction_output_hash),
        (spent + prevs(ins.subrange(0, j))).contains(ins[j].prev_transaction_output_hash),
        forall|k: int|
            0 <= k < j ==> input_check(utxos, spent + prevs(ins.subrange(0, k)), #[trigger] ins[k])
                is Ok,
    ensures
        inputs_check(utxos, ins, spent) == Err::<(), BtcError>(BtcError::InvalidTransaction),
    decreases j,
{
    reveal(inputs_check);
    assert(prevs(ins.subrange(0, 0)) =~= Seq::<sha256::Hash>::empty());
    assert(spent + prevs(ins.subrange(0, 0)) =~= spent);
    if j == 0 {
        reveal(input_check);
    } else {
        assert(input_check(utxos, spent + prevs(ins.subrange(0, 0)), ins[0]) is Ok);
        let rest = ins.drop_first();
        let spent2 = spent.push(ins[0].prev_transaction_output_hash);
        assert forall|k: int| 0 <= k <= j - 1 implies spent2 + prevs(rest.subrange(0, k)) == spent
            + prevs(ins.subrange(0, k + 1)) by {
            assert(spent2 + prevs(rest.subrange(0, k)) =~= spent + prevs(ins.subrange(0, k + 1)));
        }
        assert forall|k: int| 0 <= k < j - 1 implies input_check(
            utxos,
            spent2 + prevs(rest.subrange(0, k)),
            #[trigger] rest[k],
        ) is Ok by {
            assert(rest[k] == ins[k + 1]);
        }
        assert(rest[j - 1] == ins[j]);
        lemma_respent_input_refused(utxos, rest, spent2, j - 1);
    }
}

/// A transaction with such an input is refused as invalid, wherever it
/// stands in its block.
pub proof fn lemma_respent_transaction_refused(
    utxos: Map<sha256::Hash, TransactionOutput>,
    tx: Transaction,
    spent: Seq<sha256::Hash>,
    j: int,
)
    requires
        0 <= j < tx.inputs@.len(),
        utxos.contains_key(tx.inputs@[j].prev_transaction_output_hash),
        (spent + prevs(tx.inputs@.subrange(0, j))).contains(tx.inputs@[j].prev_transaction_output_hash),
        forall|k: int|
            0 <= k < j ==> input_check(utxos, spent + prevs(tx.inputs@.subrange(0, k)), #[trigger] tx.inputs@[k])
                is Ok,
    ensures
        transaction_check(utxos, tx, spent) == Err::<(), BtcError>(BtcError::InvalidTransaction),
{
    lemma_respent_input_refused(utxos, tx.inputs@, spent, j);
    reveal(transaction_check);
}

/// The digests spent by the first `i` transactions, in order.
pub open spec fn spent_through(txs: Seq<Transaction>, i: int) -> Seq<sha256::Hash>
    decreases i,
{
    if i <= 0 {
        Seq::empty()
    } else {
        spent_through(txs, i - 1) + prevs(txs[i - 1].inputs@)
    }
}

proof fn lemma_spent_through_shift(txs: Seq<Transaction>, spent: Seq<sha256::Hash>, k: int)
    requires
        txs.len() > 0,
        0 <= k < txs.len(),
    ensures
        (spent + prevs(txs[0].inputs@)) + spent_through(txs.drop_first(), k) == spent
            + spent_through(txs, k + 1),
    decreases k,
{
    if k == 0 {
        assert(spent_through(txs, 0) =~= Seq::<sha256::Hash>::empty());
        assert(spent_through(txs.drop_first(), 0) =~= Seq::<sha256::Hash>::empty());
        assert(spent_through(txs, 1) =~= Seq::<sha256::Hash>::empty() + prevs(txs[0].inputs@));
        assert((spent + prevs(txs[0].inputs@)) + Seq::<sha256::Hash>::empty() =~= spent + (
        Seq::<sha256::Hash>::empty() + prevs(txs[0].inputs@)));
    } else {
        lemma_spent_through_shift(txs, spent, k - 1);
        let rest = txs.drop_first();
        let a = spent + prevs(txs[0].inputs@);
        assert(rest[k - 1] == txs[k]);
        assert(spent_through(rest, k) == spent_through(rest, k - 1) + prevs(txs[k].inputs@));
        assert(spent_through(txs, k + 1) == spent_through(txs, k) + prevs(txs[k].inputs@));
        assert(a + (spent_through(rest, k - 1) + prevs(txs[k].inputs@)) =~= (a + spent_through(
            rest,
            k - 1,
        )) + prevs(txs[k].inputs@));
        assert(spent + (spent_through(txs, k) + prevs(txs[k].inputs@)) =~= (spent + spent_through(
            txs,
            k,
        )) + prevs(txs[k].inputs@));
    }
}

/// When the transactions before the `i`-th all pass, the block's
/// transactions fail exactly as the `i`-th does: so a double spend in any
/// transaction of a block, after earlier ones passed, refuses the block.
pub proof fn lemma_failure_at_position(
    utxos: Map<sha256::Hash, TransactionOutput>,
    txs: Seq<Transaction>,
    spent: Seq<sha256::Hash>,
    i: int,
    e: BtcError,
)
    requires
        0 <= i < txs.len(),
        forall|k: int|
            0 <= k < i ==> transaction_check(utxos, #[trigger] txs[k], spent + spent_through(txs, k))
                is Ok,
        transaction_check(utxos, txs[i], spent + spent_through(txs, i)) == Err::<(), BtcError>(e),
    ensures
        transactions_check(utxos, txs, spent) == Err::<(), BtcError>(e),
    decreases i,
{
    reveal(transactions_check);
    assert(spent_through(txs, 0) =~= Seq::<sha256::Hash>::empty());
    assert(spent + spent_through(txs, 0) =~= spent);
    if i > 0 {
        assert(transaction_check(utxos, txs[0], spent + spent_through(txs, 0)) is Ok);
        let rest = txs.drop_first();
        let spent2 = spent + prevs(txs[0].inputs@);
        assert forall|k: int| 0 <= k < i - 1 implies transaction_check(
            utxos,
            #[trigger] rest[k],
            spent2 + spent_through(rest, k),
        ) is Ok by {
            lemma_spent_through_shift(txs, spent, k);
            assert(rest[k] == txs[k + 1]);
        }
        lemma_spent_through_shift(txs, spent, i - 1);
        assert(rest[i - 1] == txs[i]);
        lemma_failure_at_position(utxos, rest, spent2, i - 1, e);
    }
}

/// A transaction whose inputs all check, wherever it stands in its block, is
/// refused exactly when its outputs are worth more than its inputs; any
/// shortfall is the fee and is recorded nowhere.
pub proof fn lemma_transaction_value_balance(
    utxos: Map<sha256::Hash, TransactionOutput>,
    tx: Transaction,
    spent: Seq<sha256::Hash>,
)
    requires
        inputs_check(utxos, tx.inputs@, spent) is Ok,
    ensures
        transaction_check(utxos, tx, spent) == (if input_value(utxos, tx.inputs@) < output_value(
            tx.outputs@,
        ) {
            Err::<(), BtcError>(BtcError::InvalidTransaction)
        } else {
            Ok(())
        }),
{
    reveal(transaction_check);
}

/// A block of one spending transaction whose inputs all check is refused
/// exactly when its outputs are worth more than its inputs.
pub proof fn lemma_value_balance(utxos: Map<sha256::Hash, TransactionOutput>, tx: Transaction, reward: u64)
    requires
        tx.inputs@.len() > 0,
        inputs_check(utxos, tx.inputs@, Seq::empty()) is Ok,
    ensures
        block_transactions_check(utxos, seq![tx], reward) == (if input_value(utxos, tx.inputs@)
            < output_value(tx.outputs@) {
            Err::<(), BtcError>(BtcError::InvalidTransaction)
        } else {
            Ok(())
        }),
{
    reveal(transactions_check);
    reveal(transaction_check);
    assert(seq![tx][0] == tx);
    assert(seq![tx].len() == 1);
    assert(seq![tx].drop_first() =~= Seq::<Transaction>::empty());
    assert(transactions_check(utxos, Seq::<Transaction>::empty(), prevs(tx.inputs@)) == Ok::<(), BtcError>(()));
}

} // verus!
