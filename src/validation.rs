//! The naming state machine: the tables of the state, the validation of
//! transactions and bodies against them, and the connection of a body.

use vstd::prelude::*;
use crate::hashes::{Key, Value, Commitment, blake2b_hmac, commitment_of};
use crate::types::{
    Body, BitNamesOutput, Content, OutPoint, Output, Transaction, Txid, txid_of, value_of,
};
use crate::authorization::{AuthorizationError, authorizations_result, verify_authorizations};
use crate::table::Table;

verus! {

/// How many blocks after its own a commitment may still be revealed.
pub const COMMITMENT_MAX_AGE: u32 = 1;

/// Violations of the rules that hold for any transaction.
#[derive(Clone, Copy, PartialEq, Eq, Debug)]
pub enum UtxoError {
    /// An input refers to no unspent output.
    UnknownOutpoint { outpoint: OutPoint },
    /// An output is spent twice in one transaction or one body.
    DoubleSpend { outpoint: OutPoint },
    /// The outputs carry more value than the inputs.
    NotBalanced { value_in: u128, value_out: u128 },
    /// A fee does not fit in 64 bits.
    ValueOverflow,
}

/// Violations of the naming rules.
#[derive(Clone, Copy, PartialEq, Eq, Debug)]
pub enum BitNamesError {
    /// A reveal matches none of the commitments that its transaction spends.
    InvalidNameCommitment { key: Key, salt: u64, commitment: Commitment },
    /// The key is bound through a commitment that is not younger.
    KeyAlreadyRegistered { key: Key, prev_commitment_height: u32, commitment_height: u32 },
    CommitmentNotFound { commitment: Commitment },
    KeyNotFound { key: Key },
    /// A commitment is spent after its window closed.
    RevealTooLate { commitment: Commitment, late_by: u32 },
}

#[derive(Clone, Copy, PartialEq, Eq, Debug)]
pub enum Error {
    Authorization(AuthorizationError),
    Utxo(UtxoError),
    BitNames(BitNamesError),
}

/// The state as mathematical maps.
pub struct Model {
    pub utxos: Map<OutPoint, Output>,
    pub commitment_height: Map<Commitment, u32>,
    pub commitment_outpoint: Map<Commitment, OutPoint>,
    pub key_commitment: Map<Key, Commitment>,
    pub commitment_key: Map<Commitment, Key>,
    pub key_value: Map<Key, Option<Value>>,
    pub best_block_height: u32,
}

// ---------------------------------------------------------------------------
// Rules for any transaction

/// The total value of a sequence of outputs.
pub open spec fn sum_values(s: Seq<Output>) -> nat
    decreases s.len(),
{
    if s.len() == 0 {
        0
    } else {
        sum_values(s.drop_last()) + value_of(s.last())
    }
}

/// The first outpoint among the first `n` that repeats an earlier one.
pub open spec fn first_duplicate(s: Seq<OutPoint>, n: int) -> Option<OutPoint>
    decreases n,
{
    if n <= 0 {
        None
    } else {
        match first_duplicate(s, n - 1) {
            Some(o) => Some(o),
            None => if s.take(n - 1).contains(s[n - 1]) {
                Some(s[n - 1])
            } else {
                None
            },
        }
    }
}

/// The fee of a transaction under the rules for any transaction: its inputs
/// are distinct and its outputs carry no more value than the outputs it spends.
pub open spec fn transaction_fee(spent: Seq<Output>, tx: Transaction) -> Result<u64, UtxoError> {
    match first_duplicate(tx.inputs@, tx.inputs@.len() as int) {
        Some(o) => Err(UtxoError::DoubleSpend { outpoint: o }),
        None => {
            let value_in = sum_values(spent);
            let value_out = sum_values(tx.outputs@);
            if value_out > value_in {
                Err(
                    UtxoError::NotBalanced {
                        value_in: value_in as u128,
                        value_out: value_out as u128,
                    },
                )
            } else if value_in - value_out > u64::MAX {
                Err(UtxoError::ValueOverflow)
            } else {
                Ok((value_in - value_out) as u64)
            }
        },
    }
}

proof fn lemma_sum_values_bound(s: Seq<Output>)
    ensures
        sum_values(s) <= s.len() * (u64::MAX as nat),
    decreases s.len(),
{
    if s.len() > 0 {
        lemma_sum_values_bound(s.drop_last());
        assert(sum_values(s.drop_last()) + value_of(s.last()) <= (s.len() - 1) * (u64::MAX as nat)
            + (u64::MAX as nat));
        assert((s.len() - 1) * (u64::MAX as nat) + (u64::MAX as nat) == s.len() * (u64::MAX as nat))
            by (nonlinear_arith);
    }
}

/// The total value of `s`.
fn total_value(s: &Vec<Output>) -> (r: u128)
    ensures
        r == sum_values(s@),
{
    let mut total: u128 = 0;
    let mut i: usize = 0;
    while i < s.len()
        invariant
            0 <= i <= s@.len(),
            total == sum_values(s@.take(i as int)),
        decreases s@.len() - i,
    {
        proof {
            assert(s@.take(i + 1).drop_last() =~= s@.take(i as int));
            lemma_sum_values_bound(s@.take(i as int));
            assert(i * (u64::MAX as nat) <= (u64::MAX as nat) * (u64::MAX as nat)) by (nonlinear_arith)
                requires
                    i <= u64::MAX,
            ;
        }
        total = total + s[i].get_value() as u128;
        i += 1;
    }
    assert(s@.take(s@.len() as int) =~= s@);
    total
}

/// The first outpoint of `s` that repeats an earlier one.
fn find_duplicate(s: &Vec<OutPoint>) -> (r: Option<OutPoint>)
    ensures
        r == first_duplicate(s@, s@.len() as int),
{
    let mut j: usize = 0;
    while j < s.len()
        invariant
            0 <= j <= s@.len(),
            first_duplicate(s@, j as int) is None,
        decreases s@.len() - j,
    {
        let mut i: usize = 0;
        while i < j
            invariant
                0 <= i <= j < s@.len(),
                first_duplicate(s@, j as int) is None,
                forall|k: int| 0 <= k < i ==> s@[k] != s@[j as int],
            decreases j - i,
        {
            if s[i].same(&s[j]) {
                proof {
                    assert(s@.take(j as int)[i as int] == s@[j as int]);
                    assert(s@.take(j as int).contains(s@[j as int]));
                    assert(first_duplicate(s@, j + 1) == Some(s@[j as int]));
                    lemma_first_duplicate_stays(s@, j + 1, s@.len() as int);
                }
                return Some(s[j]);
            }
            i += 1;
        }
        proof {
            assert forall|k: int| 0 <= k < s@.take(j as int).len() implies s@.take(j as int)[k]
                != s@[j as int] by {}
        }
        j += 1;
    }
    None
}

proof fn lemma_first_duplicate_stays(s: Seq<OutPoint>, m: int, n: int)
    requires
        m <= n,
        first_duplicate(s, m) is Some,
    ensures
        first_duplicate(s, n) == first_duplicate(s, m),
    decreases n - m,
{
    if m < n {
        lemma_first_duplicate_stays(s, m, n - 1);
    }
}

/// Checks the rules for any transaction and returns its fee.
pub fn validate_transaction_fee(spent: &Vec<Output>, tx: &Transaction) -> (r: Result<u64, UtxoError>)
    ensures
        r == transaction_fee(spent@, *tx),
{
    if let Some(o) = find_duplicate(&tx.inputs) {
        return Err(UtxoError::DoubleSpend { outpoint: o });
    }
    let value_in = total_value(spent);
    let value_out = total_value(&tx.outputs);
    if value_out > value_in {
        return Err(UtxoError::NotBalanced { value_in, value_out });
    }
    if value_in - value_out > u64::MAX as u128 {
        return Err(UtxoError::ValueOverflow);
    }
    Ok((value_in - value_out) as u64)
}

// ---------------------------------------------------------------------------
// Naming rules

/// The check of a spent output against the commitment window: a spent
/// commitment must be recorded, and not older than the window allows.
pub open spec fn commitment_age_error(
    heights: Map<Commitment, u32>,
    o: Output,
    block_height: u32,
) -> Option<BitNamesError> {
    match o.content {
        Content::Custom(BitNamesOutput::Commitment(c)) => if !heights.contains_key(c) {
            Some(BitNamesError::CommitmentNotFound { commitment: c })
        } else if block_height as int - heights[c] as int > COMMITMENT_MAX_AGE as int {
            Some(
                BitNamesError::RevealTooLate {
                    commitment: c,
                    late_by: (block_height as int - heights[c] as int
                        - COMMITMENT_MAX_AGE as int) as u32,
                },
            )
        } else {
            None
        },
        _ => None,
    }
}

/// The first failing window check among the first `n` spent outputs.
pub open spec fn first_commitment_error(
    heights: Map<Commitment, u32>,
    spent: Seq<Output>,
    block_height: u32,
    n: int,
) -> Option<BitNamesError>
    decreases n,
{
    if n <= 0 {
        None
    } else {
        match first_commitment_error(heights, spent, block_height, n - 1) {
            Some(e) => Some(e),
            None => commitment_age_error(heights, spent[n - 1], block_height),
        }
    }
}

/// Some spent output is the commitment `c`.
pub open spec fn spends_commitment(spent: Seq<Output>, c: Commitment) -> bool {
    exists|i: int|
        0 <= i < spent.len() && #[trigger] spent[i].content == Content::Custom(
            BitNamesOutput::Commitment(c),
        )
}

/// The check of an output against the naming rules: a reveal must open a
/// commitment that its transaction spends, and where its key is bound already,
/// its commitment must be strictly older than the one the key is bound through.
pub open spec fn reveal_error(m: Model, spent: Seq<Output>, o: Output) -> Option<BitNamesError> {
    match o.content {
        Content::Custom(BitNamesOutput::Reveal { salt, key, value }) => {
            let c = commitment_of(key, salt);
            if !spends_commitment(spent, c) {
                Some(BitNamesError::InvalidNameCommitment { key, salt, commitment: c })
            } else if !m.key_value.contains_key(key) {
                None
            } else if !m.commitment_height.contains_key(c) {
                Some(BitNamesError::CommitmentNotFound { commitment: c })
            } else if !m.key_commitment.contains_key(key) {
                Some(BitNamesError::KeyNotFound { key })
            } else if !m.commitment_height.contains_key(m.key_commitment[key]) {
                Some(BitNamesError::CommitmentNotFound { commitment: m.key_commitment[key] })
            } else if m.commitment_height[m.key_commitment[key]] <= m.commitment_height[c] {
                Some(
                    BitNamesError::KeyAlreadyRegistered {
                        key,
                        prev_commitment_height: m.commitment_height[m.key_commitment[key]],
                        commitment_height: m.commitment_height[c],
                    },
                )
            } else {
                None
            }
        },
        _ => None,
    }
}

/// The first failing naming check among the first `n` outputs.
pub open spec fn first_reveal_error(
    m: Model,
    spent: Seq<Output>,
    outputs: Seq<Output>,
    n: int,
) -> Option<BitNamesError>
    decreases n,
{
    if n <= 0 {
        None
    } else {
        match first_reveal_error(m, spent, outputs, n - 1) {
            Some(e) => Some(e),
            None => reveal_error(m, spent, outputs[n - 1]),
        }
    }
}

/// The outcome of validating a transaction that spends `spent` against the
/// state `m` at `block_height`: the window checks, then the reveal checks,
/// then the rules for any transaction.
pub open spec fn pure_result(m: Model, spent: Seq<Output>, block_height: u32, tx: Transaction) -> Result<
    (),
    Error,
> {
    match first_commitment_error(m.commitment_height, spent, block_height, spent.len() as int) {
        Some(e) => Err(Error::BitNames(e)),
        None => match first_reveal_error(m, spent, tx.outputs@, tx.outputs@.len() as int) {
            Some(e) => Err(Error::BitNames(e)),
            None => match transaction_fee(spent, tx) {
                Err(e) => Err(Error::Utxo(e)),
                Ok(_) => Ok(()),
            },
        },
    }
}

proof fn lemma_first_commitment_error_stays(
    heights: Map<Commitment, u32>,
    spent: Seq<Output>,
    block_height: u32,
    m: int,
    n: int,
)
    requires
        m <= n,
        first_commitment_error(heights, spent, block_height, m) is Some,
    ensures
        first_commitment_error(heights, spent, block_height, n) == first_commitment_error(
            heights,
            spent,
            block_height,
            m,
        ),
    decreases n - m,
{
    if m < n {
        lemma_first_commitment_error_stays(heights, spent, block_height, m, n - 1);
    }
}

proof fn lemma_first_reveal_error_stays(
    model: Model,
    spent: Seq<Output>,
    outputs: Seq<Output>,
    m: int,
    n: int,
)
    requires
        m <= n,
        first_reveal_error(model, spent, outputs, m) is Some,
    ensures
        first_reveal_error(model, spent, outputs, n) == first_reveal_error(model, spent, outputs, m),
    decreases n - m,
{
    if m < n {
        lemma_first_reveal_error_stays(model, spent, outputs, m, n - 1);
    }
}

/// Whether some output of `spent` is the commitment `c`.
fn find_spent_commitment(spent: &Vec<Output>, c: &Commitment) -> (r: bool)
    ensures
        r == spends_commitment(spent@, *c),
{
    let mut i: usize = 0;
    while i < spent.len()
        invariant
            0 <= i <= spent@.len(),
            forall|k: int|
                0 <= k < i ==> spent@[k].content != Content::Custom(BitNamesOutput::Commitment(*c)),
        decreases spent@.len() - i,
    {
        if let Content::Custom(BitNamesOutput::Commitment(d)) = &spent[i].content {
            if d.same(c) {
                return true;
            }
        }
        i += 1;
    }
    false
}

// ---------------------------------------------------------------------------
// Bodies

/// The outputs that `inputs` refer to.
pub open spec fn spent_outputs(utxos: Map<OutPoint, Output>, inputs: Seq<OutPoint>) -> Seq<Output> {
    inputs.map_values(|o: OutPoint| utxos[o])
}

/// The first among the first `n` inputs that refers to no unspent output.
pub open spec fn first_unknown(utxos: Map<OutPoint, Output>, inputs: Seq<OutPoint>, n: int) -> Option<
    OutPoint,
>
    decreases n,
{
    if n <= 0 {
        None
    } else {
        match first_unknown(utxos, inputs, n - 1) {
            Some(o) => Some(o),
            None => if !utxos.contains_key(inputs[n - 1]) {
                Some(inputs[n - 1])
            } else {
                None
            },
        }
    }
}

/// The first unknown input among the inputs of the first `n` transactions.
pub open spec fn first_unknown_in(
    utxos: Map<OutPoint, Output>,
    txs: Seq<Transaction>,
    n: int,
) -> Option<OutPoint>
    decreases n,
{
    if n <= 0 {
        None
    } else {
        match first_unknown_in(utxos, txs, n - 1) {
            Some(o) => Some(o),
            None => first_unknown(utxos, txs[n - 1].inputs@, txs[n - 1].inputs@.len() as int),
        }
    }
}

/// The first authorization failure among the first `n` transactions.
pub open spec fn first_authorization_error_in(
    utxos: Map<OutPoint, Output>,
    txs: Seq<Transaction>,
    n: int,
) -> Option<AuthorizationError>
    decreases n,
{
    if n <= 0 {
        None
    } else {
        match first_authorization_error_in(utxos, txs, n - 1) {
            Some(e) => Some(e),
            None => match authorizations_result(
                txs[n - 1],
                spent_outputs(utxos, txs[n - 1].inputs@),
            ) {
                Err(e) => Some(e),
                Ok(_) => None,
            },
        }
    }
}

/// The first failure of a transaction's own validation among the first `n`.
pub open spec fn first_pure_error_in(
    m: Model,
    block_height: u32,
    txs: Seq<Transaction>,
    n: int,
) -> Option<Error>
    decreases n,
{
    if n <= 0 {
        None
    } else {
        match first_pure_error_in(m, block_height, txs, n - 1) {
            Some(e) => Some(e),
            None => match pure_result(
                m,
                spent_outputs(m.utxos, txs[n - 1].inputs@),
                block_height,
                txs[n - 1],
            ) {
                Err(e) => Some(e),
                Ok(_) => None,
            },
        }
    }
}

/// The inputs of the first `n` transactions, in order.
pub open spec fn body_inputs(txs: Seq<Transaction>, n: int) -> Seq<OutPoint>
    decreases n,
{
    if n <= 0 {
        Seq::empty()
    } else {
        body_inputs(txs, n - 1) + txs[n - 1].inputs@
    }
}

/// The fee of a transaction whose inputs are looked up in `utxos`.
pub open spec fn fee_in(utxos: Map<OutPoint, Output>, tx: Transaction) -> Result<u64, UtxoError> {
    transaction_fee(spent_outputs(utxos, tx.inputs@), tx)
}

/// The fees of the first `n` transactions.
pub open spec fn body_fee(utxos: Map<OutPoint, Output>, txs: Seq<Transaction>, n: int) -> nat
    decreases n,
{
    if n <= 0 {
        0
    } else {
        body_fee(utxos, txs, n - 1) + match fee_in(utxos, txs[n - 1]) {
            Ok(f) => f as nat,
            Err(_) => 0,
        }
    }
}

/// The outcome of validating a lone transaction for the next block.
pub open spec fn transaction_result(m: Model, tx: Transaction) -> Result<u64, Error> {
    match first_unknown(m.utxos, tx.inputs@, tx.inputs@.len() as int) {
        Some(o) => Err(Error::Utxo(UtxoError::UnknownOutpoint { outpoint: o })),
        None => {
            let spent = spent_outputs(m.utxos, tx.inputs@);
            match pure_result(m, spent, (m.best_block_height + 1) as u32, tx) {
                Err(e) => Err(e),
                Ok(_) => match transaction_fee(spent, tx) {
                    Ok(f) => Ok(f),
                    Err(e) => Err(Error::Utxo(e)),
                },
            }
        },
    }
}

/// The outcome of validating a body at `block_height`: every input refers to
/// an unspent output; every transaction is authorized; every transaction
/// passes its own validation; no output is spent twice in the body; the
/// total fee fits in 64 bits.
pub open spec fn body_result(m: Model, block_height: u32, body: Body) -> Result<u64, Error> {
    let txs = body.transactions@;
    let n = txs.len() as int;
    match first_unknown_in(m.utxos, txs, n) {
        Some(o) => Err(Error::Utxo(UtxoError::UnknownOutpoint { outpoint: o })),
        None => match first_authorization_error_in(m.utxos, txs, n) {
            Some(e) => Err(Error::Authorization(e)),
            None => match first_pure_error_in(m, block_height, txs, n) {
                Some(e) => Err(e),
                None => match first_duplicate(body_inputs(txs, n), body_inputs(txs, n).len() as int) {
                    Some(o) => Err(Error::Utxo(UtxoError::DoubleSpend { outpoint: o })),
                    None => if body_fee(m.utxos, txs, n) > u64::MAX {
                        Err(Error::Utxo(UtxoError::ValueOverflow))
                    } else {
                        Ok(body_fee(m.utxos, txs, n) as u64)
                    },
                },
            },
        },
    }
}

proof fn lemma_first_unknown_stays(utxos: Map<OutPoint, Output>, inputs: Seq<OutPoint>, m: int, n: int)
    requires
        m <= n,
        first_unknown(utxos, inputs, m) is Some,
    ensures
        first_unknown(utxos, inputs, n) == first_unknown(utxos, inputs, m),
    decreases n - m,
{
    if m < n {
        lemma_first_unknown_stays(utxos, inputs, m, n - 1);
    }
}

proof fn lemma_first_unknown_in_stays(utxos: Map<OutPoint, Output>, txs: Seq<Transaction>, m: int, n: int)
    requires
        m <= n,
        first_unknown_in(utxos, txs, m) is Some,
    ensures
        first_unknown_in(utxos, txs, n) == first_unknown_in(utxos, txs, m),
    decreases n - m,
{
    if m < n {
        lemma_first_unknown_in_stays(utxos, txs, m, n - 1);
    }
}

proof fn lemma_first_authorization_error_in_stays(
    utxos: Map<OutPoint, Output>,
    txs: Seq<Transaction>,
    m: int,
    n: int,
)
    requires
        m <= n,
        first_authorization_error_in(utxos, txs, m) is Some,
    ensures
        first_authorization_error_in(utxos, txs, n) == first_authorization_error_in(utxos, txs, m),
    decreases n - m,
{
    if m < n {
        lemma_first_authorization_error_in_stays(utxos, txs, m, n - 1);
    }
}

proof fn lemma_first_pure_error_in_stays(
    model: Model,
    block_height: u32,
    txs: Seq<Transaction>,
    m: int,
    n: int,
)
    requires
        m <= n,
        first_pure_error_in(model, block_height, txs, m) is Some,
    ensures
        first_pure_error_in(model, block_height, txs, n) == first_pure_error_in(
            model,
            block_height,
            txs,
            m,
        ),
    decreases n - m,
{
    if m < n {
        lemma_first_pure_error_in_stays(model, block_height, txs, m, n - 1);
    }
}

proof fn lemma_body_fee_grows(utxos: Map<OutPoint, Output>, txs: Seq<Transaction>, m: int, n: int)
    requires
        m <= n,
    ensures
        body_fee(utxos, txs, m) <= body_fee(utxos, txs, n),
    decreases n - m,
{
    if m < n {
        lemma_body_fee_grows(utxos, txs, m, n - 1);
    }
}

// ---------------------------------------------------------------------------
// Connecting a body

/// The state after output `vout` of the transaction `txid` is added in the
/// block at `height`.
pub open spec fn add_output(m: Model, txid: Txid, vout: u32, o: Output, height: u32) -> Model {
    let outpoint = OutPoint::Regular { txid, vout };
    let m1 = Model { utxos: m.utxos.insert(outpoint, o), ..m };
    match o.content {
        Content::Custom(BitNamesOutput::Commitment(c)) => Model {
            commitment_height: m1.commitment_height.insert(c, height),
            commitment_outpoint: m1.commitment_outpoint.insert(c, outpoint),
            ..m1
        },
        Content::Custom(BitNamesOutput::Reveal { salt, key, value }) => {
            let c = commitment_of(key, salt);
            Model {
                key_commitment: m1.key_commitment.insert(key, c),
                commitment_key: m1.commitment_key.insert(c, key),
                key_value: m1.key_value.insert(key, Some(value)),
                ..m1
            }
        },
        _ => m1,
    }
}

/// The state after the first `n` outputs are added.
pub open spec fn add_outputs(m: Model, txid: Txid, outputs: Seq<Output>, height: u32, n: int) -> Model
    decreases n,
{
    if n <= 0 {
        m
    } else {
        add_output(add_outputs(m, txid, outputs, height, n - 1), txid, (n - 1) as u32, outputs[n - 1], height)
    }
}

/// The state after a transaction's inputs are spent and its outputs added.
pub open spec fn apply_transaction(m: Model, tx: Transaction, height: u32) -> Model {
    let m1 = Model { utxos: m.utxos.remove_keys(tx.inputs@.to_set()), ..m };
    add_outputs(m1, txid_of(tx), tx.outputs@, height, tx.outputs@.len() as int)
}

/// The state after the first `n` transactions are applied in order.
pub open spec fn apply_transactions(m: Model, txs: Seq<Transaction>, height: u32, n: int) -> Model
    decreases n,
{
    if n <= 0 {
        m
    } else {
        apply_transaction(apply_transactions(m, txs, height, n - 1), txs[n - 1], height)
    }
}

/// A recorded commitment older than the window allows at the best height.
pub open spec fn is_expired(m: Model, c: Commitment) -> bool {
    m.commitment_height.contains_key(c) && m.best_block_height as int
        - m.commitment_height[c] as int > COMMITMENT_MAX_AGE as int
}

pub open spec fn expired_commitments(m: Model) -> Set<Commitment> {
    Set::new(|c: Commitment| is_expired(m, c))
}

/// The outputs that the commitments of `cs` were recorded at.
pub open spec fn swept_outpoints(m: Model, cs: Set<Commitment>) -> Set<OutPoint> {
    Set::new(
        |o: OutPoint|
            exists|c: Commitment|
                cs.contains(c) && m.commitment_outpoint.contains_key(c)
                    && #[trigger] m.commitment_outpoint[c] == o,
    )
}

/// The keys that the commitments of `cs` bind.
pub open spec fn swept_keys(m: Model, cs: Set<Commitment>) -> Set<Key> {
    Set::new(
        |k: Key|
            exists|c: Commitment|
                cs.contains(c) && m.commitment_key.contains_key(c) && #[trigger] m.commitment_key[c]
                    == k,
    )
}

/// The state with the commitments of `cs` removed: their outputs, their
/// heights and outpoints, and their links to keys. Bound values stay.
pub open spec fn sweep_with(m: Model, cs: Set<Commitment>) -> Model {
    Model {
        utxos: m.utxos.remove_keys(swept_outpoints(m, cs)),
        commitment_height: m.commitment_height.remove_keys(cs),
        commitment_outpoint: m.commitment_outpoint.remove_keys(cs),
        key_commitment: m.key_commitment.remove_keys(swept_keys(m, cs)),
        commitment_key: m.commitment_key.remove_keys(cs),
        ..m
    }
}

/// The state with one commitment removed.
pub open spec fn sweep_one(m: Model, c: Commitment) -> Model {
    Model {
        utxos: if m.commitment_outpoint.contains_key(c) {
            m.utxos.remove(m.commitment_outpoint[c])
        } else {
            m.utxos
        },
        commitment_height: m.commitment_height.remove(c),
        commitment_outpoint: m.commitment_outpoint.remove(c),
        key_commitment: if m.commitment_key.contains_key(c) {
            m.key_commitment.remove(m.commitment_key[c])
        } else {
            m.key_commitment
        },
        commitment_key: m.commitment_key.remove(c),
        ..m
    }
}

/// The state after a valid body is connected: the height advances, the
/// transactions are applied in order, then the expired commitments are swept.
pub open spec fn connect_result(m: Model, body: Body) -> Model {
    let height = (m.best_block_height + 1) as u32;
    let m1 = apply_transactions(
        Model { best_block_height: height, ..m },
        body.transactions@,
        height,
        body.transactions@.len() as int,
    );
    sweep_with(m1, expired_commitments(m1))
}

/// The unspent outputs after the first `n` deposits are added in order.
pub open spec fn add_deposits(utxos: Map<OutPoint, Output>, deposits: Seq<(OutPoint, Output)>, n: int) -> Map<
    OutPoint,
    Output,
>
    decreases n,
{
    if n <= 0 {
        utxos
    } else {
        add_deposits(utxos, deposits, n - 1).insert(deposits[n - 1].0, deposits[n - 1].1)
    }
}

proof fn lemma_remove_keys_insert<K, V>(m: Map<K, V>, s: Set<K>, k: K)
    ensures
        m.remove_keys(s).remove(k) == m.remove_keys(s.insert(k)),
{
    assert(m.remove_keys(s).remove(k) =~= m.remove_keys(s.insert(k)));
}

proof fn lemma_take_to_set<A>(s: Seq<A>, i: int)
    requires
        0 <= i < s.len(),
    ensures
        s.take(i + 1).to_set() == s.take(i).to_set().insert(s[i]),
{
    assert forall|x: A| s.take(i + 1).to_set().contains(x) <==> s.take(i).to_set().insert(s[i]).contains(x) by {
        if s.take(i + 1).contains(x) {
            let j = choose|j: int| 0 <= j < i + 1 && #[trigger] s.take(i + 1)[j] == x;
            if j < i {
                assert(s.take(i)[j] == x);
            }
        }
        if s.take(i).contains(x) {
            let j = choose|j: int| 0 <= j < i && #[trigger] s.take(i)[j] == x;
            assert(s.take(i + 1)[j] == x);
        }
        if x == s[i] {
            assert(s.take(i + 1)[i] == x);
        }
    }
    assert(s.take(i + 1).to_set() =~= s.take(i).to_set().insert(s[i]));
}

proof fn lemma_sweep_step(m: Model, cs: Set<Commitment>, c: Commitment)
    requires
        !cs.contains(c),
    ensures
        sweep_one(sweep_with(m, cs), c) == sweep_with(m, cs.insert(c)),
{
    let a = sweep_one(sweep_with(m, cs), c);
    let b = sweep_with(m, cs.insert(c));
    assert forall|o: OutPoint| swept_outpoints(m, cs.insert(c)).contains(o) <==> (swept_outpoints(
        m,
        cs,
    ).contains(o) || (m.commitment_outpoint.contains_key(c) && m.commitment_outpoint[c] == o)) by {
        if swept_outpoints(m, cs.insert(c)).contains(o) {
            let d = choose|d: Commitment|
                cs.insert(c).contains(d) && m.commitment_outpoint.contains_key(d)
                    && #[trigger] m.commitment_outpoint[d] == o;
            if d != c {
                assert(swept_outpoints(m, cs).contains(o));
            }
        }
    }
    assert forall|k: Key| swept_keys(m, cs.insert(c)).contains(k) <==> (swept_keys(m, cs).contains(k)
        || (m.commitment_key.contains_key(c) && m.commitment_key[c] == k)) by {
        if swept_keys(m, cs.insert(c)).contains(k) {
            let d = choose|d: Commitment|
                cs.insert(c).contains(d) && m.commitment_key.contains_key(d)
                    && #[trigger] m.commitment_key[d] == k;
            if d != c {
                assert(swept_keys(m, cs).contains(k));
            }
        }
    }
    assert(a.utxos =~= b.utxos);
    assert(a.commitment_height =~= b.commitment_height);
    assert(a.commitment_outpoint =~= b.commitment_outpoint);
    assert(a.key_commitment =~= b.key_commitment);
    assert(a.commitment_key =~= b.commitment_key);
}

/// The state: unspent outputs, the commitment and name registries, and the
/// height of the last connected block.
pub struct BitNamesState {
    pub key_to_value: Table<Key, Option<Value>>,
    pub commitment_to_height: Table<Commitment, u32>,
    pub commitment_to_outpoint: Table<Commitment, OutPoint>,
    pub key_to_commitment: Table<Key, Commitment>,
    pub commitment_to_key: Table<Commitment, Key>,
    pub utxos: Table<OutPoint, Output>,
    pub best_block_height: u32,
}

impl View for BitNamesState {
    type V = Model;

    open spec fn view(&self) -> Model {
        Model {
            utxos: self.utxos@,
            commitment_height: self.commitment_to_height@,
            commitment_outpoint: self.commitment_to_outpoint@,
            key_commitment: self.key_to_commitment@,
            commitment_key: self.commitment_to_key@,
            key_value: self.key_to_value@,
            best_block_height: self.best_block_height,
        }
    }
}

impl BitNamesState {
    pub open spec fn wf(&self) -> bool {
        &&& self.key_to_value.wf()
        &&& self.commitment_to_height.wf()
        &&& self.commitment_to_outpoint.wf()
        &&& self.key_to_commitment.wf()
        &&& self.commitment_to_key.wf()
        &&& self.utxos.wf()
    }

    /// The empty state at height zero.
    pub fn new() -> (r: Self)
        ensures
            r.wf(),
            r@.utxos == Map::<OutPoint, Output>::empty(),
            r@.commitment_height == Map::<Commitment, u32>::empty(),
            r@.commitment_outpoint == Map::<Commitment, OutPoint>::empty(),
            r@.key_commitment == Map::<Key, Commitment>::empty(),
            r@.commitment_key == Map::<Commitment, Key>::empty(),
            r@.key_value == Map::<Key, Option<Value>>::empty(),
            r@.best_block_height == 0,
    {
        BitNamesState {
            key_to_value: Table::new(),
            commitment_to_height: Table::new(),
            commitment_to_outpoint: Table::new(),
            key_to_commitment: Table::new(),
            commitment_to_key: Table::new(),
            utxos: Table::new(),
            best_block_height: 0,
        }
    }

    /// What `key` is bound to: `None` if it was never revealed.
    pub fn get_value(&self, key: &Key) -> (r: Option<Option<Value>>)
        requires
            self.wf(),
        ensures
            r == (if self@.key_value.contains_key(*key) {
                Some(self@.key_value[*key])
            } else {
                None
            }),
    {
        self.key_to_value.get(key)
    }

    pub fn get_utxo(&self, outpoint: &OutPoint) -> (r: Option<Output>)
        requires
            self.wf(),
        ensures
            r == (if self@.utxos.contains_key(*outpoint) {
                Some(self@.utxos[*outpoint])
            } else {
                None
            }),
    {
        self.utxos.get(outpoint)
    }

    /// The height of the block that recorded `commitment`.
    pub fn get_commitment_height(&self, commitment: &Commitment) -> (r: Result<u32, Error>)
        requires
            self.wf(),
        ensures
            r == (if self@.commitment_height.contains_key(*commitment) {
                Ok(self@.commitment_height[*commitment])
            } else {
                Err(Error::BitNames(BitNamesError::CommitmentNotFound { commitment: *commitment }))
            }),
    {
        match self.commitment_to_height.get(commitment) {
            Some(h) => Ok(h),
            None => Err(Error::BitNames(BitNamesError::CommitmentNotFound { commitment: *commitment })),
        }
    }

    /// The height of the commitment that `key` is bound through.
    pub fn get_key_height(&self, key: &Key) -> (r: Result<u32, Error>)
        requires
            self.wf(),
        ensures
            r == (if !self@.key_commitment.contains_key(*key) {
                Err(Error::BitNames(BitNamesError::KeyNotFound { key: *key }))
            } else if !self@.commitment_height.contains_key(self@.key_commitment[*key]) {
                Err(
                    Error::BitNames(
                        BitNamesError::CommitmentNotFound { commitment: self@.key_commitment[*key] },
                    ),
                )
            } else {
                Ok(self@.commitment_height[self@.key_commitment[*key]])
            }),
    {
        match self.key_to_commitment.get(key) {
            None => Err(Error::BitNames(BitNamesError::KeyNotFound { key: *key })),
            Some(c) => self.get_commitment_height(&c),
        }
    }

    /// Validates a transaction that spends `spent` against this state, as if
    /// it stood in a block at `block_height`; authorizations are not checked.
    pub fn validate_transaction_pure(
        &self,
        spent: &Vec<Output>,
        block_height: u32,
        tx: &Transaction,
    ) -> (r: Result<(), Error>)
        requires
            self.wf(),
        ensures
            r == pure_result(self@, spent@, block_height, *tx),
    {
        let ghost m = self@;
        let mut i: usize = 0;
        while i < spent.len()
            invariant
                self.wf(),
                m == self@,
                0 <= i <= spent@.len(),
                first_commitment_error(m.commitment_height, spent@, block_height, i as int) is None,
            decreases spent@.len() - i,
        {
            if let Content::Custom(BitNamesOutput::Commitment(c)) = &spent[i].content {
                let h = match self.get_commitment_height(c) {
                    Ok(h) => h,
                    Err(e) => {
                        proof {
                            lemma_first_commitment_error_stays(
                                m.commitment_height,
                                spent@,
                                block_height,
                                i + 1,
                                spent@.len() as int,
                            );
                        }
                        return Err(e);
                    },
                };
                if block_height > h && block_height - h > COMMITMENT_MAX_AGE {
                    proof {
                        lemma_first_commitment_error_stays(
                            m.commitment_height,
                            spent@,
                            block_height,
                            i + 1,
                            spent@.len() as int,
                        );
                    }
                    return Err(
                        Error::BitNames(
                            BitNamesError::RevealTooLate {
                                commitment: *c,
                                late_by: block_height - h - COMMITMENT_MAX_AGE,
                            },
                        ),
                    );
                }
            }
            i += 1;
        }
        let mut j: usize = 0;
        while j < tx.outputs.len()
            invariant
                self.wf(),
                m == self@,
                0 <= j <= tx.outputs@.len(),
                first_commitment_error(m.commitment_height, spent@, block_height, spent@.len() as int) is None,
                first_reveal_error(m, spent@, tx.outputs@, j as int) is None,
            decreases tx.outputs@.len() - j,
        {
            if let Content::Custom(BitNamesOutput::Reveal { salt, key, value: _ }) = &tx.outputs[j].content {
                let c = blake2b_hmac(key, *salt);
                let failure: Option<Error> = if !find_spent_commitment(spent, &c) {
                    Some(
                        Error::BitNames(
                            BitNamesError::InvalidNameCommitment { key: *key, salt: *salt, commitment: c },
                        ),
                    )
                } else if !self.key_to_value.contains_key(key) {
                    None
                } else {
                    match self.get_commitment_height(&c) {
                        Err(e) => Some(e),
                        Ok(commitment_height) => match self.get_key_height(key) {
                            Err(e) => Some(e),
                            Ok(prev_commitment_height) => if prev_commitment_height <= commitment_height {
                                Some(
                                    Error::BitNames(
                                        BitNamesError::KeyAlreadyRegistered {
                                            key: *key,
                                            prev_commitment_height,
                                            commitment_height,
                                        },
                                    ),
                                )
                            } else {
                                None
                            },
                        },
                    }
                };
                if let Some(e) = failure {
                    proof {
                        lemma_first_reveal_error_stays(
                            m,
                            spent@,
                            tx.outputs@,
                            j + 1,
                            tx.outputs@.len() as int,
                        );
                    }
                    return Err(e);
                }
            }
            j += 1;
        }
        match validate_transaction_fee(spent, tx) {
            Err(e) => Err(Error::Utxo(e)),
            Ok(_) => Ok(()),
        }
    }

    /// The outputs that `inputs` refer to, or the first input that refers
    /// to none.
    pub fn get_utxos(&self, inputs: &Vec<OutPoint>) -> (r: Result<Vec<Output>, Error>)
        requires
            self.wf(),
        ensures
            match r {
                Ok(v) => first_unknown(self@.utxos, inputs@, inputs@.len() as int) is None
                    && v@ == spent_outputs(self@.utxos, inputs@),
                Err(e) => first_unknown(self@.utxos, inputs@, inputs@.len() as int) == Some(
                    e->Utxo_0->UnknownOutpoint_outpoint,
                ) && e == Error::Utxo(
                    UtxoError::UnknownOutpoint { outpoint: e->Utxo_0->UnknownOutpoint_outpoint },
                ),
            },
    {
        let mut spent: Vec<Output> = Vec::new();
        let mut i: usize = 0;
        while i < inputs.len()
            invariant
                self.wf(),
                0 <= i <= inputs@.len(),
                first_unknown(self@.utxos, inputs@, i as int) is None,
                spent@ == spent_outputs(self@.utxos, inputs@.take(i as int)),
            decreases inputs@.len() - i,
        {
            match self.utxos.get(&inputs[i]) {
                Some(o) => {
                    spent.push(o);
                    assert(spent@ =~= spent_outputs(self@.utxos, inputs@.take(i + 1)));
                },
                None => {
                    proof {
                        lemma_first_unknown_stays(self@.utxos, inputs@, i + 1, inputs@.len() as int);
                    }
                    return Err(Error::Utxo(UtxoError::UnknownOutpoint { outpoint: inputs[i] }));
                },
            }
            i += 1;
        }
        assert(inputs@.take(inputs@.len() as int) =~= inputs@);
        Ok(spent)
    }

    /// Validates a transaction for inclusion in the next block: its inputs
    /// refer to unspent outputs and it passes its own validation. Returns its
    /// fee.
    pub fn validate_transaction(&self, transaction: &Transaction) -> (r: Result<u64, Error>)
        requires
            self.wf(),
            self.best_block_height < u32::MAX,
        ensures
            r == transaction_result(self@, *transaction),
    {
        let spent = match self.get_utxos(&transaction.inputs) {
            Ok(s) => s,
            Err(e) => return Err(e),
        };
        match self.validate_transaction_pure(&spent, self.best_block_height + 1, transaction) {
            Err(e) => Err(e),
            Ok(()) => match validate_transaction_fee(&spent, transaction) {
                Ok(f) => Ok(f),
                Err(e) => Err(Error::Utxo(e)),
            },
        }
    }

    /// Validates a body as the block at `block_height` against this state.
    /// Returns its total fee.
    pub fn validate_body(&self, block_height: u32, body: &Body) -> (r: Result<u64, Error>)
        requires
            self.wf(),
        ensures
            r == body_result(self@, block_height, *body),
    {
        let txs = &body.transactions;
        let n = txs.len();
        let ghost m = self@;
        let mut spent_all: Vec<Vec<Output>> = Vec::new();
        let mut t: usize = 0;
        while t < n
            invariant
                txs@ == body.transactions@,
                self.wf(),
                m == self@,
                n == txs@.len(),
                0 <= t <= n,
                first_unknown_in(m.utxos, txs@, t as int) is None,
                spent_all@.len() == t,
                forall|k: int|
                    0 <= k < t ==> (#[trigger] spent_all@[k])@ == spent_outputs(m.utxos, txs@[k].inputs@),
            decreases n - t,
        {
            match self.get_utxos(&txs[t].inputs) {
                Ok(s) => {
                    spent_all.push(s);
                },
                Err(e) => {
                    proof {
                        assert(first_unknown_in(m.utxos, txs@, t + 1) == Some(e->Utxo_0->UnknownOutpoint_outpoint));
                        lemma_first_unknown_in_stays(m.utxos, txs@, t + 1, n as int);
                    }
                    return Err(e);
                },
            }
            t += 1;
        }
        t = 0;
        while t < n
            invariant
                txs@ == body.transactions@,
                m == self@,
                n == txs@.len() == spent_all@.len(),
                0 <= t <= n,
                first_unknown_in(m.utxos, txs@, n as int) is None,
                first_authorization_error_in(m.utxos, txs@, t as int) is None,
                forall|k: int|
                    0 <= k < n ==> (#[trigger] spent_all@[k])@ == spent_outputs(m.utxos, txs@[k].inputs@),
            decreases n - t,
        {
            assert(spent_all@[t as int]@ == spent_outputs(m.utxos, txs@[t as int].inputs@));
            if let Err(e) = verify_authorizations(&txs[t], &spent_all[t]) {
                proof {
                    lemma_first_authorization_error_in_stays(m.utxos, txs@, t + 1, n as int);
                }
                return Err(Error::Authorization(e));
            }
            t += 1;
        }
        let mut fees: Vec<u64> = Vec::new();
        t = 0;
        while t < n
            invariant
                txs@ == body.transactions@,
                self.wf(),
                m == self@,
                n == txs@.len() == spent_all@.len(),
                0 <= t <= n,
                first_unknown_in(m.utxos, txs@, n as int) is None,
                first_authorization_error_in(m.utxos, txs@, n as int) is None,
                first_pure_error_in(m, block_height, txs@, t as int) is None,
                forall|k: int|
                    0 <= k < n ==> (#[trigger] spent_all@[k])@ == spent_outputs(m.utxos, txs@[k].inputs@),
                fees@.len() == t,
                forall|k: int|
                    0 <= k < t ==> fee_in(m.utxos, txs@[k]) == Ok::<u64, UtxoError>(#[trigger] fees@[k]),
            decreases n - t,
        {
            assert(spent_all@[t as int]@ == spent_outputs(m.utxos, txs@[t as int].inputs@));
            if let Err(e) = self.validate_transaction_pure(&spent_all[t], block_height, &txs[t]) {
                proof {
                    lemma_first_pure_error_in_stays(m, block_height, txs@, t + 1, n as int);
                }
                return Err(e);
            }
            // The transaction's own validation included its fee.
            match validate_transaction_fee(&spent_all[t], &txs[t]) {
                Ok(f) => fees.push(f),
                Err(e) => {
                    return Err(Error::Utxo(e));
                },
            }
            t += 1;
        }
        let mut inputs: Vec<OutPoint> = Vec::new();
        t = 0;
        while t < n
            invariant
                txs@ == body.transactions@,
                m == self@,
                n == txs@.len() == fees@.len(),
                0 <= t <= n,
                inputs@ == body_inputs(txs@, t as int),
                first_unknown_in(m.utxos, txs@, n as int) is None,
                first_authorization_error_in(m.utxos, txs@, n as int) is None,
                first_pure_error_in(m, block_height, txs@, n as int) is None,
                forall|k: int|
                    0 <= k < n ==> fee_in(m.utxos, txs@[k]) == Ok::<u64, UtxoError>(#[trigger] fees@[k]),
            decreases n - t,
        {
            let tx_inputs = &txs[t].inputs;
            let mut i: usize = 0;
            while i < tx_inputs.len()
                invariant
                txs@ == body.transactions@,
                    n == txs@.len(),
                    0 <= t < n,
                    tx_inputs@ == txs@[t as int].inputs@,
                    0 <= i <= tx_inputs@.len(),
                    inputs@ == body_inputs(txs@, t as int) + tx_inputs@.take(i as int),
                decreases tx_inputs@.len() - i,
            {
                inputs.push(tx_inputs[i]);
                assert(inputs@ =~= body_inputs(txs@, t as int) + tx_inputs@.take(i + 1));
                i += 1;
            }
            assert(tx_inputs@.take(tx_inputs@.len() as int) =~= tx_inputs@);
            t += 1;
        }
        assert(inputs@ == body_inputs(txs@, n as int));
        if let Some(o) = find_duplicate(&inputs) {
            return Err(Error::Utxo(UtxoError::DoubleSpend { outpoint: o }));
        }
        let mut total: u128 = 0;
        t = 0;
        while t < n
            invariant
                txs@ == body.transactions@,
                n == txs@.len() == fees@.len(),
                0 <= t <= n,
                forall|k: int|
                    0 <= k < n ==> fee_in(m.utxos, txs@[k]) == Ok::<u64, UtxoError>(#[trigger] fees@[k]),
                m == self@,
                total == body_fee(m.utxos, txs@, t as int),
                total <= u64::MAX,
                first_unknown_in(m.utxos, txs@, n as int) is None,
                first_authorization_error_in(m.utxos, txs@, n as int) is None,
                first_pure_error_in(m, block_height, txs@, n as int) is None,
                first_duplicate(body_inputs(txs@, n as int), body_inputs(txs@, n as int).len() as int) is None,
            decreases n - t,
        {
            assert(fee_in(m.utxos, txs@[t as int]) == Ok::<u64, UtxoError>(fees@[t as int]));
            total = total + fees[t] as u128;
            if total > u64::MAX as u128 {
                proof {
                    lemma_body_fee_grows(m.utxos, txs@, t + 1, n as int);
                }
                return Err(Error::Utxo(UtxoError::ValueOverflow));
            }
            t += 1;
        }
        Ok(total as u64)
    }

    /// Adds output `vout` of the transaction `txid`, recording what it
    /// commits to or reveals.
    fn add_output(&mut self, txid: Txid, vout: u32, output: Output, height: u32)
        requires
            old(self).wf(),
        ensures
            final(self).wf(),
            final(self)@ == add_output(old(self)@, txid, vout, output, height),
    {
        let outpoint = OutPoint::Regular { txid, vout };
        self.utxos.insert(outpoint, output);
        match output.content {
            Content::Custom(BitNamesOutput::Commitment(c)) => {
                self.commitment_to_height.insert(c, height);
                self.commitment_to_outpoint.insert(c, outpoint);
            },
            Content::Custom(BitNamesOutput::Reveal { salt, key, value }) => {
                let c = blake2b_hmac(&key, salt);
                self.key_to_commitment.insert(key, c);
                self.commitment_to_key.insert(c, key);
                self.key_to_value.insert(key, Some(value));
            },
            Content::Value(_) => {},
        }
    }

    /// Spends the inputs of `tx` and adds its outputs.
    fn apply_transaction(&mut self, tx: &Transaction, height: u32)
        requires
            old(self).wf(),
        ensures
            final(self).wf(),
            final(self)@ == apply_transaction(old(self)@, *tx, height),
    {
        let ghost m0 = self@;
        proof {
            assert(tx.inputs@.take(0).to_set() =~= Set::<OutPoint>::empty());
            assert(m0.utxos.remove_keys(Set::<OutPoint>::empty()) =~= m0.utxos);
        }
        let mut i: usize = 0;
        while i < tx.inputs.len()
            invariant
                self.wf(),
                0 <= i <= tx.inputs@.len(),
                self@ == (Model { utxos: m0.utxos.remove_keys(tx.inputs@.take(i as int).to_set()), ..m0 }),
            decreases tx.inputs@.len() - i,
        {
            self.utxos.remove(&tx.inputs[i]);
            proof {
                lemma_take_to_set(tx.inputs@, i as int);
                lemma_remove_keys_insert(m0.utxos, tx.inputs@.take(i as int).to_set(), tx.inputs@[i as int]);
            }
            i += 1;
        }
        assert(tx.inputs@.take(tx.inputs@.len() as int) =~= tx.inputs@);
        let ghost m1 = self@;
        let txid = tx.txid();
        let mut vout: usize = 0;
        while vout < tx.outputs.len()
            invariant
                self.wf(),
                0 <= vout <= tx.outputs@.len(),
                txid == txid_of(*tx),
                self@ == add_outputs(m1, txid, tx.outputs@, height, vout as int),
            decreases tx.outputs@.len() - vout,
        {
            self.add_output(txid, #[verifier::truncate] (vout as u32), tx.outputs[vout], height);
            vout += 1;
        }
    }

    /// Removes the commitments older than the window allows at the best
    /// height, with their outputs and their links to keys.
    fn sweep_expired(&mut self)
        requires
            old(self).wf(),
        ensures
            final(self).wf(),
            final(self)@ == sweep_with(old(self)@, expired_commitments(old(self)@)),
    {
        let ghost m0 = self@;
        let best = self.best_block_height;
        let keys = self.commitment_to_height.keys();
        let mut expired: Vec<Commitment> = Vec::new();
        let mut i: usize = 0;
        while i < keys.len()
            invariant
                self.wf(),
                m0 == self@,
                best == m0.best_block_height,
                keys@.no_duplicates(),
                forall|c: Commitment| #[trigger] m0.commitment_height.contains_key(c) <==> keys@.contains(c),
                0 <= i <= keys@.len(),
                expired@.no_duplicates(),
                forall|c: Commitment|
                    #[trigger] expired@.contains(c) <==> (keys@.take(i as int).contains(c)
                        && is_expired(m0, c)),
            decreases keys@.len() - i,
        {
            let c = keys[i];
            proof {
                assert(!keys@.take(i as int).contains(c)) by {
                    if keys@.take(i as int).contains(c) {
                        let j = choose|j: int| 0 <= j < i && #[trigger] keys@.take(i as int)[j] == c;
                        assert(keys@[j] == keys@[i as int]);
                    }
                }
            }
            proof {
                assert forall|d: Commitment|
                    keys@.take(i + 1).contains(d) <==> (keys@.take(i as int).contains(d) || d == c) by {
                    if keys@.take(i + 1).contains(d) {
                        let j = choose|j: int| 0 <= j < i + 1 && #[trigger] keys@.take(i + 1)[j] == d;
                        if j < i {
                            assert(keys@.take(i as int)[j] == d);
                        }
                    }
                    if keys@.take(i as int).contains(d) {
                        let j = choose|j: int| 0 <= j < i && #[trigger] keys@.take(i as int)[j] == d;
                        assert(keys@.take(i + 1)[j] == d);
                    }
                    if d == c {
                        assert(keys@.take(i + 1)[i as int] == d);
                    }
                }
            }
            let is_old = match self.commitment_to_height.get(&c) {
                Some(h) => h < best && best - h > COMMITMENT_MAX_AGE,
                None => false,
            };
            assert(is_old == is_expired(m0, c));
            let ghost before = expired@;
            if is_old {
                expired.push(c);
                proof {
                    assert forall|d: Commitment| expired@.contains(d) <==> (before.contains(d) || d == c) by {
                        if expired@.contains(d) {
                            let k = choose|k: int| 0 <= k < expired@.len() && #[trigger] expired@[k] == d;
                            if k < before.len() {
                                assert(before[k] == d);
                            }
                        }
                        if before.contains(d) {
                            let k = choose|k: int| 0 <= k < before.len() && #[trigger] before[k] == d;
                            assert(expired@[k] == d);
                        }
                        if d == c {
                            assert(expired@[before.len() as int] == d);
                        }
                    }
                    assert forall|x: int, y: int| 0 <= x < y < expired@.len() implies expired@[x] != expired@[y] by {
                        if y == before.len() {
                            assert(before[x] == expired@[x]);
                            assert(before.contains(before[x]));
                        }
                    }
                }
            }
            proof {
                assert forall|d: Commitment|
                    #[trigger] expired@.contains(d) <==> (keys@.take(i + 1).contains(d)
                        && is_expired(m0, d)) by {
                    assert(before.contains(d) <==> (keys@.take(i as int).contains(d) && is_expired(m0, d)));
                }
            }
            i += 1;
        }
        assert(keys@.take(keys@.len() as int) =~= keys@);
        assert(expired@.to_set() =~= expired_commitments(m0));
        proof {
            let e = expired@.take(0).to_set();
            assert(e =~= Set::<Commitment>::empty());
            assert(swept_outpoints(m0, e) =~= Set::<OutPoint>::empty());
            assert(swept_keys(m0, e) =~= Set::<Key>::empty());
            assert(m0.utxos.remove_keys(Set::<OutPoint>::empty()) =~= m0.utxos);
            assert(m0.key_commitment.remove_keys(Set::<Key>::empty()) =~= m0.key_commitment);
            assert(m0.commitment_height.remove_keys(e) =~= m0.commitment_height);
            assert(m0.commitment_outpoint.remove_keys(e) =~= m0.commitment_outpoint);
            assert(m0.commitment_key.remove_keys(e) =~= m0.commitment_key);
        }
        let mut j: usize = 0;
        while j < expired.len()
            invariant
                self.wf(),
                expired@.no_duplicates(),
                0 <= j <= expired@.len(),
                self@ == sweep_with(m0, expired@.take(j as int).to_set()),
            decreases expired@.len() - j,
        {
            let c = expired[j];
            proof {
                lemma_take_to_set(expired@, j as int);
                assert(!expired@.take(j as int).to_set().contains(c)) by {
                    if expired@.take(j as int).contains(c) {
                        let k = choose|k: int| 0 <= k < j && #[trigger] expired@.take(j as int)[k] == c;
                        assert(expired@[k] == expired@[j as int]);
                    }
                }
                lemma_sweep_step(m0, expired@.take(j as int).to_set(), c);
            }
            if let Some(k) = self.commitment_to_key.get(&c) {
                self.key_to_commitment.remove(&k);
            }
            self.commitment_to_key.remove(&c);
            if let Some(o) = self.commitment_to_outpoint.get(&c) {
                self.utxos.remove(&o);
            }
            self.commitment_to_height.remove(&c);
            self.commitment_to_outpoint.remove(&c);
            j += 1;
        }
        assert(expired@.take(expired@.len() as int) =~= expired@);
    }

    /// Validates `body` as the next block and, if it is valid, applies it:
    /// the height advances, each transaction spends its inputs and adds its
    /// outputs in order, and expired commitments are swept. On failure the
    /// state is left as it was.
    pub fn connect_body(&mut self, body: &Body) -> (r: Result<(), Error>)
        requires
            old(self).wf(),
            old(self).best_block_height < u32::MAX,
        ensures
            final(self).wf(),
            match body_result(old(self)@, (old(self).best_block_height + 1) as u32, *body) {
                Ok(_) => r is Ok && final(self)@ == connect_result(old(self)@, *body),
                Err(e) => r == Err::<(), Error>(e) && final(self)@ == old(self)@,
            },
    {
        let height = self.best_block_height + 1;
        if let Err(e) = self.validate_body(height, body) {
            return Err(e);
        }
        self.best_block_height = height;
        let ghost m1 = self@;
        let n = body.transactions.len();
        let mut t: usize = 0;
        while t < n
            invariant
                self.wf(),
                n == body.transactions@.len(),
                0 <= t <= n,
                self@ == apply_transactions(m1, body.transactions@, height, t as int),
            decreases n - t,
        {
            self.apply_transaction(&body.transactions[t], height);
            t += 1;
        }
        self.sweep_expired();
        Ok(())
    }

    /// Adds outputs that enter from outside the chain, in order.
    pub fn connect_deposits(&mut self, deposits: &Vec<(OutPoint, Output)>)
        requires
            old(self).wf(),
        ensures
            final(self).wf(),
            final(self)@ == (Model {
                utxos: add_deposits(old(self)@.utxos, deposits@, deposits@.len() as int),
                ..old(self)@
            }),
    {
        let ghost m0 = self@;
        let mut i: usize = 0;
        while i < deposits.len()
            invariant
                self.wf(),
                0 <= i <= deposits@.len(),
                self@ == (Model { utxos: add_deposits(m0.utxos, deposits@, i as int), ..m0 }),
            decreases deposits@.len() - i,
        {
            let (outpoint, output) = deposits[i];
            self.utxos.insert(outpoint, output);
            i += 1;
        }
    }
}

} // verus!
