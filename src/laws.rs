//! Properties of validation and connection, stated over the model and proved.

use vstd::prelude::*;
use crate::hashes::{Commitment, Key, Value, commitment_of};
use crate::types::{Body, BitNamesOutput, Content, Output, OutPoint, Transaction, Txid};
use crate::validation::{
    COMMITMENT_MAX_AGE, Model, add_output, add_outputs, apply_transactions,
    body_inputs, body_result, connect_result, expired_commitments, first_commitment_error,
    first_duplicate, first_pure_error_in, is_expired, pure_result, reveal_error, spent_outputs,
    spends_commitment, sum_values, swept_outpoints, transaction_fee,
};

verus! {

/// Validating and connecting a body depend on the state and the body alone:
/// equal states give equal outcomes.
pub proof fn lemma_connect_deterministic(m1: Model, m2: Model, body: Body)
    requires
        m1 == m2,
    ensures
        body_result(m1, (m1.best_block_height + 1) as u32, body) == body_result(
            m2,
            (m2.best_block_height + 1) as u32,
            body,
        ),
        connect_result(m1, body) == connect_result(m2, body),
{
}

/// A transaction that passes the rules for any transaction carries no more
/// value out than in, and its fee is the difference.
pub proof fn lemma_valid_transaction_balanced(spent: Seq<Output>, tx: Transaction)
    requires
        transaction_fee(spent, tx) is Ok,
    ensures
        sum_values(tx.outputs@) <= sum_values(spent),
        transaction_fee(spent, tx)->Ok_0 == sum_values(spent) - sum_values(tx.outputs@),
{
}

proof fn lemma_first_pure_error_in_none(m: Model, height: u32, txs: Seq<Transaction>, n: int, k: int)
    requires
        0 <= k < n,
        first_pure_error_in(m, height, txs, n) is None,
    ensures
        pure_result(m, spent_outputs(m.utxos, txs[k].inputs@), height, txs[k]) is Ok,
    decreases n,
{
    if k < n - 1 {
        lemma_first_pure_error_in_none(m, height, txs, n - 1, k);
    }
}

/// In a valid body every transaction carries no more value out than the
/// outputs it spends.
pub proof fn lemma_valid_body_balanced(m: Model, height: u32, body: Body, k: int)
    requires
        body_result(m, height, body) is Ok,
        0 <= k < body.transactions@.len(),
    ensures
        sum_values(body.transactions@[k].outputs@) <= sum_values(
            spent_outputs(m.utxos, body.transactions@[k].inputs@),
        ),
{
    let txs = body.transactions@;
    lemma_first_pure_error_in_none(m, height, txs, txs.len() as int, k);
}

proof fn lemma_first_duplicate_none(s: Seq<OutPoint>, n: int)
    requires
        0 <= n <= s.len(),
        first_duplicate(s, n) is None,
    ensures
        s.take(n).no_duplicates(),
    decreases n,
{
    if n > 0 {
        lemma_first_duplicate_none(s, n - 1);
        assert forall|i: int, j: int| 0 <= i < j < n implies s.take(n)[i] != s.take(n)[j] by {
            if j == n - 1 {
                assert(s.take(n - 1)[i] == s.take(n)[i]);
                if s.take(n)[i] == s.take(n)[j] {
                    assert(s.take(n - 1).contains(s[n - 1]));
                }
            } else {
                assert(s.take(n - 1)[i] == s.take(n)[i]);
                assert(s.take(n - 1)[j] == s.take(n)[j]);
            }
        }
    }
}

/// No output is spent twice in a valid body.
pub proof fn lemma_valid_body_no_double_spend(m: Model, height: u32, body: Body)
    requires
        body_result(m, height, body) is Ok,
    ensures
        body_inputs(body.transactions@, body.transactions@.len() as int).no_duplicates(),
{
    let s = body_inputs(body.transactions@, body.transactions@.len() as int);
    lemma_first_duplicate_none(s, s.len() as int);
    assert(s.take(s.len() as int) =~= s);
}

proof fn lemma_first_commitment_error_none(
    heights: Map<Commitment, u32>,
    spent: Seq<Output>,
    height: u32,
    n: int,
    i: int,
)
    requires
        0 <= i < n,
        first_commitment_error(heights, spent, height, n) is None,
    ensures
        match spent[i].content {
            Content::Custom(BitNamesOutput::Commitment(c)) => heights.contains_key(c) && height
                <= heights[c] + COMMITMENT_MAX_AGE,
            _ => true,
        },
    decreases n,
{
    if i < n - 1 {
        lemma_first_commitment_error_none(heights, spent, height, n - 1, i);
    }
}

/// A valid transaction spends only commitments that are recorded and whose
/// window is still open: the block is at most the window past the
/// commitment's own block.
pub proof fn lemma_commitment_window(m: Model, spent: Seq<Output>, height: u32, tx: Transaction, i: int)
    requires
        pure_result(m, spent, height, tx) is Ok,
        0 <= i < spent.len(),
    ensures
        match spent[i].content {
            Content::Custom(BitNamesOutput::Commitment(c)) => m.commitment_height.contains_key(c)
                && height <= m.commitment_height[c] + COMMITMENT_MAX_AGE,
            _ => true,
        },
{
    lemma_first_commitment_error_none(m.commitment_height, spent, height, spent.len() as int, i);
}

/// Where a key is bound through a recorded commitment, a reveal of it that
/// opens a spent, recorded commitment passes the naming check exactly when its
/// commitment is strictly older: younger and equally old claims are rejected.
pub proof fn lemma_tie_break(
    m: Model,
    spent: Seq<Output>,
    o: Output,
    salt: u64,
    key: Key,
    value: Value,
)
    requires
        o.content == Content::Custom(BitNamesOutput::Reveal { salt, key, value }),
        spends_commitment(spent, commitment_of(key, salt)),
        m.key_value.contains_key(key),
        m.key_commitment.contains_key(key),
        m.commitment_height.contains_key(m.key_commitment[key]),
        m.commitment_height.contains_key(commitment_of(key, salt)),
    ensures
        reveal_error(m, spent, o) is None <==> m.commitment_height[commitment_of(key, salt)]
            < m.commitment_height[m.key_commitment[key]],
{
}

/// Connecting a reveal binds its key to its value and to its commitment,
/// replacing any earlier binding.
pub proof fn lemma_reveal_binds(
    m: Model,
    txid: Txid,
    vout: u32,
    o: Output,
    height: u32,
    salt: u64,
    key: Key,
    value: Value,
)
    requires
        o.content == Content::Custom(BitNamesOutput::Reveal { salt, key, value }),
    ensures
        add_output(m, txid, vout, o, height).key_value[key] == Some(value),
        add_output(m, txid, vout, o, height).key_commitment[key] == commitment_of(key, salt),
        add_output(m, txid, vout, o, height).commitment_key[commitment_of(key, salt)] == key,
{
}

proof fn lemma_add_outputs_height(m: Model, txid: Txid, outputs: Seq<Output>, height: u32, n: int)
    ensures
        add_outputs(m, txid, outputs, height, n).best_block_height == m.best_block_height,
    decreases n,
{
    if n > 0 {
        lemma_add_outputs_height(m, txid, outputs, height, n - 1);
    }
}

proof fn lemma_apply_transactions_height(m: Model, txs: Seq<Transaction>, height: u32, n: int)
    ensures
        apply_transactions(m, txs, height, n).best_block_height == m.best_block_height,
    decreases n,
{
    if n > 0 {
        lemma_apply_transactions_height(m, txs, height, n - 1);
        let m1 = apply_transactions(m, txs, height, n - 1);
        let tx = txs[n - 1];
        lemma_add_outputs_height(
            Model { utxos: m1.utxos.remove_keys(tx.inputs@.to_set()), ..m1 },
            crate::types::txid_of(tx),
            tx.outputs@,
            height,
            tx.outputs@.len() as int,
        );
    }
}

/// After a body is connected, every recorded commitment is within its window
/// at the new height; each commitment that expired is gone from the
/// commitment tables, and its output from the unspent outputs.
pub proof fn lemma_expired_commitments_swept(m: Model, body: Body)
    ensures
        ({
            let r = connect_result(m, body);
            forall|c: Commitment|
                #[trigger] r.commitment_height.contains_key(c) ==> r.best_block_height as int
                    - r.commitment_height[c] as int <= COMMITMENT_MAX_AGE as int
        }),
        ({
            let height = (m.best_block_height + 1) as u32;
            let m1 = apply_transactions(
                Model { best_block_height: height, ..m },
                body.transactions@,
                height,
                body.transactions@.len() as int,
            );
            forall|c: Commitment|
                #[trigger] is_expired(m1, c) && m1.commitment_outpoint.contains_key(c)
                    ==> !connect_result(m, body).utxos.contains_key(m1.commitment_outpoint[c])
        }),
        ({
            let height = (m.best_block_height + 1) as u32;
            let m1 = apply_transactions(
                Model { best_block_height: height, ..m },
                body.transactions@,
                height,
                body.transactions@.len() as int,
            );
            let r = connect_result(m, body);
            forall|c: Commitment|
                #[trigger] is_expired(m1, c) ==> !r.commitment_height.contains_key(c)
                    && !r.commitment_outpoint.contains_key(c) && !r.commitment_key.contains_key(c)
        }),
{
    let height = (m.best_block_height + 1) as u32;
    let m0 = Model { best_block_height: height, ..m };
    let m1 = apply_transactions(m0, body.transactions@, height, body.transactions@.len() as int);
    lemma_apply_transactions_height(m0, body.transactions@, height, body.transactions@.len() as int);
    let r = connect_result(m, body);
    assert forall|c: Commitment| #[trigger] r.commitment_height.contains_key(c) implies r.best_block_height as int
        - r.commitment_height[c] as int <= COMMITMENT_MAX_AGE as int by {
        assert(!expired_commitments(m1).contains(c));
    }
    assert forall|c: Commitment| #[trigger] is_expired(m1, c) && m1.commitment_outpoint.contains_key(c) implies
        !r.utxos.contains_key(m1.commitment_outpoint[c]) by {
        assert(expired_commitments(m1).contains(c));
        assert(swept_outpoints(m1, expired_commitments(m1)).contains(m1.commitment_outpoint[c]));
    }
    assert forall|c: Commitment| #[trigger] is_expired(m1, c) implies !r.commitment_height.contains_key(c)
        && !r.commitment_outpoint.contains_key(c) && !r.commitment_key.contains_key(c) by {
        assert(expired_commitments(m1).contains(c));
    }
}

/// Every recorded commitment height is at most the best height.
pub open spec fn heights_bounded(m: Model) -> bool {
    forall|c: Commitment|
        #[trigger] m.commitment_height.contains_key(c) ==> m.commitment_height[c]
            <= m.best_block_height
}

proof fn lemma_add_outputs_heights(m: Model, txid: Txid, outputs: Seq<Output>, height: u32, n: int)
    requires
        forall|c: Commitment|
            #[trigger] m.commitment_height.contains_key(c) ==> m.commitment_height[c] <= height,
    ensures
        ({
            let r = add_outputs(m, txid, outputs, height, n);
            forall|c: Commitment|
                #[trigger] r.commitment_height.contains_key(c) ==> r.commitment_height[c] <= height
        }),
    decreases n,
{
    if n > 0 {
        lemma_add_outputs_heights(m, txid, outputs, height, n - 1);
        let p = add_outputs(m, txid, outputs, height, n - 1);
        let r = add_outputs(m, txid, outputs, height, n);
        assert forall|c: Commitment| #[trigger] r.commitment_height.contains_key(c) implies
            r.commitment_height[c] <= height by {
            match outputs[n - 1].content {
                Content::Custom(BitNamesOutput::Commitment(d)) => {
                    if c != d {
                        assert(p.commitment_height.contains_key(c));
                    }
                },
                _ => {
                    assert(p.commitment_height.contains_key(c));
                },
            }
        }
    }
}

proof fn lemma_apply_transactions_heights(m: Model, txs: Seq<Transaction>, height: u32, n: int)
    requires
        forall|c: Commitment|
            #[trigger] m.commitment_height.contains_key(c) ==> m.commitment_height[c] <= height,
    ensures
        ({
            let r = apply_transactions(m, txs, height, n);
            forall|c: Commitment|
                #[trigger] r.commitment_height.contains_key(c) ==> r.commitment_height[c] <= height
        }),
    decreases n,
{
    if n > 0 {
        lemma_apply_transactions_heights(m, txs, height, n - 1);
        let m1 = apply_transactions(m, txs, height, n - 1);
        let tx = txs[n - 1];
        lemma_add_outputs_heights(
            Model { utxos: m1.utxos.remove_keys(tx.inputs@.to_set()), ..m1 },
            crate::types::txid_of(tx),
            tx.outputs@,
            height,
            tx.outputs@.len() as int,
        );
    }
}

/// Connecting a body keeps every recorded commitment height at most the best
/// height.
pub proof fn lemma_connect_keeps_heights_bounded(m: Model, body: Body)
    requires
        heights_bounded(m),
        m.best_block_height < u32::MAX,
    ensures
        heights_bounded(connect_result(m, body)),
{
    let height = (m.best_block_height + 1) as u32;
    let m0 = Model { best_block_height: height, ..m };
    lemma_apply_transactions_heights(m0, body.transactions@, height, body.transactions@.len() as int);
    lemma_apply_transactions_height(m0, body.transactions@, height, body.transactions@.len() as int);
}

/// In a state whose commitment heights are bounded by its best height, a
/// transaction valid for the next block spends only commitments recorded in
/// an earlier block and at most the window before it.
pub proof fn lemma_reveal_window(m: Model, spent: Seq<Output>, tx: Transaction, i: int)
    requires
        heights_bounded(m),
        m.best_block_height < u32::MAX,
        pure_result(m, spent, (m.best_block_height + 1) as u32, tx) is Ok,
        0 <= i < spent.len(),
    ensures
        match spent[i].content {
            Content::Custom(BitNamesOutput::Commitment(c)) => m.commitment_height.contains_key(c)
                && m.commitment_height[c] < m.best_block_height + 1 <= m.commitment_height[c]
                + COMMITMENT_MAX_AGE,
            _ => true,
        },
{
    lemma_commitment_window(m, spent, (m.best_block_height + 1) as u32, tx, i);
}

/// Connecting a body advances the best height by one.
pub proof fn lemma_connect_advances_height(m: Model, body: Body)
    requires
        m.best_block_height < u32::MAX,
    ensures
        connect_result(m, body).best_block_height == m.best_block_height + 1,
{
    let height = (m.best_block_height + 1) as u32;
    let m0 = Model { best_block_height: height, ..m };
    lemma_apply_transactions_height(m0, body.transactions@, height, body.transactions@.len() as int);
}

/// The commitment to a key under a salt is a function of the two.
pub proof fn lemma_commitment_deterministic(k1: Key, s1: u64, k2: Key, s2: u64)
    requires
        k1 == k2,
        s1 == s2,
    ensures
        commitment_of(k1, s1) == commitment_of(k2, s2),
{
}

} // verus!
