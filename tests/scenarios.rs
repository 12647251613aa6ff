use bitnames::authorization::{authorize_transaction, Keypair};
use bitnames::hashes::{blake2b_hmac, Key, Value};
use bitnames::nameserver::{hash_text, NameServer, ResolverError};
use bitnames::types::{Address, BitNamesOutput, Body, Content, OutPoint, Output, Transaction};
use bitnames::validation::{BitNamesError, BitNamesState, Error, UtxoError};

fn keypair(n: u8) -> Keypair {
    Keypair::from_secret([n; 32])
}

fn address(n: u8) -> Address {
    keypair(n).address()
}

fn deposit_outpoint(n: u8) -> OutPoint {
    OutPoint::Deposit { id: [n; 32] }
}

fn name_key(name: &str) -> Key {
    Key(hash_text(name))
}

fn name_value(value: &str) -> Value {
    Value(hash_text(value))
}

/// A state with one deposit of `value` owned by keypair `owner` per entry.
fn state_with_deposits(deposits: &[(u8, u8, u64)]) -> BitNamesState {
    let mut state = BitNamesState::new();
    let list: Vec<(OutPoint, Output)> = deposits
        .iter()
        .map(|(id, owner, value)| {
            (
                deposit_outpoint(*id),
                Output { address: address(*owner), content: Content::Value(*value) },
            )
        })
        .collect();
    state.connect_deposits(&list);
    state
}

fn keypairs() -> Vec<Keypair> {
    (0u8..6).map(keypair).collect()
}

fn signed(state: &BitNamesState, inputs: Vec<OutPoint>, outputs: Vec<Output>) -> Transaction {
    let spent: Vec<Output> = inputs.iter().map(|o| state.get_utxo(o).unwrap()).collect();
    let tx = Transaction { inputs, outputs, authorizations: vec![] };
    authorize_transaction(&keypairs(), &spent, tx)
}

fn commitment_output(owner: u8, key: &Key, salt: u64) -> Output {
    Output {
        address: address(owner),
        content: Content::Custom(BitNamesOutput::Commitment(blake2b_hmac(key, salt))),
    }
}

fn reveal_output(owner: u8, key: Key, salt: u64, value: Value) -> Output {
    Output { address: address(owner), content: Content::Custom(BitNamesOutput::Reveal { salt, key, value }) }
}

fn connect(state: &mut BitNamesState, txs: Vec<Transaction>) -> Result<(), Error> {
    state.connect_body(&Body::new(txs, vec![]))
}

/// Commits to `key` under `salt` in the next block, spending deposit `id`;
/// returns the outpoint of the commitment output.
fn commit_block(state: &mut BitNamesState, id: u8, key: &Key, salt: u64) -> OutPoint {
    let tx = signed(
        state,
        vec![deposit_outpoint(id)],
        vec![
            Output { address: address(0), content: Content::Value(90) },
            commitment_output(1, key, salt),
        ],
    );
    let txid = tx.txid();
    connect(state, vec![tx]).unwrap();
    OutPoint::Regular { txid, vout: 1 }
}

#[test]
fn commit_then_reveal_next_block() {
    let mut state = state_with_deposits(&[(1, 0, 100)]);
    let key = name_key("nytimes.com");
    let value = name_value("151.101.193.164");
    let commitment = commit_block(&mut state, 1, &key, 7);
    assert_eq!(state.best_block_height, 1);
    let reveal = signed(&state, vec![commitment], vec![reveal_output(2, key, 7, value)]);
    connect(&mut state, vec![reveal]).unwrap();
    assert_eq!(state.best_block_height, 2);
    assert_eq!(state.get_value(&key), Some(Some(value)));
    assert_eq!(state.get_utxo(&commitment), None);
}

#[test]
fn reveal_in_same_block_as_commitment_fails() {
    let mut state = state_with_deposits(&[(1, 0, 100)]);
    let key = name_key("nytimes.com");
    let value = name_value("151.101.193.164");
    let commit_tx = signed(
        &state,
        vec![deposit_outpoint(1)],
        vec![
            Output { address: address(0), content: Content::Value(90) },
            commitment_output(1, &key, 7),
        ],
    );
    let commitment = OutPoint::Regular { txid: commit_tx.txid(), vout: 1 };
    let reveal = Transaction {
        inputs: vec![commitment],
        outputs: vec![reveal_output(2, key, 7, value)],
        authorizations: vec![],
    };
    let r = connect(&mut state, vec![commit_tx, reveal]);
    assert_eq!(r, Err(Error::Utxo(UtxoError::UnknownOutpoint { outpoint: commitment })));
    assert_eq!(state.best_block_height, 0);
    assert_eq!(state.get_value(&key), None);
}

#[test]
fn reveal_too_late() {
    let mut state = state_with_deposits(&[(1, 0, 100)]);
    let key = name_key("nytimes.com");
    let value = name_value("151.101.193.164");
    let commitment = commit_block(&mut state, 1, &key, 7);
    connect(&mut state, vec![]).unwrap();
    // The commitment output still stands at the start of block three.
    assert!(state.get_utxo(&commitment).is_some());
    let reveal = signed(&state, vec![commitment], vec![reveal_output(2, key, 7, value)]);
    let r = connect(&mut state, vec![reveal]);
    assert_eq!(
        r,
        Err(Error::BitNames(BitNamesError::RevealTooLate {
            commitment: blake2b_hmac(&key, 7),
            late_by: 1,
        }))
    );
    assert_eq!(state.best_block_height, 2);
}

#[test]
fn competing_claims_older_wins() {
    let mut state = state_with_deposits(&[(1, 0, 100), (2, 0, 100)]);
    let key = name_key("nytimes.com");
    let first = name_value("151.101.193.164");
    let second = name_value("1.2.3.4");
    // Block 1: commitment A.
    let a = commit_block(&mut state, 1, &key, 1);
    // Block 2: commitment B, and the reveal of A.
    let commit_b = signed(
        &state,
        vec![deposit_outpoint(2)],
        vec![
            Output { address: address(0), content: Content::Value(90) },
            commitment_output(1, &key, 2),
        ],
    );
    let b = OutPoint::Regular { txid: commit_b.txid(), vout: 1 };
    let reveal_a = signed(&state, vec![a], vec![reveal_output(2, key, 1, first)]);
    connect(&mut state, vec![commit_b, reveal_a]).unwrap();
    assert_eq!(state.get_value(&key), Some(Some(first)));
    // Block 3: the reveal of the younger commitment B is rejected.
    let reveal_b = signed(&state, vec![b], vec![reveal_output(2, key, 2, second)]);
    let r = state.validate_transaction(&reveal_b);
    assert_eq!(
        r,
        Err(Error::BitNames(BitNamesError::KeyAlreadyRegistered {
            key,
            prev_commitment_height: 1,
            commitment_height: 2,
        }))
    );
    let r = connect(&mut state, vec![reveal_b.clone()]);
    assert!(matches!(r, Err(Error::BitNames(BitNamesError::KeyAlreadyRegistered { .. }))));
    assert_eq!(state.get_value(&key), Some(Some(first)));
    // Block 4: B's window has closed.
    connect(&mut state, vec![]).unwrap();
    let r = connect(&mut state, vec![reveal_b]);
    assert_eq!(
        r,
        Err(Error::BitNames(BitNamesError::RevealTooLate {
            commitment: blake2b_hmac(&key, 2),
            late_by: 1,
        }))
    );
}

#[test]
fn wrong_preimage_fails() {
    let mut state = state_with_deposits(&[(1, 0, 100)]);
    let key = name_key("nytimes.com");
    let wrong_key = name_key("NyTimes.com");
    let value = name_value("151.101.193.164");
    let commitment = commit_block(&mut state, 1, &key, 7);
    let reveal = signed(&state, vec![commitment], vec![reveal_output(2, wrong_key, 7, value)]);
    let r = connect(&mut state, vec![reveal]);
    assert_eq!(
        r,
        Err(Error::BitNames(BitNamesError::InvalidNameCommitment {
            key: wrong_key,
            salt: 7,
            commitment: blake2b_hmac(&wrong_key, 7),
        }))
    );
    let reveal = signed(&state, vec![commitment], vec![reveal_output(2, key, 8, value)]);
    assert!(matches!(
        state.validate_transaction(&reveal),
        Err(Error::BitNames(BitNamesError::InvalidNameCommitment { salt: 8, .. }))
    ));
}

#[test]
fn resolver_mismatch() {
    let mut state = state_with_deposits(&[(1, 0, 100)]);
    let key = name_key("nytimes.com");
    let value = name_value("151.101.193.164");
    let commitment = commit_block(&mut state, 1, &key, 7);
    let reveal = signed(&state, vec![commitment], vec![reveal_output(2, key, 7, value)]);
    connect(&mut state, vec![reveal]).unwrap();
    let mut nameserver = NameServer::new();
    assert_eq!(nameserver.lookup(&state, "nytimes.com"), Err(ResolverError::NotStored));
    assert_eq!(
        nameserver.store(&state, "nytimes.com", "1.2.3.4"),
        Err(ResolverError::InvalidValue)
    );
    assert_eq!(nameserver.store(&state, "nytimes.com", "151.101.193.164"), Ok(()));
    assert_eq!(nameserver.lookup(&state, "nytimes.com"), Ok("151.101.193.164".to_string()));
    assert_eq!(nameserver.store(&state, "example.com", "1.2.3.4"), Err(ResolverError::NotRegistered));
    assert_eq!(nameserver.lookup(&state, "example.com"), Err(ResolverError::NotRegistered));
}

#[test]
fn expired_commitment_is_swept() {
    let mut state = state_with_deposits(&[(1, 0, 100)]);
    let key = name_key("nytimes.com");
    let commitment = commit_block(&mut state, 1, &key, 7);
    connect(&mut state, vec![]).unwrap();
    assert!(state.get_utxo(&commitment).is_some());
    assert_eq!(state.get_commitment_height(&blake2b_hmac(&key, 7)), Ok(1));
    connect(&mut state, vec![]).unwrap();
    assert_eq!(state.best_block_height, 3);
    assert_eq!(state.get_utxo(&commitment), None);
    assert_eq!(
        state.get_commitment_height(&blake2b_hmac(&key, 7)),
        Err(Error::BitNames(BitNamesError::CommitmentNotFound { commitment: blake2b_hmac(&key, 7) }))
    );
}

#[test]
fn binding_survives_expiry_of_its_commitment() {
    let mut state = state_with_deposits(&[(1, 0, 100)]);
    let key = name_key("nytimes.com");
    let value = name_value("151.101.193.164");
    let commitment = commit_block(&mut state, 1, &key, 7);
    let reveal = signed(&state, vec![commitment], vec![reveal_output(2, key, 7, value)]);
    connect(&mut state, vec![reveal]).unwrap();
    assert_eq!(state.get_key_height(&key), Ok(1));
    connect(&mut state, vec![]).unwrap();
    assert_eq!(state.get_value(&key), Some(Some(value)));
    assert_eq!(state.get_key_height(&key), Err(Error::BitNames(BitNamesError::KeyNotFound { key })));
}

#[test]
fn connecting_equal_states_gives_equal_results() {
    let run = || {
        let mut state = state_with_deposits(&[(1, 0, 100)]);
        let key = name_key("nytimes.com");
        let commitment = commit_block(&mut state, 1, &key, 7);
        let reveal = signed(&state, vec![commitment], vec![reveal_output(2, key, 7, name_value("x"))]);
        let r = connect(&mut state, vec![reveal]);
        (r, state.get_value(&key), state.get_utxo(&commitment), state.best_block_height)
    };
    assert_eq!(run(), run());
}
