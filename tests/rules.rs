use bitnames::authorization::{authorize_transaction, verify_authorizations, AuthorizationError, Keypair};
use bitnames::hashes::{blake2b_hmac, Commitment, Key, Value};
use bitnames::nameserver::hash_text;
use bitnames::types::{get_address, Address, Body, Content, OutPoint, Output, Transaction, Txid};
use bitnames::validation::{validate_transaction_fee, BitNamesState, Error, UtxoError};

fn keypair(n: u8) -> Keypair {
    Keypair::from_secret([n; 32])
}

fn value_output(owner: u8, value: u64) -> Output {
    Output { address: keypair(owner).address(), content: Content::Value(value) }
}

fn deposit(n: u8) -> OutPoint {
    OutPoint::Deposit { id: [n; 32] }
}

fn state() -> BitNamesState {
    let mut state = BitNamesState::new();
    state.connect_deposits(&vec![(deposit(1), value_output(0, 100)), (deposit(2), value_output(1, 50))]);
    state
}

fn sign(state: &BitNamesState, inputs: Vec<OutPoint>, outputs: Vec<Output>) -> Transaction {
    let spent: Vec<Output> = inputs.iter().map(|o| state.get_utxo(o).unwrap()).collect();
    let keypairs: Vec<Keypair> = (0u8..3).map(keypair).collect();
    authorize_transaction(&keypairs, &spent, Transaction { inputs, outputs, authorizations: vec![] })
}

fn hex(s: &str) -> [u8; 32] {
    let mut out = [0u8; 32];
    for i in 0..32 {
        out[i] = u8::from_str_radix(&s[2 * i..2 * i + 2], 16).unwrap();
    }
    out
}

#[test]
fn text_hash_exact_value() {
    assert_eq!(
        hash_text("nytimes.com"),
        hex("5159273e0145eeabef9f67142f35e0ec5315b3ee98dc7f165e6d6ab5070b14ad")
    );
    assert_eq!(
        hash_text("151.101.193.164"),
        hex("6867e8e6a25e12880cf3fe9eac90987f8b45064a447803ed4293a18f63cdf8cc")
    );
}

#[test]
fn commitment_exact_value() {
    let key = Key(hash_text("nytimes.com"));
    assert_eq!(
        blake2b_hmac(&key, 7).to_hex_string(),
        "2d1a1d1a07da0e6f6f83609979585cba38e652ade3f0bf9d321d9959e010bdec"
    );
}

#[test]
fn commitment_is_deterministic_and_depends_on_both_inputs() {
    let key = Key(hash_text("nytimes.com"));
    let other = Key(hash_text("NyTimes.com"));
    assert_eq!(blake2b_hmac(&key, 7), blake2b_hmac(&key, 7));
    assert_ne!(blake2b_hmac(&key, 7), blake2b_hmac(&key, 8));
    assert_ne!(blake2b_hmac(&key, 7), blake2b_hmac(&other, 7));
    assert_ne!(blake2b_hmac(&key, 7).0, key.0);
}

#[test]
fn hex_strings() {
    assert_eq!(Key([0xab; 32]).to_hex_string(), "ab".repeat(32));
    assert_eq!(Value([0x0f; 32]).to_hex_string(), "0f".repeat(32));
    assert_eq!(Commitment([0x10; 32]).to_hex_string(), "10".repeat(32));
}

#[test]
fn hash_conversions() {
    let h = [3u8; 32];
    assert_eq!(Key::from(h), Key(h));
    assert_eq!(<[u8; 32]>::from(Value::from(h)), h);
    assert_eq!(<[u8; 32]>::from(Commitment::from(h)), h);
}

#[test]
fn txid_exact_value() {
    let tx = Transaction {
        inputs: vec![OutPoint::Deposit { id: [5; 32] }],
        outputs: vec![Output { address: Address([9; 32]), content: Content::Value(42) }],
        authorizations: vec![],
    };
    assert_eq!(tx.txid(), Txid(hex("023b817125444f4ea7f258b520541d4b4a2cad32e72fd3ba4f5833eb28e7c4c0")));
    // Without authorizations the signing message is the txid.
    assert_eq!(tx.sig_message(), tx.txid().0);
    let mut bytes = vec![1u8, 0, 0, 0, 0, 0, 0, 0, 1];
    bytes.extend_from_slice(&[5; 32]);
    assert_eq!(&tx.encode()[..41], &bytes[..]);
}

#[test]
fn address_exact_value() {
    assert_eq!(
        get_address(&[7; 32]),
        Address(hex("17cdc7bca3f2a0bda60c6de5b96f82a36239b44bde397a3862d529ba8b3d7c62"))
    );
}

#[test]
fn signed_transaction_verifies() {
    let state = state();
    let tx = sign(&state, vec![deposit(1), deposit(2)], vec![value_output(2, 140)]);
    assert_eq!(tx.authorizations.len(), 2);
    assert_eq!(tx.authorizations[0].public_key, keypair(0).public_key());
    assert_eq!(tx.authorizations[1].public_key, keypair(1).public_key());
    let spent = vec![value_output(0, 100), value_output(1, 50)];
    assert_eq!(verify_authorizations(&tx, &spent), Ok(()));
    assert_eq!(state.validate_transaction(&tx), Ok(10));
}

#[test]
fn flipped_signature_bit_fails_to_connect() {
    let mut state = state();
    let mut tx = sign(&state, vec![deposit(1)], vec![value_output(2, 90)]);
    tx.authorizations[0].signature[3] ^= 1;
    let r = state.connect_body(&Body::new(vec![tx], vec![]));
    assert_eq!(r, Err(Error::Authorization(AuthorizationError::BadSignature)));
    assert_eq!(state.best_block_height, 0);
    assert!(state.get_utxo(&deposit(1)).is_some());
}

#[test]
fn missing_signature() {
    let mut state = state();
    let tx = Transaction { inputs: vec![deposit(1)], outputs: vec![value_output(2, 90)], authorizations: vec![] };
    let r = state.connect_body(&Body::new(vec![tx], vec![]));
    assert_eq!(r, Err(Error::Authorization(AuthorizationError::MissingSignature)));
}

#[test]
fn wrong_address() {
    let mut state = state();
    let mut tx = sign(&state, vec![deposit(1)], vec![value_output(2, 90)]);
    let other = sign(&state, vec![deposit(2)], vec![value_output(2, 40)]);
    tx.authorizations[0] = other.authorizations[0];
    let r = state.connect_body(&Body::new(vec![tx], vec![]));
    assert_eq!(r, Err(Error::Authorization(AuthorizationError::WrongAddress)));
}

#[test]
fn not_balanced() {
    let state = state();
    let tx = sign(&state, vec![deposit(1)], vec![value_output(2, 60), value_output(2, 41)]);
    assert_eq!(
        state.validate_transaction(&tx),
        Err(Error::Utxo(UtxoError::NotBalanced { value_in: 100, value_out: 101 }))
    );
    let tx = sign(&state, vec![deposit(1)], vec![value_output(2, 100)]);
    assert_eq!(state.validate_transaction(&tx), Ok(0));
}

#[test]
fn double_spend_in_transaction() {
    let state = state();
    let tx = sign(&state, vec![deposit(1), deposit(1)], vec![value_output(2, 10)]);
    assert_eq!(
        state.validate_transaction(&tx),
        Err(Error::Utxo(UtxoError::DoubleSpend { outpoint: deposit(1) }))
    );
}

#[test]
fn double_spend_in_body() {
    let mut state = state();
    let a = sign(&state, vec![deposit(1)], vec![value_output(2, 10)]);
    let b = sign(&state, vec![deposit(1)], vec![value_output(2, 20)]);
    let body = Body::new(vec![a, b], vec![]);
    assert_eq!(
        state.validate_body(1, &body),
        Err(Error::Utxo(UtxoError::DoubleSpend { outpoint: deposit(1) }))
    );
    assert_eq!(
        state.connect_body(&body),
        Err(Error::Utxo(UtxoError::DoubleSpend { outpoint: deposit(1) }))
    );
    assert!(state.get_utxo(&deposit(1)).is_some());
}

#[test]
fn unknown_outpoint() {
    let state = state();
    let tx = Transaction { inputs: vec![deposit(9)], outputs: vec![], authorizations: vec![] };
    assert_eq!(
        state.validate_transaction(&tx),
        Err(Error::Utxo(UtxoError::UnknownOutpoint { outpoint: deposit(9) }))
    );
}

#[test]
fn body_fee_and_outputs() {
    let mut state = state();
    let a = sign(&state, vec![deposit(1)], vec![value_output(2, 93)]);
    let b = sign(&state, vec![deposit(2)], vec![value_output(2, 45), value_output(0, 1)]);
    let txid_b = b.txid();
    let body = Body::new(vec![a, b], vec![]);
    assert_eq!(state.validate_body(1, &body), Ok(11));
    assert_eq!(state.connect_body(&body), Ok(()));
    assert_eq!(state.best_block_height, 1);
    assert_eq!(state.get_utxo(&deposit(1)), None);
    assert_eq!(state.get_utxo(&OutPoint::Regular { txid: txid_b, vout: 1 }), Some(value_output(0, 1)));
}

#[test]
fn empty_transaction_and_body() {
    let spent: Vec<Output> = vec![];
    let tx = Transaction { inputs: vec![], outputs: vec![], authorizations: vec![] };
    assert_eq!(validate_transaction_fee(&spent, &tx), Ok(0));
    let mut state = state();
    assert_eq!(state.validate_body(1, &Body::new(vec![], vec![])), Ok(0));
    assert_eq!(state.connect_body(&Body::new(vec![], vec![])), Ok(()));
    assert_eq!(state.best_block_height, 1);
}

#[test]
fn largest_values_overflow_the_fee() {
    let spent = vec![value_output(0, u64::MAX), value_output(0, u64::MAX)];
    let tx = Transaction { inputs: vec![deposit(1), deposit(2)], outputs: vec![value_output(0, 1)], authorizations: vec![] };
    assert_eq!(validate_transaction_fee(&spent, &tx), Err(UtxoError::ValueOverflow));
    let tx = Transaction {
        inputs: vec![deposit(1), deposit(2)],
        outputs: vec![value_output(0, u64::MAX)],
        authorizations: vec![],
    };
    assert_eq!(validate_transaction_fee(&spent, &tx), Ok(u64::MAX));
}
