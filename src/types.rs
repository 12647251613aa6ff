//! The transaction model: outpoints, outputs, transactions, bodies, and the
//! canonical byte format that txids and signatures bind to.
//!
//! Byte format: little-endian integers; sum types start with a one-byte
//! discriminant in declaration order; sequences start with a 64-bit
//! little-endian count.

use vstd::prelude::*;
use crate::hashes::{
    HashBytes, Key, Value, Commitment, hash_eq, blake2b_256, blake2b_256_of, spec_hash_of,
    lemma_spec_hash_of,
};

verus! {

/// The identifier of an owner: the content hash of an Ed25519 public key.
#[derive(Clone, Copy, PartialEq, Eq, Hash, Debug)]
pub struct Address(pub HashBytes);

/// The content hash of a transaction.
#[derive(Clone, Copy, PartialEq, Eq, Hash, Debug)]
pub struct Txid(pub HashBytes);

impl Address {
    pub fn same(&self, other: &Address) -> (r: bool)
        ensures
            r == (*self == *other),
    {
        hash_eq(&self.0, &other.0)
    }
}

/// A reference to an unspent output.
#[derive(Clone, Copy, PartialEq, Eq, Hash, Debug)]
pub enum OutPoint {
    /// The `vout`-th output of a transaction.
    Regular { txid: Txid, vout: u32 },
    /// An output that entered from outside the chain.
    Deposit { id: HashBytes },
}

impl OutPoint {
    pub fn same(&self, other: &OutPoint) -> (r: bool)
        ensures
            r == (*self == *other),
    {
        match (self, other) {
            (OutPoint::Regular { txid: a, vout: i }, OutPoint::Regular { txid: b, vout: j }) => {
                *i == *j && hash_eq(&a.0, &b.0)
            },
            (OutPoint::Deposit { id: a }, OutPoint::Deposit { id: b }) => hash_eq(a, b),
            _ => false,
        }
    }
}

/// The naming outputs.
#[derive(Clone, Copy, PartialEq, Eq, Hash, Debug)]
pub enum BitNamesOutput {
    /// Publishes a commitment to a (key, salt) pair.
    Commitment(Commitment),
    /// Claims `key` for `value` by disclosing the pair behind a commitment.
    Reveal { salt: u64, key: Key, value: Value },
}

impl BitNamesOutput {
    /// Naming outputs carry no monetary value.
    pub fn get_value(&self) -> (r: u64)
        ensures
            r == 0,
    {
        0
    }
}

/// What an output holds.
#[derive(Clone, Copy, PartialEq, Eq, Hash, Debug)]
pub enum Content {
    Value(u64),
    Custom(BitNamesOutput),
}

#[derive(Clone, Copy, PartialEq, Eq, Hash, Debug)]
pub struct Output {
    pub address: Address,
    pub content: Content,
}

/// The monetary value of an output: naming outputs carry none.
pub open spec fn value_of(o: Output) -> nat {
    match o.content {
        Content::Value(v) => v as nat,
        Content::Custom(_) => 0,
    }
}

impl Output {
    pub fn get_value(&self) -> (r: u64)
        ensures
            r == value_of(*self),
    {
        match self.content {
            Content::Value(v) => v,
            Content::Custom(_) => 0,
        }
    }

    pub fn get_address(&self) -> (r: Address)
        ensures
            r == self.address,
    {
        self.address
    }
}

/// A signature over a transaction, and the key that made it.
#[derive(Clone, Copy, PartialEq, Eq, Hash, Debug)]
pub struct Authorization {
    pub public_key: [u8; 32],
    pub signature: [u8; 64],
}

#[derive(Clone, PartialEq, Eq, Debug)]
pub struct Transaction {
    pub inputs: Vec<OutPoint>,
    pub outputs: Vec<Output>,
    pub authorizations: Vec<Authorization>,
}

/// The transaction-bearing content of a block.
#[derive(Clone, PartialEq, Eq, Debug)]
pub struct Body {
    pub transactions: Vec<Transaction>,
    pub coinbase: Vec<Output>,
}

impl Body {
    pub fn new(transactions: Vec<Transaction>, coinbase: Vec<Output>) -> (r: Body)
        ensures
            r.transactions@ == transactions@,
            r.coinbase@ == coinbase@,
    {
        Body { transactions, coinbase }
    }
}

pub open spec fn le_bytes_u64(x: u64) -> Seq<u8> {
    seq![
        x as u8,
        (x >> 8u64) as u8,
        (x >> 16u64) as u8,
        (x >> 24u64) as u8,
        (x >> 32u64) as u8,
        (x >> 40u64) as u8,
        (x >> 48u64) as u8,
        (x >> 56u64) as u8,
    ]
}

pub open spec fn le_bytes_u32(x: u32) -> Seq<u8> {
    seq![x as u8, (x >> 8u32) as u8, (x >> 16u32) as u8, (x >> 24u32) as u8]
}

/// The pieces, one after another.
pub open spec fn flatten(pieces: Seq<Seq<u8>>) -> Seq<u8>
    decreases pieces.len(),
{
    if pieces.len() == 0 {
        Seq::empty()
    } else {
        flatten(pieces.drop_last()) + pieces.last()
    }
}

/// A sequence: its count, then its items.
pub open spec fn encode_list(pieces: Seq<Seq<u8>>) -> Seq<u8> {
    le_bytes_u64(pieces.len() as u64) + flatten(pieces)
}

pub open spec fn encode_outpoint(o: OutPoint) -> Seq<u8> {
    match o {
        OutPoint::Regular { txid, vout } => seq![0u8] + txid.0@ + le_bytes_u32(vout),
        OutPoint::Deposit { id } => seq![1u8] + id@,
    }
}

pub open spec fn encode_bitnames_output(b: BitNamesOutput) -> Seq<u8> {
    match b {
        BitNamesOutput::Commitment(c) => seq![0u8] + c.0@,
        BitNamesOutput::Reveal { salt, key, value } => seq![1u8] + le_bytes_u64(salt) + key.0@
            + value.0@,
    }
}

pub open spec fn encode_output(o: Output) -> Seq<u8> {
    o.address.0@ + match o.content {
        Content::Value(v) => seq![0u8] + le_bytes_u64(v),
        Content::Custom(b) => seq![1u8] + encode_bitnames_output(b),
    }
}

pub open spec fn encode_authorization(a: Authorization) -> Seq<u8> {
    a.public_key@ + a.signature@
}

pub open spec fn outpoint_pieces(s: Seq<OutPoint>) -> Seq<Seq<u8>> {
    s.map_values(|o: OutPoint| encode_outpoint(o))
}

pub open spec fn output_pieces(s: Seq<Output>) -> Seq<Seq<u8>> {
    s.map_values(|o: Output| encode_output(o))
}

pub open spec fn authorization_pieces(s: Seq<Authorization>) -> Seq<Seq<u8>> {
    s.map_values(|a: Authorization| encode_authorization(a))
}

pub open spec fn encode_inputs(s: Seq<OutPoint>) -> Seq<u8> {
    encode_list(outpoint_pieces(s))
}

pub open spec fn encode_outputs(s: Seq<Output>) -> Seq<u8> {
    encode_list(output_pieces(s))
}

pub open spec fn encode_authorizations(s: Seq<Authorization>) -> Seq<u8> {
    encode_list(authorization_pieces(s))
}

/// The canonical bytes of a transaction.
pub open spec fn encode_transaction(tx: Transaction) -> Seq<u8> {
    encode_inputs(tx.inputs@) + encode_outputs(tx.outputs@) + encode_authorizations(
        tx.authorizations@,
    )
}

/// The canonical bytes of a transaction with its authorizations left out
/// (an empty list).
pub open spec fn encode_unsigned(tx: Transaction) -> Seq<u8> {
    encode_inputs(tx.inputs@) + encode_outputs(tx.outputs@) + le_bytes_u64(0)
}

pub open spec fn txid_of(tx: Transaction) -> Txid {
    Txid(spec_hash_of(blake2b_256_of(encode_transaction(tx))))
}

/// The message that every authorization of a transaction signs.
pub open spec fn sig_message_of(tx: Transaction) -> HashBytes {
    spec_hash_of(blake2b_256_of(encode_unsigned(tx)))
}

/// The address that belongs to a public key.
pub open spec fn address_of(public_key: Seq<u8>) -> Address {
    Address(spec_hash_of(blake2b_256_of(public_key)))
}

proof fn lemma_flatten_push(pieces: Seq<Seq<u8>>, p: Seq<u8>)
    ensures
        flatten(pieces.push(p)) == flatten(pieces) + p,
{
    assert(pieces.push(p).drop_last() =~= pieces);
}

pub(crate) fn push_u64(buf: &mut Vec<u8>, x: u64)
    ensures
        final(buf)@ == old(buf)@ + le_bytes_u64(x),
{
    buf.push(x as u8);
    buf.push((x >> 8u64) as u8);
    buf.push((x >> 16u64) as u8);
    buf.push((x >> 24u64) as u8);
    buf.push((x >> 32u64) as u8);
    buf.push((x >> 40u64) as u8);
    buf.push((x >> 48u64) as u8);
    buf.push((x >> 56u64) as u8);
    assert(buf@ =~= old(buf)@ + le_bytes_u64(x));
}

fn push_u32(buf: &mut Vec<u8>, x: u32)
    ensures
        final(buf)@ == old(buf)@ + le_bytes_u32(x),
{
    buf.push(x as u8);
    buf.push((x >> 8u32) as u8);
    buf.push((x >> 16u32) as u8);
    buf.push((x >> 24u32) as u8);
    assert(buf@ =~= old(buf)@ + le_bytes_u32(x));
}

pub(crate) fn push_bytes(buf: &mut Vec<u8>, b: &[u8])
    ensures
        final(buf)@ == old(buf)@ + b@,
{
    let mut i: usize = 0;
    while i < b.len()
        invariant
            0 <= i <= b@.len(),
            buf@ == old(buf)@ + b@.subrange(0, i as int),
        decreases b@.len() - i,
    {
        buf.push(b[i]);
        i += 1;
        assert(buf@ =~= old(buf)@ + b@.subrange(0, i as int));
    }
    assert(b@.subrange(0, b@.len() as int) =~= b@);
}

fn push_outpoint(buf: &mut Vec<u8>, o: &OutPoint)
    ensures
        final(buf)@ == old(buf)@ + encode_outpoint(*o),
{
    match o {
        OutPoint::Regular { txid, vout } => {
            buf.push(0u8);
            push_bytes(buf, &txid.0);
            push_u32(buf, *vout);
        },
        OutPoint::Deposit { id } => {
            buf.push(1u8);
            push_bytes(buf, id);
        },
    }
    assert(buf@ =~= old(buf)@ + encode_outpoint(*o));
}

fn push_output(buf: &mut Vec<u8>, o: &Output)
    ensures
        final(buf)@ == old(buf)@ + encode_output(*o),
{
    push_bytes(buf, &o.address.0);
    match &o.content {
        Content::Value(v) => {
            buf.push(0u8);
            push_u64(buf, *v);
        },
        Content::Custom(BitNamesOutput::Commitment(c)) => {
            buf.push(1u8);
            buf.push(0u8);
            push_bytes(buf, &c.0);
        },
        Content::Custom(BitNamesOutput::Reveal { salt, key, value }) => {
            buf.push(1u8);
            buf.push(1u8);
            push_u64(buf, *salt);
            push_bytes(buf, &key.0);
            push_bytes(buf, &value.0);
        },
    }
    assert(buf@ =~= old(buf)@ + encode_output(*o));
}

fn push_inputs(buf: &mut Vec<u8>, s: &Vec<OutPoint>)
    ensures
        final(buf)@ == old(buf)@ + encode_inputs(s@),
{
        push_u64(buf, s.len() as u64);
    let ghost start = buf@;
    let mut i: usize = 0;
    while i < s.len()
        invariant
            0 <= i <= s@.len(),
            buf@ == start + flatten(outpoint_pieces(s@.subrange(0, i as int))),
        decreases s@.len() - i,
    {
        push_outpoint(buf, &s[i]);
        proof {
            assert(outpoint_pieces(s@.subrange(0, i + 1)) =~= outpoint_pieces(s@.subrange(0, i as int)).push(
                encode_outpoint(s@[i as int]),
            ));
            lemma_flatten_push(outpoint_pieces(s@.subrange(0, i as int)), encode_outpoint(s@[i as int]));
            assert(buf@ =~= start + flatten(outpoint_pieces(s@.subrange(0, i + 1))));
        }
        i += 1;
    }
    assert(s@.subrange(0, s@.len() as int) =~= s@);
    assert(buf@ =~= old(buf)@ + encode_inputs(s@));
}

fn push_outputs(buf: &mut Vec<u8>, s: &Vec<Output>)
    ensures
        final(buf)@ == old(buf)@ + encode_outputs(s@),
{
        push_u64(buf, s.len() as u64);
    let ghost start = buf@;
    let mut i: usize = 0;
    while i < s.len()
        invariant
            0 <= i <= s@.len(),
            buf@ == start + flatten(output_pieces(s@.subrange(0, i as int))),
        decreases s@.len() - i,
    {
        push_output(buf, &s[i]);
        proof {
            assert(output_pieces(s@.subrange(0, i + 1)) =~= output_pieces(s@.subrange(0, i as int)).push(
                encode_output(s@[i as int]),
            ));
            lemma_flatten_push(output_pieces(s@.subrange(0, i as int)), encode_output(s@[i as int]));
            assert(buf@ =~= start + flatten(output_pieces(s@.subrange(0, i + 1))));
        }
        i += 1;
    }
    assert(s@.subrange(0, s@.len() as int) =~= s@);
    assert(buf@ =~= old(buf)@ + encode_outputs(s@));
}

fn push_authorizations(buf: &mut Vec<u8>, s: &Vec<Authorization>)
    ensures
        final(buf)@ == old(buf)@ + encode_authorizations(s@),
{
        push_u64(buf, s.len() as u64);
    let ghost start = buf@;
    let mut i: usize = 0;
    while i < s.len()
        invariant
            0 <= i <= s@.len(),
            buf@ == start + flatten(authorization_pieces(s@.subrange(0, i as int))),
        decreases s@.len() - i,
    {
        push_bytes(buf, &s[i].public_key);
        push_bytes(buf, &s[i].signature);
        proof {
            assert(authorization_pieces(s@.subrange(0, i + 1)) =~= authorization_pieces(s@.subrange(0, i as int)).push(
                encode_authorization(s@[i as int]),
            ));
            lemma_flatten_push(authorization_pieces(s@.subrange(0, i as int)), encode_authorization(s@[i as int]));
            assert(buf@ =~= start + flatten(authorization_pieces(s@.subrange(0, i + 1))));
        }
        i += 1;
    }
    assert(s@.subrange(0, s@.len() as int) =~= s@);
    assert(buf@ =~= old(buf)@ + encode_authorizations(s@));
}

impl Transaction {
    /// The canonical bytes of the transaction.
    pub fn encode(&self) -> (r: Vec<u8>)
        ensures
            r@ == encode_transaction(*self),
    {
        let mut buf: Vec<u8> = Vec::new();
        push_inputs(&mut buf, &self.inputs);
        push_outputs(&mut buf, &self.outputs);
        push_authorizations(&mut buf, &self.authorizations);
        assert(buf@ =~= encode_transaction(*self));
        buf
    }

    /// The canonical bytes of the transaction with an empty list of
    /// authorizations.
    pub fn encode_unsigned(&self) -> (r: Vec<u8>)
        ensures
            r@ == encode_unsigned(*self),
    {
        let mut buf: Vec<u8> = Vec::new();
        push_inputs(&mut buf, &self.inputs);
        push_outputs(&mut buf, &self.outputs);
        push_u64(&mut buf, 0);
        assert(buf@ =~= encode_unsigned(*self));
        buf
    }

    /// The content hash of the transaction.
    pub fn txid(&self) -> (r: Txid)
        ensures
            r == txid_of(*self),
    {
        let bytes = self.encode();
        let h = blake2b_256(bytes.as_slice());
        proof {
            lemma_spec_hash_of(h);
        }
        Txid(h)
    }

    /// The message that each authorization signs: the content hash of the
    /// transaction with its authorizations left out.
    pub fn sig_message(&self) -> (r: HashBytes)
        ensures
            r == sig_message_of(*self),
    {
        let bytes = self.encode_unsigned();
        let h = blake2b_256(bytes.as_slice());
        proof {
            lemma_spec_hash_of(h);
        }
        h
    }
}

/// The address of an Ed25519 public key.
pub fn get_address(public_key: &[u8; 32]) -> (r: Address)
    ensures
        r == address_of(public_key@),
{
    let h = blake2b_256(public_key);
    proof {
        lemma_spec_hash_of(h);
    }
    Address(h)
}

} // verus!
