//! 32-byte hashes, the newtypes that tell them apart, and the two hash
//! primitives: the content hash over bytes and the keyed commitment MAC.

use vstd::prelude::*;
use blake2::Digest;
use digest::FixedOutput;

verus! {

/// A 256-bit hash.
pub type HashBytes = [u8; 32];

/// Blake2b with a 32-byte output, over a sequence of bytes.
pub uninterp spec fn blake2b_256_of(data: Seq<u8>) -> Seq<u8>;

/// Keyed Blake2b with a 32-byte output, an empty personalisation and an empty
/// message, as a function of the key and the salt.
pub uninterp spec fn blake2b_mac_256_of(key: Seq<u8>, salt: Seq<u8>) -> Seq<u8>;

/// Relies on blake2's `Blake2b<U32>` digest: 32 bytes that depend on the input alone.
#[verifier::external_body]
pub(crate) fn blake2b_256(data: &[u8]) -> (r: HashBytes)
    ensures
        r@ == blake2b_256_of(data@),
{
    blake2::Blake2b::<digest::consts::U32>::digest(data).into()
}

/// Relies on blake2's `Blake2bMac<U32>::new_with_salt_and_personal` and
/// `finalize_fixed`: the MAC of an empty message, a function of key and salt.
/// A 32-byte key and an 8-byte salt are within the bounds that it accepts
/// (at most 128 and 32 bytes for Blake2b), so the constructor does not fail.
#[verifier::external_body]
fn blake2b_mac_256(key: &HashBytes, salt: &[u8; 8]) -> (r: HashBytes)
    ensures
        r@ == blake2b_mac_256_of(key@, salt@),
{
    blake2::Blake2bMac::<digest::consts::U32>::new_with_salt_and_personal(key, salt, &[])
        .unwrap()
        .finalize_fixed()
        .into()
}

/// The lower-case hexadecimal digit of a value below 16.
pub open spec fn hex_digit(n: u8) -> char {
    if n < 10 {
        (('0' as u8) + n) as char
    } else {
        (('a' as u8) + n - 10) as char
    }
}

/// Two lower-case hexadecimal digits for each byte, high nibble first.
pub open spec fn hex_of(b: Seq<u8>) -> Seq<char>
    decreases b.len(),
{
    if b.len() == 0 {
        Seq::empty()
    } else {
        hex_of(b.drop_last()) + seq![hex_digit(b.last() / 16), hex_digit(b.last() % 16)]
    }
}

/// Relies on hex::encode: two lower-case digits for each byte, in order.
#[verifier::external_body]
fn hex_encode(b: &HashBytes) -> (r: String)
    ensures
        r@ == hex_of(b@),
{
    hex::encode(b)
}

/// Compares two hashes byte by byte.
pub fn hash_eq(a: &HashBytes, b: &HashBytes) -> (r: bool)
    ensures
        r == (*a == *b),
{
    let mut i: usize = 0;
    while i < 32
        invariant
            0 <= i <= 32,
            forall|j: int| 0 <= j < i ==> a[j] == b[j],
        decreases 32 - i,
    {
        if a[i] != b[i] {
            return false;
        }
        i += 1;
    }
    assert(*a =~= *b);
    true
}

/// The name of a registry entry: the content hash of a human-readable name.
#[derive(Clone, Copy, PartialEq, Eq, Hash, Debug)]
pub struct Key(pub HashBytes);

/// The data bound to a name: the content hash of a human-readable value.
#[derive(Clone, Copy, PartialEq, Eq, Hash, Debug)]
pub struct Value(pub HashBytes);

/// A keyed MAC of a (key, salt) pair, published before the pair is revealed.
#[derive(Clone, Copy, PartialEq, Eq, Hash, Debug)]
pub struct Commitment(pub HashBytes);

impl Key {
    pub fn same(&self, other: &Key) -> (r: bool)
        ensures
            r == (*self == *other),
    {
        hash_eq(&self.0, &other.0)
    }

    /// The key as 64 lower-case hexadecimal digits.
    pub fn to_hex_string(&self) -> (r: String)
        ensures
            r@ == hex_of(self.0@),
    {
        hex_encode(&self.0)
    }
}

impl Value {
    pub fn same(&self, other: &Value) -> (r: bool)
        ensures
            r == (*self == *other),
    {
        hash_eq(&self.0, &other.0)
    }

    /// The value as 64 lower-case hexadecimal digits.
    pub fn to_hex_string(&self) -> (r: String)
        ensures
            r@ == hex_of(self.0@),
    {
        hex_encode(&self.0)
    }
}

impl Commitment {
    pub fn same(&self, other: &Commitment) -> (r: bool)
        ensures
            r == (*self == *other),
    {
        hash_eq(&self.0, &other.0)
    }

    /// The commitment as 64 lower-case hexadecimal digits.
    pub fn to_hex_string(&self) -> (r: String)
        ensures
            r@ == hex_of(self.0@),
    {
        hex_encode(&self.0)
    }
}

impl From<HashBytes> for Key {
    fn from(other: HashBytes) -> (r: Self) {
        Key(other)
    }
}

impl vstd::std_specs::convert::FromSpecImpl<HashBytes> for Key {
    open spec fn obeys_from_spec() -> bool {
        true
    }

    open spec fn from_spec(v: HashBytes) -> Key {
        Key(v)
    }
}

impl From<Key> for HashBytes {
    fn from(other: Key) -> (r: Self) {
        other.0
    }
}

impl vstd::std_specs::convert::FromSpecImpl<Key> for HashBytes {
    open spec fn obeys_from_spec() -> bool {
        true
    }

    open spec fn from_spec(v: Key) -> HashBytes {
        v.0
    }
}

impl From<HashBytes> for Value {
    fn from(other: HashBytes) -> (r: Self) {
        Value(other)
    }
}

impl vstd::std_specs::convert::FromSpecImpl<HashBytes> for Value {
    open spec fn obeys_from_spec() -> bool {
        true
    }

    open spec fn from_spec(v: HashBytes) -> Value {
        Value(v)
    }
}

impl From<Value> for HashBytes {
    fn from(other: Value) -> (r: Self) {
        other.0
    }
}

impl vstd::std_specs::convert::FromSpecImpl<Value> for HashBytes {
    open spec fn obeys_from_spec() -> bool {
        true
    }

    open spec fn from_spec(v: Value) -> HashBytes {
        v.0
    }
}

impl From<HashBytes> for Commitment {
    fn from(other: HashBytes) -> (r: Self) {
        Commitment(other)
    }
}

impl vstd::std_specs::convert::FromSpecImpl<HashBytes> for Commitment {
    open spec fn obeys_from_spec() -> bool {
        true
    }

    open spec fn from_spec(v: HashBytes) -> Commitment {
        Commitment(v)
    }
}

impl From<Commitment> for HashBytes {
    fn from(other: Commitment) -> (r: Self) {
        other.0
    }
}

impl vstd::std_specs::convert::FromSpecImpl<Commitment> for HashBytes {
    open spec fn obeys_from_spec() -> bool {
        true
    }

    open spec fn from_spec(v: Commitment) -> HashBytes {
        v.0
    }
}

/// The eight bytes of `x`, most significant first.
pub open spec fn be_bytes_u64(x: u64) -> Seq<u8> {
    seq![
        (x >> 56u64) as u8,
        (x >> 48u64) as u8,
        (x >> 40u64) as u8,
        (x >> 32u64) as u8,
        (x >> 24u64) as u8,
        (x >> 16u64) as u8,
        (x >> 8u64) as u8,
        x as u8,
    ]
}

/// The commitment to `key` under `salt`: the keyed MAC with the key as MAC
/// key and the big-endian salt.
pub open spec fn commitment_of(key: Key, salt: u64) -> Commitment {
    Commitment(spec_hash_of(blake2b_mac_256_of(key.0@, be_bytes_u64(salt))))
}

/// The 32-byte array whose view is `s`, where `s` has 32 bytes.
pub open spec fn spec_hash_of(s: Seq<u8>) -> HashBytes {
    choose|h: HashBytes| h@ == s
}

fn be_bytes(x: u64) -> (r: [u8; 8])
    ensures
        r@ == be_bytes_u64(x),
{
    let r: [u8; 8] = [
        (x >> 56u64) as u8,
        (x >> 48u64) as u8,
        (x >> 40u64) as u8,
        (x >> 32u64) as u8,
        (x >> 24u64) as u8,
        (x >> 16u64) as u8,
        (x >> 8u64) as u8,
        x as u8,
    ];
    assert(r@ =~= be_bytes_u64(x));
    r
}

/// Commits to `key` under `salt`.
pub fn blake2b_hmac(key: &Key, salt: u64) -> (r: Commitment)
    ensures
        r == commitment_of(*key, salt),
{
    let salt_bytes = be_bytes(salt);
    let mac = blake2b_mac_256(&key.0, &salt_bytes);
    proof {
        lemma_spec_hash_of(mac);
    }
    Commitment(mac)
}

/// An array is the one `spec_hash_of` picks for its own view.
pub proof fn lemma_spec_hash_of(h: HashBytes)
    ensures
        spec_hash_of(h@) == h,
{
    let c = spec_hash_of(h@);
    assert(exists|x: HashBytes| x@ == h@);
    assert(c@ == h@);
    assert(c =~= h);
}

} // verus!
