//! An off-chain directory of plaintext names and values, checked against the
//! hashes that the state binds. Validation never reads it.

use vstd::prelude::*;
use vstd::utf8::encode_utf8;
use crate::hashes::{HashBytes, Key, Value, blake2b_256, blake2b_256_of, lemma_spec_hash_of, spec_hash_of};
use crate::types::{le_bytes_u64, push_bytes, push_u64};
use crate::validation::BitNamesState;

verus! {

/// The content hash of a text: its UTF-8 length as a 64-bit little-endian
/// count, then its UTF-8 bytes.
pub open spec fn text_hash_of(text: Seq<char>) -> HashBytes {
    spec_hash_of(
        blake2b_256_of(le_bytes_u64(encode_utf8(text).len() as u64) + encode_utf8(text)),
    )
}

/// The content hash of a text.
pub fn hash_text(text: &str) -> (r: HashBytes)
    ensures
        r == text_hash_of(text@),
{
    let bytes = text.as_bytes();
    let mut buf: Vec<u8> = Vec::new();
    push_u64(&mut buf, bytes.len() as u64);
    push_bytes(&mut buf, bytes);
    let h = blake2b_256(buf.as_slice());
    proof {
        lemma_spec_hash_of(h);
    }
    h
}

#[derive(Clone, Copy, PartialEq, Eq, Debug)]
pub enum ResolverError {
    /// The name is bound to no value.
    NotRegistered,
    /// The plaintext does not hash to the value that the name is bound to.
    InvalidValue,
    /// The directory holds no plaintext for the name.
    NotStored,
}

/// Plaintext values by key.
pub struct NameServer {
    data: Vec<(Key, String)>,
    map: Ghost<Map<Key, Seq<char>>>,
}

impl NameServer {
    pub closed spec fn view(&self) -> Map<Key, Seq<char>> {
        self.map@
    }

    /// Keys are distinct, and the pairs are exactly the map.
    pub closed spec fn wf(&self) -> bool {
        &&& forall|i: int, j: int|
            0 <= i < j < self.data@.len() ==> self.data@[i].0 != self.data@[j].0
        &&& forall|i: int|
            0 <= i < self.data@.len() ==> #[trigger] self.map@.contains_key(self.data@[i].0)
                && self.map@[self.data@[i].0] == self.data@[i].1@
        &&& forall|k: Key|
            #[trigger] self.map@.contains_key(k) ==> exists|i: int|
                0 <= i < self.data@.len() && self.data@[i].0 == k
    }

    pub fn new() -> (r: Self)
        ensures
            r.wf(),
            r@ == Map::<Key, Seq<char>>::empty(),
    {
        NameServer { data: Vec::new(), map: Ghost(Map::empty()) }
    }

    fn find(&self, k: &Key) -> (r: Option<usize>)
        requires
            self.wf(),
        ensures
            match r {
                Some(i) => i < self.data@.len() && self.data@[i as int].0 == *k,
                None => !self@.contains_key(*k),
            },
    {
        let mut i: usize = 0;
        while i < self.data.len()
            invariant
                self.wf(),
                0 <= i <= self.data@.len(),
                forall|j: int| 0 <= j < i ==> self.data@[j].0 != *k,
            decreases self.data@.len() - i,
        {
            if self.data[i].0.same(k) {
                return Some(i);
            }
            i += 1;
        }
        None
    }

    fn put(&mut self, k: Key, v: String)
        requires
            old(self).wf(),
        ensures
            final(self).wf(),
            final(self)@ == old(self)@.insert(k, v@),
    {
        let ghost text = v@;
        let idx: usize = match self.find(&k) {
            Some(i) => {
                self.data.set(i, (k, v));
                i
            },
            None => {
                self.data.push((k, v));
                self.data.len() - 1
            },
        };
        self.map = Ghost(self.map@.insert(k, text));
        assert forall|i: int, j: int|
            0 <= i < j < self.data@.len() implies self.data@[i].0 != self.data@[j].0 by {
            if j == old(self).data@.len() {
                assert(old(self).map@.contains_key(old(self).data@[i].0));
            }
        }
        assert forall|i: int| 0 <= i < self.data@.len() implies #[trigger] self.map@.contains_key(
            self.data@[i].0,
        ) && self.map@[self.data@[i].0] == self.data@[i].1@ by {
            if i != idx {
                assert(old(self).data@[i] == self.data@[i]);
                assert(old(self).data@[i].0 != k) by {
                    if i < old(self).data@.len() && idx < old(self).data@.len() {
                        assert(old(self).data@[idx as int].0 == k);
                    } else {
                        assert(old(self).map@.contains_key(old(self).data@[i].0));
                    }
                }
            }
        }
        assert forall|key: Key| #[trigger] self.map@.contains_key(key) implies exists|i: int|
            0 <= i < self.data@.len() && self.data@[i].0 == key by {
            if key != k {
                let j = choose|j: int| 0 <= j < old(self).data@.len() && old(self).data@[j].0 == key;
                assert(self.data@[j].0 == key);
            } else {
                assert(self.data@[idx as int].0 == key);
            }
        }
    }

    /// Stores the plaintext `value` for `name` if the state binds the hash
    /// of `name` to the hash of `value`.
    pub fn store(&mut self, state: &BitNamesState, name: &str, value: &str) -> (r: Result<
        (),
        ResolverError,
    >)
        requires
            old(self).wf(),
            state.wf(),
        ensures
            final(self).wf(),
            ({
                let key = Key(text_hash_of(name@));
                if !state@.key_value.contains_key(key) {
                    r == Err::<(), ResolverError>(ResolverError::NotRegistered) && final(self)@ == old(self)@
                } else if state@.key_value[key] != Some(Value(text_hash_of(value@))) {
                    r == Err::<(), ResolverError>(ResolverError::InvalidValue) && final(self)@ == old(self)@
                } else {
                    r is Ok && final(self)@ == old(self)@.insert(key, value@)
                }
            }),
    {
        let key = Key(hash_text(name));
        match state.get_value(&key) {
            None => Err(ResolverError::NotRegistered),
            Some(bound) => {
                let expected = Value(hash_text(value));
                let matches = match bound {
                    Some(v) => v.same(&expected),
                    None => false,
                };
                if !matches {
                    return Err(ResolverError::InvalidValue);
                }
                self.put(key, value.to_owned());
                Ok(())
            },
        }
    }

    /// The stored plaintext for `name`, if the state still binds the hash of
    /// `name` to its hash.
    pub fn lookup(&self, state: &BitNamesState, name: &str) -> (r: Result<String, ResolverError>)
        requires
            self.wf(),
            state.wf(),
        ensures
            ({
                let key = Key(text_hash_of(name@));
                if !state@.key_value.contains_key(key) {
                    r == Err::<String, ResolverError>(ResolverError::NotRegistered)
                } else if !self@.contains_key(key) {
                    r == Err::<String, ResolverError>(ResolverError::NotStored)
                } else if state@.key_value[key] != Some(Value(text_hash_of(self@[key]))) {
                    r == Err::<String, ResolverError>(ResolverError::InvalidValue)
                } else {
                    r is Ok && r->Ok_0@ == self@[key]
                }
            }),
            r is Ok ==> state@.key_value[Key(text_hash_of(name@))] == Some(
                Value(text_hash_of(r->Ok_0@)),
            ),
    {
        let key = Key(hash_text(name));
        match state.get_value(&key) {
            None => Err(ResolverError::NotRegistered),
            Some(bound) => match self.find(&key) {
                None => Err(ResolverError::NotStored),
                Some(i) => {
                    let stored = &self.data[i].1;
                    let expected = Value(hash_text(stored.as_str()));
                    let matches = match bound {
                        Some(v) => v.same(&expected),
                        None => false,
                    };
                    if !matches {
                        return Err(ResolverError::InvalidValue);
                    }
                    Ok(stored.clone())
                },
            },
        }
    }
}

impl Default for NameServer {
    fn default() -> (r: Self)
        ensures
            r.wf(),
            r@ == Map::<Key, Seq<char>>::empty(),
    {
        NameServer::new()
    }
}

} // verus!
