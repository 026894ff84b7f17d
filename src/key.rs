//! The raw passphrase, the stretched key derived from it, and the cache of
//! stretched keys that a decryption batch shares.
use vstd::prelude::*;
use vstd::string::StringSliceAdditionalSpecFns;
use vstd::utf8::encode_utf8;

use crate::encoding::{le_bytes, u64_le_bytes, append_bytes};
use crate::hash::{fastish_hash, hash, key_hash, key_hash_len, pbkdf2_hmac_sha512, fastish_salt, DIGEST_LEN};
use crate::salt::{Salt, SALT_LEN};
use crate::strategy::{KeyHashAlg, Strategy};

verus! {

/// The zxcvbn strength score of a password.
pub uninterp spec fn zxcvbn_score(password: Seq<u8>) -> u8;

/// Relies on zxcvbn::zxcvbn, which fails on an empty password, and on
/// Entropy::score, an overall strength from 0 to 4 that depends on the
/// password alone.
#[verifier::external_body]
fn estimate_strength(password: &str) -> (r: Option<u8>)
    ensures
        r matches Some(s) ==> s == zxcvbn_score(password.spec_bytes()) && s <= 4,
        password@.len() == 0 ==> r is None,
{
    match zxcvbn::zxcvbn(password, &[]) {
        Ok(entropy) => Some(entropy.score()),
        Err(_) => None,
    }
}

/// A raw passphrase and its estimated strength. Equality compares the
/// passphrase only.
pub struct Key {
    pub key_data: String,
    /// The strength score from 0 to 4, when it could be estimated.
    pub strength: Option<u8>,
}

impl Key {
    pub fn new(key_data: &str) -> (r: Key)
        ensures
            r.key_data@ == key_data@,
            r.strength matches Some(s) ==> s == zxcvbn_score(key_data.spec_bytes()),
            key_data@.len() == 0 ==> r.strength is None,
    {
        let strength = estimate_strength(key_data);
        Key { key_data: key_data.to_owned(), strength }
    }

    /// A score of 3 or more counts as strong.
    pub fn is_strong(&self) -> (r: bool)
        ensures
            r == (self.strength matches Some(s) && s >= 3),
    {
        match self.strength {
            Some(s) => s >= 3,
            None => false,
        }
    }

    /// The passphrase's UTF-8 bytes.
    pub open spec fn bytes(&self) -> Seq<u8> {
        encode_utf8(self.key_data@)
    }

    pub fn as_bytes(&self) -> (r: &[u8])
        ensures
            r@ == self.bytes(),
    {
        self.key_data.as_str().as_bytes()
    }
}

impl Clone for Key {
    fn clone(&self) -> (r: Key)
        ensures
            r.key_data@ == self.key_data@,
            r.strength == self.strength,
    {
        Key { key_data: self.key_data.clone(), strength: self.strength }
    }
}

impl PartialEq for Key {
    fn eq(&self, other: &Key) -> (r: bool) {
        self.key_data == other.key_data
    }
}

impl vstd::std_specs::cmp::PartialEqSpecImpl for Key {
    open spec fn obeys_eq_spec() -> bool {
        true
    }

    open spec fn eq_spec(&self, other: &Key) -> bool {
        self.key_data@ == other.key_data@
    }
}

impl Eq for Key {

}

/// A stretched key: at least 256 bits of derived secret.
pub struct StretchKey {
    key_data: Vec<u8>,
}

impl View for StretchKey {
    type V = Seq<u8>;

    closed spec fn view(&self) -> Seq<u8> {
        self.key_data@
    }
}

pub const MIN_KEY_LEN: usize = 32;

impl StretchKey {
    #[verifier::type_invariant]
    spec fn inv(&self) -> bool {
        self.key_data@.len() >= MIN_KEY_LEN
    }

    pub fn new(key_data: &[u8]) -> (r: StretchKey)
        requires
            key_data@.len() >= MIN_KEY_LEN,
        ensures
            r@ == key_data@,
    {
        let mut v: Vec<u8> = Vec::new();
        append_bytes(&mut v, key_data);
        assert(v@ =~= key_data@);
        StretchKey { key_data: v }
    }

    /// A quick stand-in for stretching, for tests and demonstrations.
    pub fn mock_stretch(key_data: &[u8]) -> (r: StretchKey)
        ensures
            r@ == pbkdf2_hmac_sha512(1, fastish_salt(), key_data@, DIGEST_LEN as nat),
    {
        let h = fastish_hash(key_data);
        StretchKey::new(h.as_slice())
    }

    /// The key holds at least 32 bytes.
    pub fn len_is_enough(&self)
        ensures
            self@.len() >= MIN_KEY_LEN,
    {
        proof {
            use_type_invariant(self);
        }
    }

    pub fn as_bytes(&self) -> (r: &[u8])
        ensures
            r@ == self@,
    {
        self.key_data.as_slice()
    }
}

impl Clone for StretchKey {
    fn clone(&self) -> (r: StretchKey)
        ensures
            r@ == self@,
    {
        proof {
            use_type_invariant(self);
        }
        StretchKey { key_data: self.key_data.clone() }
    }
}

/// One algorithm's share of the stretching: hash once, then `n` more times,
/// each time after appending the little-endian repetition index.
pub open spec fn stretch_rounds(data: Seq<u8>, salt: Seq<u8>, alg: KeyHashAlg, n: nat) -> Seq<u8>
    decreases n,
{
    if n == 0 {
        key_hash(data, salt, alg)
    } else {
        key_hash(
            stretch_rounds(data, salt, alg, (n - 1) as nat) + le_bytes((n - 1) as u64),
            salt,
            alg,
        )
    }
}

/// The stretched key: each algorithm in order, starting from the passphrase.
pub open spec fn stretch_spec(data: Seq<u8>, salt: Seq<u8>, count: u64, algs: Seq<KeyHashAlg>) -> Seq<u8>
    decreases algs.len(),
{
    if algs.len() == 0 {
        data
    } else {
        stretch_spec(stretch_rounds(data, salt, algs[0], count as nat), salt, count, algs.drop_first())
    }
}

/// Stretch one algorithm's rounds over `data`.
fn stretch_one(data: Vec<u8>, salt: &[u8], alg: &KeyHashAlg, count: u64) -> (r: Vec<u8>)
    requires
        data@.len() <= 0xffff_ffff,
        salt@.len() == SALT_LEN,
    ensures
        r@ == stretch_rounds(data@, salt@, *alg, count as nat),
        r@.len() == key_hash_len(*alg),
{
    let mut cur = hash(data.as_slice(), salt, alg);
    let mut i: u64 = 0;
    while i < count
        invariant
            0 <= i <= count,
            salt@.len() == SALT_LEN,
            cur@ == stretch_rounds(data@, salt@, *alg, i as nat),
            cur@.len() == key_hash_len(*alg),
        decreases count - i,
    {
        let idx = u64_le_bytes(i);
        let mut input = cur;
        append_bytes(&mut input, idx.as_slice());
        cur = hash(input.as_slice(), salt, alg);
        i = i + 1;
    }
    cur
}

/// Derive the stretched key from a passphrase and a salt by chaining the
/// key hash algorithms, each with `stretch_count` extra rounds.
pub fn stretch_key(raw_key: &Key, salt: &Salt, stretch_count: u64, key_hash_algorithms: &[KeyHashAlg]) -> (r: StretchKey)
    requires
        key_hash_algorithms@.len() > 0,
        raw_key.bytes().len() <= 0xffff_ffff,
    ensures
        r@ == stretch_spec(raw_key.bytes(), salt@, stretch_count, key_hash_algorithms@),
{
    salt.len_is_fixed();
    let salt_bytes = salt.as_bytes();
    let mut data: Vec<u8> = Vec::new();
    append_bytes(&mut data, raw_key.as_bytes());
    assert(data@ =~= raw_key.bytes());
    let n = key_hash_algorithms.len();
    assert(key_hash_algorithms@.subrange(0, n as int) =~= key_hash_algorithms@);
    let mut i: usize = 0;
    while i < n
        invariant
            0 <= i <= n == key_hash_algorithms@.len(),
            salt_bytes@ == salt@,
            salt@.len() == SALT_LEN,
            data@.len() <= 0xffff_ffff,
            i > 0 ==> data@.len() >= MIN_KEY_LEN,
            stretch_spec(data@, salt@, stretch_count, key_hash_algorithms@.subrange(i as int, n as int))
                == stretch_spec(raw_key.bytes(), salt@, stretch_count, key_hash_algorithms@),
        decreases n - i,
    {
        let alg = &key_hash_algorithms[i];
        let ghost rest = key_hash_algorithms@.subrange(i as int, n as int);
        assert(rest.drop_first() =~= key_hash_algorithms@.subrange(i + 1, n as int));
        data = stretch_one(data, salt_bytes, alg, stretch_count);
        i = i + 1;
    }
    assert(key_hash_algorithms@.subrange(n as int, n as int) =~= Seq::<KeyHashAlg>::empty());
    StretchKey::new(data.as_slice())
}

/// A stretched key kept for one salt and one set of stretching parameters.
struct CacheEntry {
    salt: Salt,
    stretch_count: u64,
    algorithms: Vec<KeyHashAlg>,
    key: StretchKey,
}

/// Stretched keys of one passphrase, by salt, so that files that share a salt
/// pay for stretching once.
pub struct KeyCache {
    raw_key: Key,
    entries: Vec<CacheEntry>,
}

fn same_algorithms(a: &[KeyHashAlg], b: &[KeyHashAlg]) -> (r: bool)
    ensures
        r == (a@ == b@),
{
    if a.len() != b.len() {
        return false;
    }
    let mut i: usize = 0;
    while i < a.len()
        invariant
            0 <= i <= a@.len() == b@.len(),
            forall|j: int| 0 <= j < i ==> a@[j] == b@[j],
        decreases a@.len() - i,
    {
        if a[i] != b[i] {
            return false;
        }
        i = i + 1;
    }
    assert(a@ =~= b@);
    true
}

impl KeyCache {
    /// Every kept key is the stretch of the cache's passphrase.
    pub closed spec fn wf(&self) -> bool {
        forall|i: int| 0 <= i < self.entries@.len() ==> {
            let e = #[trigger] self.entries@[i];
            e.key@ == stretch_spec(
                self.raw_key.bytes(),
                e.salt@,
                e.stretch_count,
                e.algorithms@,
            )
        }
    }

    /// The passphrase whose stretched keys the cache keeps.
    pub closed spec fn key_bytes(&self) -> Seq<u8> {
        self.raw_key.bytes()
    }

    pub fn new(raw_key: Key) -> (r: KeyCache)
        ensures
            r.wf(),
            r.key_bytes() == raw_key.bytes(),
    {
        KeyCache { raw_key, entries: Vec::new() }
    }

    /// The stretched key for `salt` under `strategy`: from the cache when it
    /// was stretched before, else stretched now and kept.
    pub fn get_or_stretch(&mut self, salt: &Salt, strategy: &Strategy) -> (r: StretchKey)
        requires
            old(self).wf(),
            strategy@.key_hash_algorithms.len() > 0,
            old(self).key_bytes().len() <= 0xffff_ffff,
        ensures
            final(self).wf(),
            final(self).key_bytes() == old(self).key_bytes(),
            r@ == stretch_spec(
                old(self).key_bytes(),
                salt@,
                strategy@.stretch_count,
                strategy@.key_hash_algorithms,
            ),
    {
        let mut i: usize = 0;
        while i < self.entries.len()
            invariant
                self.wf(),
                0 <= i <= self.entries@.len(),
            decreases self.entries@.len() - i,
        {
            let e = &self.entries[i];
            if e.salt.same_as(salt) && e.stretch_count == strategy.stretch_count && same_algorithms(
                e.algorithms.as_slice(),
                strategy.key_hash_algorithms.as_slice(),
            ) {
                assert(self.entries@[i as int] == *e);
                return e.key.clone();
            }
            i = i + 1;
        }
        let key = stretch_key(
            &self.raw_key,
            salt,
            strategy.stretch_count,
            strategy.key_hash_algorithms.as_slice(),
        );
        let entry = CacheEntry {
            salt: salt.clone(),
            stretch_count: strategy.stretch_count,
            algorithms: copy_algorithms(strategy.key_hash_algorithms.as_slice()),
            key: key.clone(),
        };
        self.entries.push(entry);
        assert forall|j: int| 0 <= j < self.entries@.len() implies {
            let e = #[trigger] self.entries@[j];
            e.key@ == stretch_spec(self.raw_key.bytes(), e.salt@, e.stretch_count, e.algorithms@)
        } by {
            if j < self.entries@.len() - 1 {
                assert(self.entries@[j] == old(self).entries@[j]);
            }
        }
        key
    }
}

fn copy_algorithms(a: &[KeyHashAlg]) -> (r: Vec<KeyHashAlg>)
    ensures
        r@ == a@,
{
    let mut out: Vec<KeyHashAlg> = Vec::new();
    let mut i: usize = 0;
    while i < a.len()
        invariant
            0 <= i <= a@.len(),
            out@ == a@.subrange(0, i as int),
        decreases a@.len() - i,
    {
        out.push(a[i]);
        i = i + 1;
        assert(out@ =~= a@.subrange(0, i as int));
    }
    assert(a@.subrange(0, a@.len() as int) =~= a@);
    out
}

} // verus!
