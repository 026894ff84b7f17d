//! The slow hashes behind key stretching, and the fast ones behind checksums.
//! Each parameter set is fixed: a change needs a new `KeyHashAlg` variant.
use std::convert::TryInto;
use vstd::prelude::*;

use crate::encoding::slice_prefix;
use crate::strategy::KeyHashAlg;

verus! {

/// PBKDF2 with HMAC-SHA512, `len` bytes of output.
pub uninterp spec fn pbkdf2_hmac_sha512(iterations: u32, salt: Seq<u8>, secret: Seq<u8>, len: nat) -> Seq<u8>;

/// The `$2y$` text of a bcrypt hash.
pub uninterp spec fn bcrypt_2y_text(password: Seq<u8>, cost: u32, salt: Seq<u8>) -> Seq<u8>;

/// Argon2i with the given passes, lanes and memory, `len` bytes of output.
pub uninterp spec fn argon2i_digest(
    passes: u32,
    lanes: u32,
    kib: u32,
    data: Seq<u8>,
    salt: Seq<u8>,
    len: nat,
) -> Seq<u8>;

/// The 64-bit xxHash of `data`.
pub uninterp spec fn xxhash64_of(seed: u64, data: Seq<u8>) -> u64;

/// Relies on ring::pbkdf2::derive with PBKDF2_HMAC_SHA512, which fills the
/// output buffer; it panics only for outputs far longer than 64 bytes.
#[verifier::external_body]
pub(crate) fn pbkdf2_sha512(iterations: u32, salt: &[u8], secret: &[u8], len: usize) -> (r: Vec<u8>)
    requires
        1 <= iterations,
        len <= 64,
    ensures
        r@ == pbkdf2_hmac_sha512(iterations, salt@, secret@, len as nat),
        r@.len() == len,
{
    let mut out = vec![0u8; len];
    let iterations = std::num::NonZeroU32::new(iterations).unwrap();
    ring::pbkdf2::derive(ring::pbkdf2::PBKDF2_HMAC_SHA512, iterations, salt, secret, &mut out);
    out
}

/// Relies on bcrypt::hash_with_salt, which fails only for a cost outside
/// 4..=31, and on HashParts::format_for_version, whose `$2y$` text is always
/// 60 bytes.
#[verifier::external_body]
fn bcrypt_hash_2y(password: &[u8], cost: u32, salt: &[u8]) -> (r: Vec<u8>)
    requires
        4 <= cost <= 31,
        salt@.len() == 16,
    ensures
        r@ == bcrypt_2y_text(password@, cost, salt@),
        r@.len() == 60,
{
    let salt: [u8; 16] = salt.try_into().unwrap();
    let parts = bcrypt::hash_with_salt(password, cost, salt).unwrap();
    parts.format_for_version(bcrypt::Version::TwoY).into_bytes()
}

/// Relies on argon2rs's Argon2::new, which accepts at least one pass, 1 to
/// 2^24 - 1 lanes and at least 8 KiB per lane, and Argon2::hash, which
/// asserts an output of 4 bytes or more, input below 2^32 bytes and a salt of
/// 8 bytes or more.
#[verifier::external_body]
fn argon2i_hash(passes: u32, lanes: u32, kib: u32, data: &[u8], salt: &[u8], len: usize) -> (r: Vec<u8>)
    requires
        1 <= passes,
        1 <= lanes <= 0x00ff_ffff,
        8 * lanes <= kib,
        4 <= len <= 0xffff_ffff,
        data@.len() <= 0xffff_ffff,
        8 <= salt@.len() <= 0xffff_ffff,
    ensures
        r@ == argon2i_digest(passes, lanes, kib, data@, salt@, len as nat),
        r@.len() == len,
{
    let config = argon2rs::Argon2::new(passes, lanes, kib, argon2rs::Variant::Argon2i).unwrap();
    let mut out = vec![0u8; len];
    config.hash(&mut out, data, salt, &[], &[]);
    out
}

/// Relies on twox_hash::XxHash64::oneshot, the 64-bit xxHash of the data.
#[verifier::external_body]
pub(crate) fn xxhash64(seed: u64, data: &[u8]) -> (r: u64)
    ensures
        r == xxhash64_of(seed, data@),
{
    twox_hash::XxHash64::oneshot(seed, data)
}

pub const BCRYPT_COST: u32 = 10;

pub const ARGON_PASSES: u32 = 30;

pub const ARGON_LANES: u32 = 8;

pub const ARGON_KIB: u32 = 4096;

pub const SHA_REPS: u32 = 70_000;

pub const DIGEST_LEN: usize = 32;

/// bcrypt stops at a zero byte, so each zero byte at position `i` becomes
/// `1 + i % 255`.
pub open spec fn without_zeros(data: Seq<u8>) -> Seq<u8> {
    Seq::new(data.len(), |i: int| if data[i] == 0 { (1 + i % 255) as u8 } else { data[i] })
}

/// The digest of `data` under one key hash algorithm.
pub open spec fn key_hash(data: Seq<u8>, salt: Seq<u8>, alg: KeyHashAlg) -> Seq<u8> {
    match alg {
        KeyHashAlg::BCrypt => bcrypt_2y_text(without_zeros(data), BCRYPT_COST, salt.subrange(0, 16)),
        KeyHashAlg::Argon2i => argon2i_digest(
            ARGON_PASSES,
            ARGON_LANES,
            ARGON_KIB,
            data,
            salt,
            DIGEST_LEN as nat,
        ),
        KeyHashAlg::Sha512 => pbkdf2_hmac_sha512(SHA_REPS, salt, data, DIGEST_LEN as nat),
    }
}

/// The length of a digest: never shorter than a 256-bit key.
pub open spec fn key_hash_len(alg: KeyHashAlg) -> nat {
    match alg {
        KeyHashAlg::BCrypt => 60,
        _ => DIGEST_LEN as nat,
    }
}

fn replace_zeros(data: &[u8]) -> (r: Vec<u8>)
    ensures
        r@ == without_zeros(data@),
{
    let mut out: Vec<u8> = Vec::new();
    let mut i: usize = 0;
    while i < data.len()
        invariant
            0 <= i <= data@.len(),
            out@.len() == i,
            forall|j: int| 0 <= j < i ==> out@[j] == without_zeros(data@)[j],
        decreases data@.len() - i,
    {
        let b = data[i];
        if b == 0 {
            out.push(1 + (i % 255) as u8);
        } else {
            out.push(b);
        }
        i = i + 1;
    }
    assert(out@ =~= without_zeros(data@));
    out
}

/// bcrypt with cost 10, keyed by the first 16 salt bytes; zero bytes of the
/// data are replaced first.
pub fn hash_bcrypt(data: &[u8], salt: &[u8]) -> (r: Vec<u8>)
    requires
        salt@.len() >= 16,
    ensures
        r@ == key_hash(data@, salt@, KeyHashAlg::BCrypt),
        r@.len() == 60,
{
    let nonzero = replace_zeros(data);
    let salt16 = slice_prefix(salt, 16);
    bcrypt_hash_2y(nonzero.as_slice(), BCRYPT_COST, salt16.as_slice())
}

/// Argon2i with 30 passes, 8 lanes and 4096 KiB, 32 bytes of output.
pub fn hash_argon2i(data: &[u8], salt: &[u8]) -> (r: Vec<u8>)
    requires
        data@.len() <= 0xffff_ffff,
        8 <= salt@.len() <= 0xffff_ffff,
    ensures
        r@ == key_hash(data@, salt@, KeyHashAlg::Argon2i),
        r@.len() == DIGEST_LEN,
{
    argon2i_hash(ARGON_PASSES, ARGON_LANES, ARGON_KIB, data, salt, DIGEST_LEN)
}

/// PBKDF2 with HMAC-SHA512 and 70000 iterations, 32 bytes of output.
pub fn hash_sha256(data: &[u8], salt: &[u8]) -> (r: Vec<u8>)
    ensures
        r@ == key_hash(data@, salt@, KeyHashAlg::Sha512),
        r@.len() == DIGEST_LEN,
{
    pbkdf2_sha512(SHA_REPS, salt, data, DIGEST_LEN)
}

/// Hash `data` with one key hash algorithm and the salt.
pub fn hash(data: &[u8], salt: &[u8], algorithm: &KeyHashAlg) -> (r: Vec<u8>)
    requires
        data@.len() <= 0xffff_ffff,
        16 <= salt@.len() <= 0xffff_ffff,
    ensures
        r@ == key_hash(data@, salt@, *algorithm),
        r@.len() == key_hash_len(*algorithm),
{
    match algorithm {
        KeyHashAlg::BCrypt => hash_bcrypt(data, salt),
        KeyHashAlg::Argon2i => hash_argon2i(data, salt),
        KeyHashAlg::Sha512 => hash_sha256(data, salt),
    }
}

/// The fixed salt of `fastish_hash`.
pub open spec fn fastish_salt() -> Seq<u8> {
    seq![
        38u8, 56, 75, 81, 84, 74, 75, 112, 73, 77, 100, 122, 55, 68, 97, 42, 52, 119, 101, 75, 36,
        118, 117, 122, 86, 69, 100, 61, 109, 116, 73, 84,
    ]
}

/// A quick, single-iteration PBKDF2 with a fixed salt; a stand-in for key
/// stretching where speed matters more than strength.
pub fn fastish_hash(data: &[u8]) -> (r: Vec<u8>)
    ensures
        r@ == pbkdf2_hmac_sha512(1, fastish_salt(), data@, DIGEST_LEN as nat),
        r@.len() == DIGEST_LEN,
{
    let salt: Vec<u8> = vec![
        38u8, 56, 75, 81, 84, 74, 75, 112, 73, 77, 100, 122, 55, 68, 97, 42, 52, 119, 101, 75, 36,
        118, 117, 122, 86, 69, 100, 61, 109, 116, 73, 84,
    ];
    assert(salt@ =~= fastish_salt());
    pbkdf2_sha512(1, salt.as_slice(), data, DIGEST_LEN)
}

} // verus!
