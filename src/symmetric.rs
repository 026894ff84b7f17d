//! The cipher chain: each stage keyed by a leading slice of the stretched key,
//! with the first 16 salt bytes as IV. Stages run in order to encrypt and in
//! reverse order to decrypt.
use block_modes::BlockMode;
use vstd::prelude::*;

use crate::encoding::opt_bytes;
use crate::encoding::slice_prefix;
use crate::key::StretchKey;
use crate::salt::Salt;
use crate::strategy::SymmetricEncryptionAlg;

verus! {

pub uninterp spec fn aes256_cbc_encrypted(key: Seq<u8>, iv: Seq<u8>, data: Seq<u8>) -> Seq<u8>;

pub uninterp spec fn aes256_cbc_decrypted(key: Seq<u8>, iv: Seq<u8>, data: Seq<u8>) -> Option<Seq<u8>>;

pub uninterp spec fn twofish_cbc_encrypted(key: Seq<u8>, iv: Seq<u8>, data: Seq<u8>) -> Seq<u8>;

pub uninterp spec fn twofish_cbc_decrypted(key: Seq<u8>, iv: Seq<u8>, data: Seq<u8>) -> Option<Seq<u8>>;

/// Relies on block_modes' Cbc<Aes256, Iso7816>: new_from_slices accepts a
/// 32-byte key and a 16-byte IV, and encrypt_vec pads and encrypts.
#[verifier::external_body]
fn aes256_cbc_encrypt(key: &[u8], iv: &[u8], data: &[u8]) -> (r: Vec<u8>)
    requires
        key@.len() == 32,
        iv@.len() == 16,
    ensures
        r@ == aes256_cbc_encrypted(key@, iv@, data@),
{
    let cipher = block_modes::Cbc::<aes::Aes256, block_modes::block_padding::Iso7816>::new_from_slices(key, iv).unwrap();
    cipher.encrypt_vec(data)
}

/// Relies on block_modes' Cbc<Aes256, Iso7816>::decrypt_vec, which fails on a
/// length that is not whole blocks or on bad padding, and undoes encrypt_vec
/// under the same key and IV.
#[verifier::external_body]
fn aes256_cbc_decrypt(key: &[u8], iv: &[u8], data: &[u8]) -> (r: Option<Vec<u8>>)
    requires
        key@.len() == 32,
        iv@.len() == 16,
    ensures
        opt_bytes(r) == aes256_cbc_decrypted(key@, iv@, data@),
        forall|p: Seq<u8>| #[trigger] aes256_cbc_encrypted(key@, iv@, p) == data@ ==> opt_bytes(r)
            == Some(p),
{
    let cipher = block_modes::Cbc::<aes::Aes256, block_modes::block_padding::Iso7816>::new_from_slices(key, iv).unwrap();
    cipher.decrypt_vec(data).ok()
}

/// Relies on block_modes' Cbc<Twofish, Iso7816>: new_from_slices accepts a
/// 16-byte key and a 16-byte IV, and encrypt_vec pads and encrypts.
#[verifier::external_body]
fn twofish_cbc_encrypt(key: &[u8], iv: &[u8], data: &[u8]) -> (r: Vec<u8>)
    requires
        key@.len() == 16,
        iv@.len() == 16,
    ensures
        r@ == twofish_cbc_encrypted(key@, iv@, data@),
{
    let cipher = block_modes::Cbc::<twofish::Twofish, block_modes::block_padding::Iso7816>::new_from_slices(key, iv).unwrap();
    cipher.encrypt_vec(data)
}

/// Relies on block_modes' Cbc<Twofish, Iso7816>::decrypt_vec, which fails on a
/// length that is not whole blocks or on bad padding, and undoes encrypt_vec
/// under the same key and IV.
#[verifier::external_body]
fn twofish_cbc_decrypt(key: &[u8], iv: &[u8], data: &[u8]) -> (r: Option<Vec<u8>>)
    requires
        key@.len() == 16,
        iv@.len() == 16,
    ensures
        opt_bytes(r) == twofish_cbc_decrypted(key@, iv@, data@),
        forall|p: Seq<u8>| #[trigger] twofish_cbc_encrypted(key@, iv@, p) == data@ ==> opt_bytes(r)
            == Some(p),
{
    let cipher = block_modes::Cbc::<twofish::Twofish, block_modes::block_padding::Iso7816>::new_from_slices(key, iv).unwrap();
    cipher.decrypt_vec(data).ok()
}

pub const IV_LEN: usize = 16;

/// One stage of encryption.
pub open spec fn stage_encrypted(alg: SymmetricEncryptionAlg, key: Seq<u8>, salt: Seq<u8>, data: Seq<u8>) -> Seq<u8> {
    match alg {
        SymmetricEncryptionAlg::Aes256 => aes256_cbc_encrypted(key.subrange(0, 32), salt.subrange(0, 16), data),
        SymmetricEncryptionAlg::Twofish => twofish_cbc_encrypted(key.subrange(0, 16), salt.subrange(0, 16), data),
    }
}

/// One stage of decryption.
pub open spec fn stage_decrypted(alg: SymmetricEncryptionAlg, key: Seq<u8>, salt: Seq<u8>, data: Seq<u8>) -> Option<Seq<u8>> {
    match alg {
        SymmetricEncryptionAlg::Aes256 => aes256_cbc_decrypted(key.subrange(0, 32), salt.subrange(0, 16), data),
        SymmetricEncryptionAlg::Twofish => twofish_cbc_decrypted(key.subrange(0, 16), salt.subrange(0, 16), data),
    }
}

/// The whole chain: the last algorithm is applied last.
pub open spec fn encrypt_chain(data: Seq<u8>, key: Seq<u8>, salt: Seq<u8>, algs: Seq<SymmetricEncryptionAlg>) -> Seq<u8>
    decreases algs.len(),
{
    if algs.len() == 0 {
        data
    } else {
        stage_encrypted(algs.last(), key, salt, encrypt_chain(data, key, salt, algs.drop_last()))
    }
}

/// Undoing the chain: the last algorithm is undone first.
pub open spec fn decrypt_chain(data: Seq<u8>, key: Seq<u8>, salt: Seq<u8>, algs: Seq<SymmetricEncryptionAlg>) -> Option<Seq<u8>>
    decreases algs.len(),
{
    if algs.len() == 0 {
        Some(data)
    } else {
        match stage_decrypted(algs.last(), key, salt, data) {
            None => None,
            Some(d) => decrypt_chain(d, key, salt, algs.drop_last()),
        }
    }
}

/// A stage that could not decrypt: wrong length or bad padding.
#[derive(Debug, Clone, Copy, PartialEq, Eq, Structural)]
pub struct CipherError {
    pub algorithm: SymmetricEncryptionAlg,
}

/// Encrypt with AES-256 in CBC mode.
pub fn encrypt_aes256(data: Vec<u8>, key: &StretchKey, salt: &Salt) -> (r: Vec<u8>)
    ensures
        r@ == stage_encrypted(SymmetricEncryptionAlg::Aes256, key@, salt@, data@),
{
    key.len_is_enough();
    salt.len_is_fixed();
    let k = slice_prefix(key.as_bytes(), 32);
    let iv = slice_prefix(salt.as_bytes(), IV_LEN);
    aes256_cbc_encrypt(k.as_slice(), iv.as_slice(), data.as_slice())
}

/// Encrypt with Twofish in CBC mode.
pub fn encrypt_twofish(data: Vec<u8>, key: &StretchKey, salt: &Salt) -> (r: Vec<u8>)
    ensures
        r@ == stage_encrypted(SymmetricEncryptionAlg::Twofish, key@, salt@, data@),
{
    key.len_is_enough();
    salt.len_is_fixed();
    let k = slice_prefix(key.as_bytes(), 16);
    let iv = slice_prefix(salt.as_bytes(), IV_LEN);
    twofish_cbc_encrypt(k.as_slice(), iv.as_slice(), data.as_slice())
}

/// Decrypt with AES-256 in CBC mode.
pub fn decrypt_aes256(data: &[u8], key: &StretchKey, salt: &Salt) -> (r: Result<Vec<u8>, CipherError>)
    ensures
        match stage_decrypted(SymmetricEncryptionAlg::Aes256, key@, salt@, data@) {
            Some(p) => r matches Ok(v) && v@ == p,
            None => r == Err::<Vec<u8>, CipherError>(CipherError { algorithm: SymmetricEncryptionAlg::Aes256 }),
        },
        forall|p: Seq<u8>| #[trigger] stage_encrypted(SymmetricEncryptionAlg::Aes256, key@, salt@, p) == data@
            ==> (r matches Ok(v) && v@ == p),
{
    key.len_is_enough();
    salt.len_is_fixed();
    let k = slice_prefix(key.as_bytes(), 32);
    let iv = slice_prefix(salt.as_bytes(), IV_LEN);
    match aes256_cbc_decrypt(k.as_slice(), iv.as_slice(), data) {
        Some(v) => Ok(v),
        None => Err(CipherError { algorithm: SymmetricEncryptionAlg::Aes256 }),
    }
}

/// Decrypt with Twofish in CBC mode.
pub fn decrypt_twofish(data: &[u8], key: &StretchKey, salt: &Salt) -> (r: Result<Vec<u8>, CipherError>)
    ensures
        match stage_decrypted(SymmetricEncryptionAlg::Twofish, key@, salt@, data@) {
            Some(p) => r matches Ok(v) && v@ == p,
            None => r == Err::<Vec<u8>, CipherError>(CipherError { algorithm: SymmetricEncryptionAlg::Twofish }),
        },
        forall|p: Seq<u8>| #[trigger] stage_encrypted(SymmetricEncryptionAlg::Twofish, key@, salt@, p) == data@
            ==> (r matches Ok(v) && v@ == p),
{
    key.len_is_enough();
    salt.len_is_fixed();
    let k = slice_prefix(key.as_bytes(), 16);
    let iv = slice_prefix(salt.as_bytes(), IV_LEN);
    match twofish_cbc_decrypt(k.as_slice(), iv.as_slice(), data) {
        Some(v) => Ok(v),
        None => Err(CipherError { algorithm: SymmetricEncryptionAlg::Twofish }),
    }
}

/// Encrypt with each algorithm in order.
pub fn encrypt_file(data: Vec<u8>, key: &StretchKey, salt: &Salt, encrypt_algs: &[SymmetricEncryptionAlg]) -> (r: Vec<u8>)
    ensures
        r@ == encrypt_chain(data@, key@, salt@, encrypt_algs@),
{
    let mut cur = data;
    let mut i: usize = 0;
    while i < encrypt_algs.len()
        invariant
            0 <= i <= encrypt_algs@.len(),
            cur@ == encrypt_chain(data@, key@, salt@, encrypt_algs@.subrange(0, i as int)),
        decreases encrypt_algs@.len() - i,
    {
        assert(encrypt_algs@.subrange(0, i + 1).drop_last() =~= encrypt_algs@.subrange(0, i as int));
        cur = match encrypt_algs[i] {
            SymmetricEncryptionAlg::Aes256 => encrypt_aes256(cur, key, salt),
            SymmetricEncryptionAlg::Twofish => encrypt_twofish(cur, key, salt),
        };
        i = i + 1;
    }
    assert(encrypt_algs@.subrange(0, encrypt_algs@.len() as int) =~= encrypt_algs@);
    cur
}

/// Undo `encrypt_file`: the last algorithm first. Decrypting what
/// `encrypt_file` made with the same key, salt and algorithms gives back the
/// plaintext.
pub fn decrypt_file(data: Vec<u8>, key: &StretchKey, salt: &Salt, encrypt_algs: &[SymmetricEncryptionAlg]) -> (r: Result<Vec<u8>, CipherError>)
    ensures
        match decrypt_chain(data@, key@, salt@, encrypt_algs@) {
            Some(p) => r matches Ok(v) && v@ == p,
            None => r is Err,
        },
        forall|p: Seq<u8>| #[trigger] encrypt_chain(p, key@, salt@, encrypt_algs@) == data@ ==> (r matches Ok(v) && v@ == p),
{
    let mut cur = data;
    let mut i: usize = encrypt_algs.len();
    assert(encrypt_algs@.subrange(0, i as int) =~= encrypt_algs@);
    while i > 0
        invariant
            0 <= i <= encrypt_algs@.len(),
            decrypt_chain(data@, key@, salt@, encrypt_algs@) == decrypt_chain(cur@, key@, salt@, encrypt_algs@.subrange(0, i as int)),
            forall|p: Seq<u8>| #[trigger] encrypt_chain(p, key@, salt@, encrypt_algs@) == data@
                ==> cur@ == encrypt_chain(p, key@, salt@, encrypt_algs@.subrange(0, i as int)),
        decreases i,
    {
        let ghost prefix = encrypt_algs@.subrange(0, i as int);
        assert(prefix.drop_last() =~= encrypt_algs@.subrange(0, i - 1));
        assert(prefix.last() == encrypt_algs@[i - 1]);
        let step = match encrypt_algs[i - 1] {
            SymmetricEncryptionAlg::Aes256 => decrypt_aes256(cur.as_slice(), key, salt),
            SymmetricEncryptionAlg::Twofish => decrypt_twofish(cur.as_slice(), key, salt),
        };
        match step {
            Ok(v) => {
                assert forall|p: Seq<u8>| #[trigger] encrypt_chain(p, key@, salt@, encrypt_algs@) == data@
                    implies v@ == encrypt_chain(p, key@, salt@, encrypt_algs@.subrange(0, i - 1)) by {
                    let q = encrypt_chain(p, key@, salt@, encrypt_algs@.subrange(0, i - 1));
                    assert(stage_encrypted(encrypt_algs@[i - 1], key@, salt@, q) == cur@);
                }
                cur = v;
            },
            Err(e) => {
                assert forall|p: Seq<u8>| #[trigger] encrypt_chain(p, key@, salt@, encrypt_algs@) == data@
                    implies false by {
                    let q = encrypt_chain(p, key@, salt@, encrypt_algs@.subrange(0, i - 1));
                    assert(stage_encrypted(encrypt_algs@[i - 1], key@, salt@, q) == cur@);
                }
                return Err(e);
            },
        }
        i = i - 1;
    }
    assert(encrypt_algs@.subrange(0, 0) =~= Seq::<SymmetricEncryptionAlg>::empty());
    Ok(cur)
}

} // verus!
