//! Encryption and decryption of one file's content, the state of a decryption
//! batch, and the preflight check of a whole batch. Reading and writing files
//! is left to the caller, which hands over bytes.
use vstd::prelude::*;

use crate::checksum::{calculate_checksum, checksum_value, Checksum, ChecksumType, CHECKSUM_LEN};
use crate::compress::{compress_file, compressed, decompress_file, decompressed, CompressError};
use crate::encoding::{append_bytes, copy_range, occurs_at};
use crate::header::{
    header_bytes, header_plain, parse_header, parse_header_spec, starts_with_header,
    write_header, Header, HeaderError, HeaderSpec,
};
use crate::key::{stretch_key, stretch_spec, Key, KeyCache, StretchKey};
use crate::salt::{Salt, SALT_LEN};
use crate::strategy::{get_version_strategy, registered_strategy, Version, VersionError};
use crate::symmetric::{decrypt_chain, decrypt_file, encrypt_chain, encrypt_file, CipherError};

verus! {

/// Why a file could not be encrypted or decrypted, or a batch was refused.
#[derive(Debug, Clone, PartialEq, Eq)]
pub enum EndecError {
    /// No strategy is registered for the version.
    Version(VersionError),
    /// The header is corrupt or not recognised.
    Header(HeaderError),
    /// Compressing or decompressing failed.
    Compression(CompressError),
    /// A cipher stage could not decrypt.
    Cipher(CipherError),
    /// The passphrase is longer than the key hashes accept.
    KeyTooLong,
    /// These inputs do not exist or are not regular files.
    MissingInputs(Vec<String>),
    /// These outputs exist already and overwriting was not allowed.
    OutputsExist(Vec<String>),
    /// This many files decrypted to content whose checksum did not match.
    ChecksumMismatches(u64),
}

/// The key that a passphrase stretches to under a version's strategy.
pub open spec fn key_for(raw: Seq<u8>, salt: Seq<u8>, version: Version) -> Seq<u8> {
    match registered_strategy(version) {
        Some(st) => stretch_spec(raw, salt, st.stretch_count, st.key_hash_algorithms),
        None => raw,
    }
}

/// The header that encrypting `plain` under `salt` and `version` writes.
pub open spec fn header_for(plain: Seq<u8>, salt: Seq<u8>, version: Version) -> HeaderSpec {
    HeaderSpec {
        version,
        salt,
        checksum: (ChecksumType::Xxhash_Sha256_b64, checksum_value(plain)),
    }
}

/// An encrypted file: the header, then the compressed plaintext through the
/// cipher chain of the version's strategy.
pub open spec fn encrypted_spec(plain: Seq<u8>, key: Seq<u8>, salt: Seq<u8>, version: Version) -> Result<Seq<u8>, EndecError> {
    match registered_strategy(version) {
        None => Err(EndecError::Version(VersionError { version })),
        Some(st) => match compressed(plain, st.compression_algorithm) {
            Err(e) => Err(EndecError::Compression(e)),
            Ok(c) => Ok(
                header_bytes(header_for(plain, salt, version)) + encrypt_chain(
                    c,
                    key,
                    salt,
                    st.symmetric_algorithms,
                ),
            ),
        },
    }
}

/// Encrypt the content of one file under `version`'s strategy with an
/// already stretched key. The result is a function of the arguments alone.
pub fn encrypt_content(plain: &[u8], key: &StretchKey, salt: &Salt, version: &Version) -> (r: Result<Vec<u8>, EndecError>)
    ensures
        match encrypted_spec(plain@, key@, salt@, *version) {
            Ok(b) => r matches Ok(v) && v@ == b,
            Err(e) => r matches Err(re) && re == e,
        },
        r is Ok ==> header_plain(header_for(plain@, salt@, *version)) && checksum_value(plain@).len()
            == CHECKSUM_LEN,
{
    let strategy = match get_version_strategy(version) {
        Ok(s) => s,
        Err(e) => {
            return Err(EndecError::Version(e));
        },
    };
    let checksum = calculate_checksum(plain);
    let mut owned: Vec<u8> = Vec::new();
    append_bytes(&mut owned, plain);
    assert(owned@ =~= plain@);
    let small = match compress_file(owned, &strategy.compression_algorithm) {
        Ok(v) => v,
        Err(e) => {
            return Err(EndecError::Compression(e));
        },
    };
    let secret = encrypt_file(small, key, salt, strategy.symmetric_algorithms.as_slice());
    proof {
        crate::encoding::lemma_encode_bound();
    }
    let header = match Header::new(*version, salt.clone(), checksum) {
        Ok(h) => h,
        Err(e) => {
            return Err(EndecError::Version(e));
        },
    };
    let mut out: Vec<u8> = Vec::new();
    write_header(&mut out, &header);
    append_bytes(&mut out, secret.as_slice());
    assert(header@ == header_for(plain@, salt@, *version));
    assert(out@ =~= header_bytes(header_for(plain@, salt@, *version)) + secret@);
    Ok(out)
}

/// The outcome of decrypting one file.
pub struct Decrypted {
    pub plaintext: Vec<u8>,
    /// The checksum the header holds.
    pub expected: Checksum,
    /// The checksum of the recovered plaintext.
    pub actual: Checksum,
    /// Whether the two agree; when they do not, the key was probably wrong.
    pub checksum_matches: bool,
}

/// Decrypting with a stretched key: the header selects the strategy, the
/// chain is undone and the result decompressed. The plaintext is given
/// together with the header's checksum value.
pub open spec fn decrypted_with_key_spec(data: Seq<u8>, key: Seq<u8>) -> Result<(Seq<u8>, Seq<u8>), EndecError> {
    match parse_header_spec(data) {
        Err(e) => Err(EndecError::Header(e)),
        Ok((h, n)) => {
            let st = registered_strategy(h.version)->0;
            match decrypt_chain(data.subrange(n, data.len() as int), key, h.salt, st.symmetric_algorithms) {
                None => Err(EndecError::Cipher(CipherError { algorithm: st.symmetric_algorithms[0] })),
                Some(c) => match decompressed(c, st.compression_algorithm) {
                    Err(e) => Err(EndecError::Compression(e)),
                    Ok(p) => Ok((p, h.checksum.1)),
                },
            }
        },
    }
}

/// Decrypting with a passphrase: as with a key, where the key is the
/// passphrase stretched with the header's salt under the header's strategy.
pub open spec fn decrypted_spec(data: Seq<u8>, raw: Seq<u8>) -> Result<(Seq<u8>, Seq<u8>), EndecError> {
    match parse_header_spec(data) {
        Err(e) => Err(EndecError::Header(e)),
        Ok((h, n)) => decrypted_with_key_spec(data, key_for(raw, h.salt, h.version)),
    }
}

/// Whether `data` is what `encrypt_content` gave for `plain` with the
/// stretched key `key`, the salt `salt` and the version `version`.
pub open spec fn is_encryption_with_key(data: Seq<u8>, plain: Seq<u8>, key: Seq<u8>, salt: Seq<u8>, version: Version) -> bool {
    salt.len() == SALT_LEN && header_plain(header_for(plain, salt, version))
        && checksum_value(plain).len() == CHECKSUM_LEN && encrypted_spec(
        plain,
        key,
        salt,
        version,
    ) == Ok::<Seq<u8>, EndecError>(data)
}

/// Whether `data` is what encrypting `plain` with the passphrase `raw`, the
/// salt `salt` and the version `version` gave.
pub open spec fn is_encryption_of(data: Seq<u8>, plain: Seq<u8>, raw: Seq<u8>, salt: Seq<u8>, version: Version) -> bool {
    is_encryption_with_key(data, plain, key_for(raw, salt, version), salt, version)
}

proof fn lemma_prefix_occurs(a: Seq<u8>, b: Seq<u8>)
    ensures
        occurs_at(a + b, 0, a),
        (a + b).subrange(a.len() as int, (a + b).len() as int) == b,
{
    assert((a + b).subrange(0, a.len() as int) =~= a);
    assert((a + b).subrange(a.len() as int, (a + b).len() as int) =~= b);
}

/// Decrypt the content of one file with an already stretched key. What
/// `encrypt_content` made from a plaintext with the same key decrypts back to
/// that plaintext, with a matching checksum.
pub fn decrypt_with_key(data: &[u8], key: &StretchKey) -> (r: Result<Decrypted, EndecError>)
    ensures
        match decrypted_with_key_spec(data@, key@) {
            Ok((p, expected)) => r matches Ok(d) && d.plaintext@ == p && d.expected.value@ == expected
                && d.actual@ == (ChecksumType::Xxhash_Sha256_b64, checksum_value(p))
                && d.checksum_matches == (checksum_value(p) == expected),
            Err(EndecError::Cipher(_)) => r matches Err(EndecError::Cipher(_)),
            Err(e) => r matches Err(re) && re == e,
        },
        forall|p: Seq<u8>, s: Seq<u8>, v: Version| #[trigger]
            is_encryption_with_key(data@, p, key@, s, v) ==> (r matches Ok(d)
                && d.plaintext@ == p && d.checksum_matches),
{
    let (header, offset) = match parse_header(data) {
        Ok(x) => x,
        Err(e) => {
            assert forall|p: Seq<u8>, s: Seq<u8>, v: Version| #[trigger]
                is_encryption_with_key(data@, p, key@, s, v) implies false by {
                let hb = header_bytes(header_for(p, s, v));
                lemma_prefix_occurs(hb, data@.subrange(hb.len() as int, data@.len() as int));
                assert(data@ =~= hb + data@.subrange(hb.len() as int, data@.len() as int));
                crate::encoding::lemma_encode_bound();
                assert(starts_with_header(data@, header_for(p, s, v)));
            }
            return Err(EndecError::Header(e));
        },
    };
    let strategy = header.strategy();
    let salt = header.salt();
    let secret = copy_range(data, offset, data.len());
    let small = decrypt_file(secret, key, salt, strategy.symmetric_algorithms.as_slice());
    proof {
        assert forall|p: Seq<u8>, s: Seq<u8>, v: Version| #[trigger]
            is_encryption_with_key(data@, p, key@, s, v) implies header@ == header_for(p, s, v)
            && offset == header_bytes(header_for(p, s, v)).len() by {
            let hb = header_bytes(header_for(p, s, v));
            lemma_prefix_occurs(hb, data@.subrange(hb.len() as int, data@.len() as int));
            assert(data@ =~= hb + data@.subrange(hb.len() as int, data@.len() as int));
            crate::encoding::lemma_encode_bound();
            assert(starts_with_header(data@, header_for(p, s, v)));
        }
    }
    let small = match small {
        Ok(v) => v,
        Err(e) => {
            assert forall|p: Seq<u8>, s: Seq<u8>, v: Version| #[trigger]
                is_encryption_with_key(data@, p, key@, s, v) implies false by {
                let hb = header_bytes(header_for(p, s, v));
                let st = registered_strategy(v)->0;
                let c = compressed(p, st.compression_algorithm)->Ok_0;
                assert(data@ == hb + encrypt_chain(c, key@, s, st.symmetric_algorithms));
                lemma_prefix_occurs(hb, encrypt_chain(c, key@, s, st.symmetric_algorithms));
                assert(encrypt_chain(c, key@, salt@, strategy@.symmetric_algorithms) == secret@);
            }
            return Err(EndecError::Cipher(e));
        },
    };
    let big = match decompress_file(small, &strategy.compression_algorithm) {
        Ok(v) => v,
        Err(e) => {
            assert forall|p: Seq<u8>, s: Seq<u8>, v: Version| #[trigger]
                is_encryption_with_key(data@, p, key@, s, v) implies false by {
                let hb = header_bytes(header_for(p, s, v));
                let st = registered_strategy(v)->0;
                let c = compressed(p, st.compression_algorithm)->Ok_0;
                lemma_prefix_occurs(hb, encrypt_chain(c, key@, s, st.symmetric_algorithms));
                assert(encrypt_chain(c, key@, salt@, strategy@.symmetric_algorithms) == secret@);
                assert(compressed(p, strategy@.compression_algorithm) == Ok::<Seq<u8>, CompressError>(c));
            }
            return Err(EndecError::Compression(e));
        },
    };
    let actual = calculate_checksum(big.as_slice());
    let expected = header.checksum().clone();
    let checksum_matches = actual.same_as(&expected);
    assert forall|p: Seq<u8>, s: Seq<u8>, v: Version| #[trigger]
        is_encryption_with_key(data@, p, key@, s, v) implies big@ == p && checksum_matches by {
        let hb = header_bytes(header_for(p, s, v));
        let st = registered_strategy(v)->0;
        let c = compressed(p, st.compression_algorithm)->Ok_0;
        lemma_prefix_occurs(hb, encrypt_chain(c, key@, s, st.symmetric_algorithms));
        assert(encrypt_chain(c, key@, salt@, strategy@.symmetric_algorithms) == secret@);
        assert(compressed(p, strategy@.compression_algorithm) == Ok::<Seq<u8>, CompressError>(c));
    }
    Ok(Decrypted { plaintext: big, expected, actual, checksum_matches })
}

/// Decrypt the content of one file with the batch's cache of stretched keys.
/// What `encrypt_content` made from a plaintext, with the key that the cache's
/// passphrase stretches to, decrypts back to that plaintext with a matching
/// checksum.
pub fn decrypt_content(data: &[u8], cache: &mut KeyCache) -> (r: Result<Decrypted, EndecError>)
    requires
        old(cache).wf(),
        old(cache).key_bytes().len() <= 0xffff_ffff,
    ensures
        final(cache).wf(),
        final(cache).key_bytes() == old(cache).key_bytes(),
        match decrypted_spec(data@, old(cache).key_bytes()) {
            Ok((p, expected)) => r matches Ok(d) && d.plaintext@ == p && d.expected.value@ == expected
                && d.actual@ == (ChecksumType::Xxhash_Sha256_b64, checksum_value(p))
                && d.checksum_matches == (checksum_value(p) == expected),
            Err(EndecError::Cipher(_)) => r matches Err(EndecError::Cipher(_)),
            Err(e) => r matches Err(re) && re == e,
        },
        forall|p: Seq<u8>, s: Seq<u8>, v: Version| #[trigger]
            is_encryption_of(data@, p, old(cache).key_bytes(), s, v) ==> (r matches Ok(d)
                && d.plaintext@ == p && d.checksum_matches),
{
    let ghost raw = cache.key_bytes();
    let header = match parse_header(data) {
        Ok((h, _)) => h,
        Err(e) => {
            assert forall|p: Seq<u8>, s: Seq<u8>, v: Version| #[trigger]
                is_encryption_of(data@, p, raw, s, v) implies false by {
                let hb = header_bytes(header_for(p, s, v));
                lemma_prefix_occurs(hb, data@.subrange(hb.len() as int, data@.len() as int));
                assert(data@ =~= hb + data@.subrange(hb.len() as int, data@.len() as int));
                crate::encoding::lemma_encode_bound();
                assert(starts_with_header(data@, header_for(p, s, v)));
            }
            return Err(EndecError::Header(e));
        },
    };
    let strategy = header.strategy();
    let key = cache.get_or_stretch(header.salt(), &strategy);
    let r = decrypt_with_key(data, &key);
    assert forall|p: Seq<u8>, s: Seq<u8>, v: Version| #[trigger]
        is_encryption_of(data@, p, raw, s, v) implies is_encryption_with_key(data@, p, key@, s, v) by {
        let hb = header_bytes(header_for(p, s, v));
        lemma_prefix_occurs(hb, data@.subrange(hb.len() as int, data@.len() as int));
        assert(data@ =~= hb + data@.subrange(hb.len() as int, data@.len() as int));
        crate::encoding::lemma_encode_bound();
        assert(starts_with_header(data@, header_for(p, s, v)));
    }
    r
}

/// Stretch a passphrase for encrypting under `version`. One stretch serves a
/// whole batch, since the batch shares one salt.
pub fn stretch_for_version(raw_key: &Key, salt: &Salt, version: &Version) -> (r: Result<StretchKey, EndecError>)
    ensures
        registered_strategy(*version) is None ==> r == Err::<StretchKey, EndecError>(
            EndecError::Version(VersionError { version: *version }),
        ),
        registered_strategy(*version) is Some && raw_key.bytes().len() > 0xffff_ffff ==> r
            == Err::<StretchKey, EndecError>(EndecError::KeyTooLong),
        registered_strategy(*version) is Some && raw_key.bytes().len() <= 0xffff_ffff ==> (r matches Ok(
            k,
        ) && k@ == key_for(raw_key.bytes(), salt@, *version)),
{
    let strategy = match get_version_strategy(version) {
        Ok(s) => s,
        Err(e) => {
            return Err(EndecError::Version(e));
        },
    };
    if raw_key.as_bytes().len() > 0xffff_ffff {
        return Err(EndecError::KeyTooLong);
    }
    Ok(
        stretch_key(
            raw_key,
            salt,
            strategy.stretch_count,
            strategy.key_hash_algorithms.as_slice(),
        ),
    )
}

/// The state of a decryption batch: the shared cache of stretched keys, and
/// how many files so far decrypted to content whose checksum did not match.
/// A mismatch does not stop the batch; `finish` reports it.
pub struct DecryptBatch {
    cache: KeyCache,
    mismatches: u64,
}

impl DecryptBatch {
    pub closed spec fn wf(&self) -> bool {
        self.cache.wf() && self.cache.key_bytes().len() <= 0xffff_ffff
    }

    /// The passphrase of the batch.
    pub closed spec fn key_bytes(&self) -> Seq<u8> {
        self.cache.key_bytes()
    }

    pub closed spec fn mismatch_count(&self) -> u64 {
        self.mismatches
    }

    /// Start a batch; fails when the passphrase is too long for the key hashes.
    pub fn new(raw_key: Key) -> (r: Result<DecryptBatch, EndecError>)
        ensures
            raw_key.bytes().len() <= 0xffff_ffff ==> (r matches Ok(b) && b.wf() && b.key_bytes()
                == raw_key.bytes() && b.mismatch_count() == 0),
            raw_key.bytes().len() > 0xffff_ffff ==> r == Err::<DecryptBatch, EndecError>(
                EndecError::KeyTooLong,
            ),
    {
        if raw_key.as_bytes().len() > 0xffff_ffff {
            return Err(EndecError::KeyTooLong);
        }
        Ok(DecryptBatch { cache: KeyCache::new(raw_key), mismatches: 0 })
    }

    /// Decrypt the next file of the batch, counting a checksum mismatch.
    pub fn decrypt_next(&mut self, data: &[u8]) -> (r: Result<Decrypted, EndecError>)
        requires
            old(self).wf(),
        ensures
            final(self).wf(),
            final(self).key_bytes() == old(self).key_bytes(),
            match decrypted_spec(data@, old(self).key_bytes()) {
                Ok((p, expected)) => r matches Ok(d) && d.plaintext@ == p && d.expected.value@
                    == expected && d.checksum_matches == (checksum_value(p) == expected),
                Err(EndecError::Cipher(_)) => r matches Err(EndecError::Cipher(_)),
                Err(e) => r matches Err(re) && re == e,
            },
            forall|p: Seq<u8>, s: Seq<u8>, v: Version| #[trigger]
                is_encryption_of(data@, p, old(self).key_bytes(), s, v) ==> (r matches Ok(d)
                    && d.plaintext@ == p && d.checksum_matches),
            final(self).mismatch_count() == if r matches Ok(d) && !d.checksum_matches
                && old(self).mismatch_count() < u64::MAX {
                (old(self).mismatch_count() + 1) as u64
            } else {
                old(self).mismatch_count()
            },
    {
        let r = decrypt_content(data, &mut self.cache);
        if let Ok(d) = &r {
            if !d.checksum_matches && self.mismatches < u64::MAX {
                self.mismatches = self.mismatches + 1;
            }
        }
        r
    }

    /// How many files so far decrypted with a mismatching checksum.
    pub fn mismatches(&self) -> (r: u64)
        ensures
            r == self.mismatch_count(),
    {
        self.mismatches
    }

    /// The batch's outcome: a failure naming the count when any checksum
    /// did not match.
    pub fn finish(&self) -> (r: Result<(), EndecError>)
        ensures
            self.mismatch_count() == 0 ==> r == Ok::<(), EndecError>(()),
            self.mismatch_count() > 0 ==> r == Err::<(), EndecError>(
                EndecError::ChecksumMismatches(self.mismatch_count()),
            ),
    {
        if self.mismatches > 0 {
            Err(EndecError::ChecksumMismatches(self.mismatches))
        } else {
            Ok(())
        }
    }
}

/// What the caller found out about one input before anything is written.
pub struct FileProbe {
    pub in_path: String,
    /// The input exists and is a regular file.
    pub is_file: bool,
    /// The input's size in bytes.
    pub size: u64,
    pub out_path: String,
    /// Something exists at the output path already.
    pub out_exists: bool,
}

/// One input of a batch that passed preflight.
pub struct FileInfo {
    pub in_path: String,
    pub size_kb: u64,
    pub out_path: String,
}

impl FileInfo {
    pub fn path_str(&self) -> (r: String)
        ensures
            r@ == self.in_path@,
    {
        self.in_path.clone()
    }
}

/// The inputs that are missing or not regular files, in order.
pub open spec fn missing_inputs(ps: Seq<FileProbe>) -> Seq<Seq<char>>
    decreases ps.len(),
{
    if ps.len() == 0 {
        Seq::empty()
    } else if !ps.last().is_file {
        missing_inputs(ps.drop_last()).push(ps.last().in_path@)
    } else {
        missing_inputs(ps.drop_last())
    }
}

/// The outputs of present inputs that exist already, in order, unless
/// overwriting is allowed.
pub open spec fn existing_outputs(ps: Seq<FileProbe>, overwrite: bool) -> Seq<Seq<char>>
    decreases ps.len(),
{
    if ps.len() == 0 {
        Seq::empty()
    } else if ps.last().is_file && ps.last().out_exists && !overwrite {
        existing_outputs(ps.drop_last(), overwrite).push(ps.last().out_path@)
    } else {
        existing_outputs(ps.drop_last(), overwrite)
    }
}

pub open spec fn string_views(v: Seq<String>) -> Seq<Seq<char>> {
    v.map_values(|s: String| s@)
}

/// Check a whole batch before any write: every input must be a regular file,
/// and no output may exist unless overwriting is allowed. All missing inputs
/// are reported together, and so are all existing outputs.
pub fn inspect_files(probes: &[FileProbe], overwrite: bool) -> (r: Result<Vec<FileInfo>, EndecError>)
    ensures
        missing_inputs(probes@).len() > 0 ==> (r matches Err(EndecError::MissingInputs(names))
            && string_views(names@) == missing_inputs(probes@)),
        missing_inputs(probes@).len() == 0 && existing_outputs(probes@, overwrite).len() > 0 ==> (
        r matches Err(EndecError::OutputsExist(names)) && string_views(names@) == existing_outputs(
            probes@,
            overwrite,
        )),
        missing_inputs(probes@).len() == 0 && existing_outputs(probes@, overwrite).len() == 0 ==> (
        r matches Ok(infos) && infos@.len() == probes@.len() && forall|i: int|
            0 <= i < probes@.len() ==> {
                &&& (#[trigger] infos@[i]).in_path@ == probes@[i].in_path@
                &&& infos@[i].out_path@ == probes@[i].out_path@
                &&& infos@[i].size_kb == probes@[i].size / 1024
            }),
{
    let mut missing: Vec<String> = Vec::new();
    let mut existing: Vec<String> = Vec::new();
    let mut infos: Vec<FileInfo> = Vec::new();
    let mut i: usize = 0;
    while i < probes.len()
        invariant
            0 <= i <= probes@.len(),
            string_views(missing@) == missing_inputs(probes@.subrange(0, i as int)),
            string_views(existing@) == existing_outputs(probes@.subrange(0, i as int), overwrite),
            infos@.len() == i,
            forall|j: int|
                0 <= j < i ==> {
                    &&& (#[trigger] infos@[j]).in_path@ == probes@[j].in_path@
                    &&& infos@[j].out_path@ == probes@[j].out_path@
                    &&& infos@[j].size_kb == probes@[j].size / 1024
                },
        decreases probes@.len() - i,
    {
        let p = &probes[i];
        let ghost before = probes@.subrange(0, i as int);
        assert(probes@.subrange(0, i + 1).drop_last() =~= before);
        assert(probes@.subrange(0, i + 1).last() == probes@[i as int]);
        if !p.is_file {
            missing.push(p.in_path.clone());
        } else if p.out_exists && !overwrite {
            existing.push(p.out_path.clone());
        }
        assert(string_views(missing@) =~= missing_inputs(probes@.subrange(0, i + 1)));
        assert(string_views(existing@) =~= existing_outputs(probes@.subrange(0, i + 1), overwrite));
        infos.push(FileInfo { in_path: p.in_path.clone(), size_kb: p.size / 1024, out_path: p.out_path.clone() });
        i = i + 1;
    }
    assert(probes@.subrange(0, probes@.len() as int) =~= probes@);
    if missing.len() > 0 {
        return Err(EndecError::MissingInputs(missing));
    }
    if existing.len() > 0 {
        return Err(EndecError::OutputsExist(existing));
    }
    Ok(infos)
}

} // verus!
