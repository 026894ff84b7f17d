use file_endec::checksum::Checksum;
use file_endec::compress::compress_file;
use file_endec::header::write_header;
use file_endec::key::{Key, StretchKey};
use file_endec::strategy::{CompressionAlg, SymmetricEncryptionAlg};
use file_endec::symmetric::encrypt_file;
use file_endec::mockfile::generate_test_file_content_for_test;
use file_endec::pipeline::{
    decrypt_with_key, encrypt_content, inspect_files, DecryptBatch, EndecError, FileProbe,
};
use file_endec::header::{parse_header, HeaderError};
use file_endec::salt::Salt;
use file_endec::strategy::{get_current_version, Version, VersionError};

fn key() -> StretchKey {
    StretchKey::mock_stretch(b"correct horse battery staple")
}

#[test]
fn round_trip_mock_key() {
    let salt = Salt::fixed_for_test(123_456_789);
    let version = get_current_version();
    for plain in [vec![], vec![0u8], generate_test_file_content_for_test(15_001)] {
        let secret = encrypt_content(&plain, &key(), &salt, &version).unwrap();
        let back = decrypt_with_key(&secret, &key()).unwrap();
        assert_eq!(back.plaintext, plain);
        assert!(back.checksum_matches);
        assert_eq!(back.actual, back.expected);
    }
}

#[test]
fn encryption_is_deterministic() {
    let salt = Salt::fixed_for_test(5);
    let plain = generate_test_file_content_for_test(3_000);
    let a = encrypt_content(&plain, &key(), &salt, &Version::new(1, 0, 0)).unwrap();
    let b = encrypt_content(&plain, &key(), &salt, &Version::new(1, 0, 0)).unwrap();
    assert_eq!(a, b);
    let other_salt = encrypt_content(&plain, &key(), &Salt::fixed_for_test(6), &Version::new(1, 0, 0)).unwrap();
    assert_ne!(a, other_salt);
}

#[test]
fn encrypted_file_starts_with_header() {
    let salt = Salt::fixed_for_test(1);
    let secret = encrypt_content(b"hello", &key(), &salt, &Version::new(1, 0, 0)).unwrap();
    assert!(secret.starts_with(b"github.com/mverleg/file_endec\nv 1.0.0\nsalt AQAAAAAAAAAB"));
    let (header, offset) = parse_header(&secret).unwrap();
    assert!(*header.salt() == salt);
    assert_eq!((secret.len() - offset) % 16, 0);
}

#[test]
fn wrong_key_is_detected() {
    let salt = Salt::fixed_for_test(77);
    let plain = generate_test_file_content_for_test(2_000);
    let secret = encrypt_content(&plain, &key(), &salt, &Version::new(1, 0, 0)).unwrap();
    let wrong = StretchKey::mock_stretch(b"incorrect horse battery staple");
    match decrypt_with_key(&secret, &wrong) {
        Ok(d) => {
            assert!(!d.checksum_matches);
            assert_ne!(d.plaintext, plain);
        },
        Err(e) => assert!(matches!(e, EndecError::Cipher(_) | EndecError::Compression(_))),
    }
}

#[test]
fn encrypt_rejects_old_version() {
    let r = encrypt_content(b"x", &key(), &Salt::fixed_for_test(1), &Version::new(0, 1, 0));
    assert_eq!(r, Err(EndecError::Version(VersionError { version: Version::new(0, 1, 0) })));
}

#[test]
fn decrypt_rejects_corrupt_data() {
    assert!(matches!(decrypt_with_key(b"no header here\n", &key()), Err(EndecError::Header(HeaderError::UnknownMarker))));
    let salt = Salt::fixed_for_test(3);
    let mut secret = encrypt_content(b"some text", &key(), &salt, &Version::new(1, 0, 0)).unwrap();
    secret.pop();
    assert!(matches!(decrypt_with_key(&secret, &key()), Err(EndecError::Cipher(_))));
}

fn probe(name: &str, is_file: bool, out_exists: bool) -> FileProbe {
    FileProbe {
        in_path: name.to_string(),
        is_file,
        size: 4096,
        out_path: format!("{}.enc", name),
        out_exists,
    }
}

#[test]
fn preflight_reports_all_missing_inputs() {
    let probes = vec![probe("a", true, false), probe("b", false, false), probe("c", false, true), probe("d", true, true)];
    let r = inspect_files(&probes, false);
    assert_eq!(r.err(), Some(EndecError::MissingInputs(vec!["b".to_string(), "c".to_string()])));
}

#[test]
fn preflight_reports_all_existing_outputs() {
    let probes = vec![probe("a", true, true), probe("b", true, false), probe("c", true, true)];
    let r = inspect_files(&probes, false);
    assert_eq!(r.err(), Some(EndecError::OutputsExist(vec!["a.enc".to_string(), "c.enc".to_string()])));
    let infos = inspect_files(&probes, true).unwrap();
    assert_eq!(infos.len(), 3);
    assert_eq!(infos[2].path_str(), "c");
    assert_eq!(infos[2].out_path, "c.enc");
    assert_eq!(infos[2].size_kb, 4);
}

#[test]
fn batch_without_mismatches_succeeds() {
    let batch = DecryptBatch::new(Key::new("pw")).ok().unwrap();
    assert_eq!(batch.mismatches(), 0);
    assert_eq!(batch.finish(), Ok(()));
}

#[test]
fn key_strength_and_equality() {
    let weak = Key::new("abc");
    let strong = Key::new("correct horse battery staple 8!");
    assert!(!weak.is_strong());
    assert!(strong.is_strong());
    assert!(Key::new("abc") == weak);
    assert!(Key::new("abd") != weak);
    assert_eq!(Key::new("").strength, None);
}

#[test]
fn batch_round_trip_and_mismatch_count() {
    let raw = Key::new("MY secret p@ssw0rd");
    let salt = Salt::fixed_for_test(2_468);
    let version = Version::new(1, 0, 0);
    let stretched = file_endec::pipeline::stretch_for_version(&raw, &salt, &version).unwrap();
    let plain = generate_test_file_content_for_test(1_000);
    let good = encrypt_content(&plain, &stretched, &salt, &version).unwrap();
    let small = compress_file(plain.clone(), &CompressionAlg::Brotli).unwrap();
    let secret = encrypt_file(small, &stretched, &salt, &[SymmetricEncryptionAlg::Aes256, SymmetricEncryptionAlg::Twofish]);
    let header = file_endec::header::Header::new(version, salt.clone(), Checksum::fixed_for_test(vec![0; 16])).unwrap();
    let mut tampered = Vec::new();
    write_header(&mut tampered, &header);
    tampered.extend_from_slice(&secret);
    let mut batch = DecryptBatch::new(raw).ok().unwrap();
    let first = batch.decrypt_next(&good).ok().unwrap();
    assert_eq!(first.plaintext, plain);
    assert!(first.checksum_matches);
    assert_eq!(batch.mismatches(), 0);
    let second = batch.decrypt_next(&tampered).ok().unwrap();
    assert_eq!(second.plaintext, plain);
    assert!(!second.checksum_matches);
    assert_eq!(batch.mismatches(), 1);
    assert_eq!(batch.finish(), Err(EndecError::ChecksumMismatches(1)));
}
