use file_endec::strategy::{
    get_current_version, get_current_version_strategy, get_version_strategy, CompressionAlg,
    KeyHashAlg, SymmetricEncryptionAlg, Verbosity, Version, VersionError,
};

#[test]
fn test_current_version_strategy() {
    get_current_version_strategy();
    get_current_version_strategy();
}

#[test]
fn minimum_version() {
    assert!(!get_current_version().is_before(&Version::new(1, 0, 0)));
}

#[test]
fn test_add() {
    assert!(!get_current_version().is_before(&Version::new(1, 0, 0)));
}

#[test]
fn numbers_only() {
    let v = get_current_version();
    let text = format!("{}.{}.{}", v.major, v.minor, v.patch);
    assert_eq!(Version::parse_text(text.as_bytes()), Some(v));
    assert_eq!(Version::parse_text(b"1.0.0-rc1"), None);
    assert_eq!(Version::parse_text(b"1.0.0+build5"), None);
}

#[test]
fn strategy_of_version_one() {
    let s = get_version_strategy(&Version::new(1, 0, 0)).unwrap();
    assert_eq!(s.stretch_count, 5);
    assert_eq!(s.compression_algorithm, CompressionAlg::Brotli);
    assert_eq!(s.key_hash_algorithms, vec![KeyHashAlg::BCrypt, KeyHashAlg::Argon2i, KeyHashAlg::Sha512]);
    assert_eq!(s.symmetric_algorithms, vec![SymmetricEncryptionAlg::Aes256, SymmetricEncryptionAlg::Twofish]);
    assert_eq!(get_current_version_strategy(), s);
}

#[test]
fn versions_below_oldest_rejected() {
    for v in [Version::new(0, 0, 0), Version::new(0, 9, 9), Version::new(0, 99, 1_000)] {
        assert_eq!(get_version_strategy(&v), Err(VersionError { version: v }));
    }
}

#[test]
fn later_versions_resolve_to_latest_entry() {
    let s = get_version_strategy(&Version::new(1, 0, 0)).unwrap();
    assert_eq!(get_version_strategy(&Version::new(1, 0, 1)).unwrap(), s);
    assert_eq!(get_version_strategy(&Version::new(7, 3, 0)).unwrap(), s);
}

#[test]
fn version_order() {
    assert!(Version::new(0, 9, 9).is_before(&Version::new(1, 0, 0)));
    assert!(Version::new(1, 0, 0).is_before(&Version::new(1, 0, 1)));
    assert!(Version::new(1, 2, 0).is_before(&Version::new(2, 0, 0)));
    assert!(!Version::new(1, 0, 0).is_before(&Version::new(1, 0, 0)));
    assert!(!Version::new(1, 1, 0).is_before(&Version::new(1, 0, 9)));
}

#[test]
fn verbosity_levels() {
    assert_eq!(Verbosity::default(), Verbosity::Normal);
    assert!(Verbosity::Debug.debug());
    assert!(!Verbosity::Normal.debug());
    assert!(Verbosity::Quiet.quiet());
    assert!(!Verbosity::Debug.quiet());
}
