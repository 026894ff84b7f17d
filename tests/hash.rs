use file_endec::hash::{fastish_hash, hash, hash_argon2i, hash_bcrypt, hash_sha256};
use file_endec::key::{stretch_key, Key};
use file_endec::salt::Salt;
use file_endec::strategy::{get_current_version_strategy, KeyHashAlg};

#[test]
fn test_hash_bcrypt() {
    let hashed = hash_bcrypt(&[1; 32], &[2; 32]);
    let expected: Vec<u8> = vec![
        36, 50, 121, 36, 49, 48, 36, 46, 101, 71, 65, 46, 101, 71, 65, 46, 101, 71, 65, 46,
        101, 71, 65, 46, 101, 71, 65, 46, 101, 66, 114, 86, 57, 105, 106, 106, 103, 68, 70, 75,
        79, 97, 88, 118, 84, 121, 97, 97, 48, 115, 52, 67, 47, 54, 97, 109, 79, 48, 89, 117,
    ];
    assert_eq!(expected, hashed);
}

#[test]
fn test_hash_bcrypt_0() {
    let hashed = hash_bcrypt(&[0; 32], &[0; 16]);
    let expected: Vec<u8> = vec![
        36, 50, 121, 36, 49, 48, 36, 46, 46, 46, 46, 46, 46, 46, 46, 46, 46, 46, 46, 46, 46,
        46, 46, 46, 46, 46, 46, 46, 46, 99, 118, 56, 107, 82, 56, 47, 81, 116, 102, 76, 79, 50,
        50, 55, 98, 106, 49, 104, 56, 66, 69, 74, 112, 47, 55, 67, 109, 111, 77, 121,
    ];
    assert_eq!(expected, hashed);
}

#[test]
fn test_hash_argon2i() {
    let hashed = hash_argon2i(&[1; 32], &[2; 32]);
    let expected: Vec<u8> = vec![
        114, 139, 48, 2, 98, 196, 133, 19, 232, 144, 6, 149, 44, 68, 116, 152, 233, 120, 110,
        205, 15, 29, 180, 181, 4, 86, 84, 153, 228, 231, 106, 225,
    ];
    assert_eq!(expected, hashed);
}

#[test]
fn test_hash_argon2i_0() {
    let hashed = hash_argon2i(&[0; 32], &[0; 16]);
    let expected: Vec<u8> = vec![
        48, 210, 130, 114, 168, 121, 20, 79, 3, 184, 46, 80, 43, 161, 165, 121, 68, 175, 154,
        87, 128, 226, 23, 244, 222, 136, 41, 30, 92, 110, 88, 223,
    ];
    assert_eq!(expected, hashed);
}

#[test]
fn test_hash_sha256() {
    let hashed = hash_sha256(&[1; 32], &[2; 32]);
    let expected: Vec<u8> = vec![
        89, 92, 124, 234, 51, 101, 87, 71, 223, 104, 235, 37, 116, 52, 18, 253, 105, 30, 196,
        19, 174, 103, 43, 152, 200, 52, 241, 160, 102, 155, 118, 89,
    ];
    assert_eq!(expected, hashed);
}

#[test]
fn test_hash_sha256_0() {
    let hashed = hash_sha256(&[0; 32], &[0; 16]);
    let expected: Vec<u8> = vec![
        127, 219, 200, 223, 214, 170, 211, 3, 75, 60, 208, 193, 156, 151, 72, 51, 164, 78, 227,
        245, 160, 150, 122, 232, 234, 10, 198, 186, 236, 182, 37, 204,
    ];
    assert_eq!(expected, hashed);
}

#[test]
fn hash_dispatches_by_algorithm() {
    let data = [3u8; 20];
    let salt = [4u8; 64];
    assert_eq!(hash(&data, &salt, &KeyHashAlg::BCrypt), hash_bcrypt(&data, &salt));
    assert_eq!(hash(&data, &salt, &KeyHashAlg::Sha512), hash_sha256(&data, &salt));
    assert_eq!(hash(&data, &salt, &KeyHashAlg::BCrypt).len(), 60);
    assert_eq!(hash(&data, &salt, &KeyHashAlg::Sha512).len(), 32);
}

#[test]
fn bcrypt_zero_bytes_are_replaced() {
    let with_zero = hash_bcrypt(&[0, 5], &[9; 16]);
    let replaced = hash_bcrypt(&[1, 5], &[9; 16]);
    assert_eq!(with_zero, replaced);
}

#[test]
fn fastish_hash_is_fixed() {
    let a = fastish_hash(b"s3cr3t!");
    assert_eq!(a.len(), 32);
    assert_eq!(a, fastish_hash(b"s3cr3t!"));
    assert_ne!(a, fastish_hash(b"s3cr3t?"));
    assert_ne!(a, b"s3cr3t!".to_vec());
}

#[test]
fn stretch_stratch_test_password() {
    let strat = get_current_version_strategy();
    let key = stretch_key(
        &Key::new("MY secret p@ssw0rd"),
        &Salt::fixed_for_test(123_456_789),
        strat.stretch_count,
        &strat.key_hash_algorithms,
    );
    assert_eq!(key.as_bytes().len(), 32);
}
