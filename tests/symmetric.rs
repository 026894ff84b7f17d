use file_endec::key::StretchKey;
use file_endec::mockfile::generate_test_file_content_for_test;
use file_endec::salt::Salt;
use file_endec::strategy::SymmetricEncryptionAlg;
use file_endec::symmetric::{
    decrypt_aes256, decrypt_file, decrypt_twofish, encrypt_aes256, encrypt_file, encrypt_twofish,
    CipherError,
};

fn seventy_one() -> Vec<u8> {
    (0u8..71).collect()
}

const AES_SMALL: [u8; 80] = [
    8, 161, 111, 221, 11, 228, 30, 113, 127, 148, 186, 160, 217, 32, 132, 212, 24, 230, 13, 196,
    126, 21, 244, 203, 34, 121, 157, 181, 3, 37, 201, 196, 21, 217, 132, 207, 61, 60, 74, 108, 41,
    135, 28, 68, 53, 129, 76, 135, 250, 215, 77, 32, 13, 150, 85, 84, 172, 159, 42, 60, 228, 3, 21,
    221, 83, 195, 0, 15, 124, 67, 62, 219, 72, 251, 230, 81, 87, 117, 239, 90,
];

const TWOFISH_SMALL: [u8; 80] = [
    116, 245, 144, 10, 177, 86, 56, 253, 69, 146, 58, 191, 153, 12, 201, 127, 91, 29, 0, 207, 78,
    210, 98, 218, 231, 195, 239, 53, 1, 148, 165, 121, 119, 96, 133, 17, 32, 229, 236, 0, 161, 252,
    50, 218, 197, 4, 245, 187, 183, 215, 181, 116, 127, 237, 44, 234, 123, 17, 87, 102, 163, 3, 224,
    95, 109, 189, 86, 58, 72, 213, 63, 79, 171, 77, 194, 58, 94, 217, 114, 26,
];

#[test]
fn encrypt_aes256_small() {
    let key = StretchKey::mock_stretch("s3cr3t!".as_bytes());
    let salt = Salt::fixed_for_test(123_456_789);
    let actual = encrypt_aes256(seventy_one(), &key, &salt);
    assert_eq!(AES_SMALL.to_vec(), actual);
}

#[test]
fn encrypt_aes256_empty() {
    let key = StretchKey::mock_stretch("s3cr3t!".as_bytes());
    let salt = Salt::fixed_for_test(111_555_999);
    let actual = encrypt_aes256(vec![], &key, &salt);
    let expected: Vec<u8> = vec![239, 171, 247, 22, 166, 83, 232, 115, 142, 205, 233, 249, 184, 2, 254, 29];
    assert_eq!(expected, actual);
}

#[test]
fn encrypt_aes256_big() {
    let key = StretchKey::mock_stretch("1_s3cr3t_p@55w0rd!!".as_bytes());
    let salt = Salt::fixed_for_test(123_456_789_123_456_789);
    let input = generate_test_file_content_for_test(500_000);
    let actual = encrypt_aes256(input, &key, &salt);
    let expected_start = &[99, 98, 68, 40, 23, 127, 40, 229];
    let expected_end = &[246, 94, 217, 38, 227, 81, 170, 63];
    assert_eq!(expected_start, &actual[..8]);
    assert_eq!(expected_end, &actual[actual.len() - 8..]);
}

#[test]
fn encrypt_twofish_small() {
    let key = StretchKey::mock_stretch("s3cr3t!".as_bytes());
    let salt = Salt::fixed_for_test(123_456_789);
    let actual = encrypt_twofish(seventy_one(), &key, &salt);
    assert_eq!(TWOFISH_SMALL.to_vec(), actual);
}

#[test]
fn encrypt_twofish_empty() {
    let key = StretchKey::mock_stretch("s3cr3t!".as_bytes());
    let salt = Salt::fixed_for_test(111_555_999);
    let actual = encrypt_twofish(vec![], &key, &salt);
    let expected: Vec<u8> = vec![139, 95, 45, 191, 95, 153, 224, 1, 188, 181, 50, 26, 53, 74, 249, 55];
    assert_eq!(expected, actual);
}

#[test]
fn encrypt_twofish_big() {
    let key = StretchKey::mock_stretch("1_s3cr3t_p@55w0rd!!".as_bytes());
    let salt = Salt::fixed_for_test(123_456_789_123_456_789);
    let input = generate_test_file_content_for_test(500_000);
    let actual = encrypt_twofish(input, &key, &salt);
    let expected_start = &[123, 234, 159, 158, 79, 48, 128, 175];
    let expected_end = &[64, 227, 233, 211, 40, 252, 244, 86];
    assert_eq!(expected_start, &actual[..8]);
    assert_eq!(expected_end, &actual[actual.len() - 8..]);
}

#[test]
fn decrypt_aes256_small() {
    let key = StretchKey::mock_stretch(b"s3cr3t!");
    let salt = Salt::fixed_for_test(123_456_789);
    let actual = decrypt_aes256(&AES_SMALL, &key, &salt).unwrap();
    assert_eq!(seventy_one(), actual);
}

#[test]
fn decrypt_aes256_empty() {
    let key = StretchKey::mock_stretch(b"s3cr3t!");
    let salt = Salt::fixed_for_test(111_555_999);
    let input = vec![239, 171, 247, 22, 166, 83, 232, 115, 142, 205, 233, 249, 184, 2, 254, 29];
    let actual = decrypt_aes256(&input, &key, &salt).unwrap();
    let expected: Vec<u8> = vec![];
    assert_eq!(expected, actual);
}

#[test]
fn decrypt_aes256_big() {
    let key = StretchKey::mock_stretch(b"1_s3cr3t_p@55w0rd!!");
    let salt = Salt::fixed_for_test(123_456_789_123_456_789);
    let plain = generate_test_file_content_for_test(500_000);
    let input = encrypt_aes256(plain.clone(), &key, &salt);
    assert!(plain != input);
    let actual = decrypt_aes256(&input, &key, &salt).unwrap();
    assert_eq!(plain, actual);
}

#[test]
fn decrypt_twofish_small() {
    let key = StretchKey::mock_stretch(b"s3cr3t!");
    let salt = Salt::fixed_for_test(123_456_789);
    let actual = decrypt_twofish(&TWOFISH_SMALL, &key, &salt).unwrap();
    assert_eq!(seventy_one(), actual);
}

#[test]
fn decrypt_twofish_empty() {
    let key = StretchKey::mock_stretch(b"s3cr3t!");
    let salt = Salt::fixed_for_test(111_555_999);
    let input = vec![139, 95, 45, 191, 95, 153, 224, 1, 188, 181, 50, 26, 53, 74, 249, 55];
    let actual = decrypt_twofish(&input, &key, &salt).unwrap();
    let expected: Vec<u8> = vec![];
    assert_eq!(expected, actual);
}

#[test]
fn decrypt_twofish_big() {
    let key = StretchKey::mock_stretch(b"1_s3cr3t_p@55w0rd!!");
    let salt = Salt::fixed_for_test(123_456_789_123_456_789);
    let plain = generate_test_file_content_for_test(500_000);
    let input = encrypt_twofish(plain.clone(), &key, &salt);
    assert!(plain != input);
    let actual = decrypt_twofish(&input, &key, &salt).unwrap();
    assert_eq!(plain, actual);
}

#[test]
fn tmp_demo() {
    let key = StretchKey::new(b"RvzQW3Mwrc!_y5-DpPZl8rP3,=HsD1,!");
    let mut salt_bytes = vec![89, 63, 254, 34, 209, 155, 236, 158, 195, 104, 11, 16, 240, 4, 26, 76];
    salt_bytes.resize(64, 0);
    let salt = Salt::parse_base64(&data_encoding::BASE64URL_NOPAD.encode(&salt_bytes)).unwrap();
    let plaintext: Vec<u8> = b"Hello world! This is the secret text...".to_vec();
    let ciphertext = encrypt_aes256(plaintext.clone(), &key, &salt);
    assert_eq!(&ciphertext, &vec![
        216, 56, 166, 254, 171, 163, 243, 167, 235, 179, 189, 132, 0, 202, 44, 73,
        10, 68, 229, 90, 69, 212, 24, 22, 87, 109, 34, 92, 254, 136, 141, 154, 57,
        189, 176, 221, 140, 8, 114, 141, 103, 248, 108, 182, 247, 156, 113, 127,
    ]);
    let decrypted_ciphertext = decrypt_aes256(&ciphertext, &key, &salt).unwrap();
    assert_eq!(decrypted_ciphertext, plaintext);
}

#[test]
fn cipher_chain_undoes_last_stage_first() {
    let key = StretchKey::mock_stretch(b"chain");
    let salt = Salt::fixed_for_test(42);
    let plain = seventy_one();
    let chain = [SymmetricEncryptionAlg::Aes256, SymmetricEncryptionAlg::Twofish];
    let secret = encrypt_file(plain.clone(), &key, &salt, &chain);
    assert_eq!(secret, encrypt_twofish(encrypt_aes256(plain.clone(), &key, &salt), &key, &salt));
    let one_stage = decrypt_twofish(&secret, &key, &salt).unwrap();
    assert!(one_stage != plain);
    assert_eq!(decrypt_aes256(&one_stage, &key, &salt).unwrap(), plain);
    let wrong_order = decrypt_aes256(&secret, &key, &salt);
    assert!(wrong_order.map(|p| p != plain).unwrap_or(true));
    assert_eq!(decrypt_file(secret, &key, &salt, &chain).unwrap(), plain);
}

#[test]
fn cipher_chain_empty_plaintext_round_trip() {
    let key = StretchKey::mock_stretch(b"empty");
    let salt = Salt::fixed_for_test(7);
    let chain = [SymmetricEncryptionAlg::Twofish, SymmetricEncryptionAlg::Aes256];
    let secret = encrypt_file(vec![], &key, &salt, &chain);
    assert_eq!(secret.len(), 32);
    assert_eq!(decrypt_file(secret, &key, &salt, &chain).unwrap(), Vec::<u8>::new());
}

#[test]
fn decrypt_rejects_partial_block() {
    let key = StretchKey::mock_stretch(b"s3cr3t!");
    let salt = Salt::fixed_for_test(1);
    assert_eq!(
        decrypt_aes256(&[1, 2, 3], &key, &salt),
        Err(CipherError { algorithm: SymmetricEncryptionAlg::Aes256 })
    );
    assert_eq!(
        decrypt_twofish(&[1, 2, 3], &key, &salt),
        Err(CipherError { algorithm: SymmetricEncryptionAlg::Twofish })
    );
    assert!(decrypt_file(vec![1, 2, 3], &key, &salt, &[SymmetricEncryptionAlg::Aes256]).is_err());
}
