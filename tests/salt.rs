use file_endec::salt::{Salt, SaltError};

#[test]
fn debug_impl() {
    let salt = Salt::fixed_for_test(1_111_111_111_111_111_111);
    let debug = salt.preview();
    assert_eq!("salt[199...15]", &debug);
}

#[test]
fn generate_salt_entropy() {
    let salt = Salt::generate_random().unwrap();
    let bytes = salt.as_bytes();
    let r = bytes[0];
    for i in 0..bytes.len() {
        if bytes[i] != r {
            return;
        }
    }
    panic!();
}

#[test]
fn generate_salt_different() {
    let salt1 = Salt::generate_random().unwrap();
    let salt2 = Salt::generate_random().unwrap();
    assert!(salt1 != salt2);
}

#[test]
fn salt_fixed_repeats_le_bytes() {
    let salt = Salt::fixed_for_test(0x0102_0304_0506_0708);
    let bytes = salt.as_bytes();
    assert_eq!(bytes.len(), 64);
    assert_eq!(&bytes[0..8], &[8, 7, 6, 5, 4, 3, 2, 1]);
    assert_eq!(&bytes[56..64], &[8, 7, 6, 5, 4, 3, 2, 1]);
}

#[test]
fn salt_base64_round_trip() {
    let salt = Salt::fixed_for_test(1);
    let text = salt.as_base64();
    assert_eq!(text, "AQAAAAAAAAABAAAAAAAAAAEAAAAAAAAAAQAAAAAAAAABAAAAAAAAAAEAAAAAAAAAAQAAAAAAAAABAAAAAAAAAA");
    assert!(Salt::parse_base64(&text).unwrap() == salt);
}

#[test]
fn salt_parse_errors() {
    assert!(matches!(Salt::parse_base64("AQAAAAAAAAA"), Err(SaltError::Length)));
    assert!(matches!(Salt::parse_base64("not base64!"), Err(SaltError::Encoding)));
    assert!(matches!(Salt::parse_base64(""), Err(SaltError::Length)));
}

#[test]
fn salt_equality_is_bytewise() {
    assert!(Salt::fixed_for_test(5) == Salt::fixed_for_test(5));
    assert!(Salt::fixed_for_test(5) != Salt::fixed_for_test(6));
    let a = Salt::fixed_for_test(5);
    assert!(a.clone() == a);
}
