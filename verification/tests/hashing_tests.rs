use blockchain_rs::hashing::encode;
use blockchain_rs::hashing::encode_twice;

#[test]
fn base_algorithm_test_test_encode() {
    let data = b"test data";
    let result = encode("SHA-256", Some(data));
    assert!(result.is_some());
}

#[test]
fn test_encode_twice() {
    let data = b"test data";
    let result = encode_twice("SHA-256", Some(data));
    assert!(result.is_some());
}

#[test]
fn test_encode_none_is_none() {
    assert!(encode("SHA-256", None).is_none());
    assert!(encode_twice("SHA-256", None).is_none());
}

#[test]
fn test_sha256_known_vector() {
    let digest = encode("SHA-256", Some(b"abc")).unwrap();
    let expected: Vec<u8> = vec![
        0xba, 0x78, 0x16, 0xbf, 0x8f, 0x01, 0xcf, 0xea, 0x41, 0x41, 0x40, 0xde, 0x5d, 0xae, 0x22,
        0x23, 0xb0, 0x03, 0x61, 0xa3, 0x96, 0x17, 0x7a, 0x9c, 0xb4, 0x10, 0xff, 0x61, 0xf2, 0x00,
        0x15, 0xad,
    ];
    assert_eq!(digest, expected);
}

#[test]
fn test_hash_twice_chains() {
    let data = b"test data";
    let twice = encode_twice("SHA-256", Some(data)).unwrap();
    let once = encode("SHA-256", Some(data)).unwrap();
    let chained = encode("SHA-256", Some(&once)).unwrap();
    assert_eq!(twice, chained);
    assert_ne!(twice, once);
}
