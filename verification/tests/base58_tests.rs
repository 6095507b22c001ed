use blockchain_rs::base58::base58_decode;
use blockchain_rs::base58::base58_encode;
use blockchain_rs::base58::decode_to_big_integer;

#[test]
fn base_58_algorithm_test_test_encode() {
    let input = b"hello";
    let encoded = base58_encode(input);
    println!("{}", encoded);
    assert!(!encoded.is_empty());
}

#[test]
fn test_decode() {
    let input = b"hello";
    let encoded = base58_encode(input);
    let decoded = base58_decode(&encoded).unwrap();
    assert_eq!(decoded, input);
}

#[test]
fn test_decode_to_big_integer() {
    let input = b"hello";
    let encoded = base58_encode(input);
    let _big_integer = decode_to_big_integer(&encoded).unwrap();
}

#[test]
fn test_encode_hello_exact() {
    let encoded = base58_encode(b"hello");
    assert_eq!(encoded, "Cn8eVZg");
    let decoded = base58_decode(&encoded).unwrap();
    assert_eq!(decoded, vec![0x68, 0x65, 0x6c, 0x6c, 0x6f]);
}

#[test]
fn test_leading_zero_bytes() {
    let encoded = base58_encode(&[0, 0, 1, 2]);
    assert_eq!(encoded, "115T");
    assert!(encoded.starts_with("11"));
    assert!(!encoded[2..].starts_with('1'));
    let decoded = base58_decode(&encoded).unwrap();
    assert_eq!(decoded, vec![0u8, 0, 1, 2]);
}

#[test]
fn test_round_trip_empty() {
    let encoded = base58_encode(&[]);
    assert_eq!(encoded, "");
    let decoded = base58_decode("").unwrap();
    assert_eq!(decoded, Vec::<u8>::new());
}

#[test]
fn test_round_trip_all_zero() {
    let encoded = base58_encode(&[0, 0, 0]);
    assert_eq!(encoded, "111");
    let decoded = base58_decode(&encoded).unwrap();
    assert_eq!(decoded, vec![0u8, 0, 0]);
}

#[test]
fn test_round_trip_assorted_buffers() {
    let cases: Vec<Vec<u8>> = vec![
        vec![255],
        vec![0],
        vec![58],
        vec![1, 0, 0, 0, 0, 0, 0, 0],
        vec![255, 255, 255, 255],
        vec![0, 255, 0, 255, 7, 9, 200, 31, 64],
        (0u8..=255).collect(),
    ];
    for case in cases {
        let encoded = base58_encode(&case);
        let decoded = base58_decode(&encoded).unwrap();
        assert_eq!(decoded, case);
    }
}

#[test]
fn test_decode_invalid_characters() {
    let result = base58_decode("0OIl");
    assert_eq!(result, Err("Illegal character"));
    assert!(base58_decode("abc 123").is_err());
    assert!(base58_decode("Cn8eVZg\u{4f60}").is_err());
}

#[test]
fn test_decode_to_big_integer_value() {
    let value = decode_to_big_integer("Cn8eVZg").unwrap();
    assert_eq!(value, num_bigint::BigUint::from(448378203247u64));
    let err = decode_to_big_integer("0");
    assert!(err.is_err());
}
