use blockchain_rs::ecdsa::ECDSAAlgorithm;
use blockchain_rs::ecdsa::EcdsaError;

#[test]
fn test_key_generation() {
    let priv_key = ECDSAAlgorithm::generate_private_key();
    assert!(!priv_key.is_empty());

    let pub_key = ECDSAAlgorithm::generate_public_key(&priv_key, true).unwrap();
    assert!(pub_key.starts_with("A"));

    let long_pub_key = ECDSAAlgorithm::generate_public_key(&priv_key, false).unwrap();
    assert!(long_pub_key.len() > pub_key.len());
}

#[test]
fn test_signature_round_trip() {
    let data = b"test message";
    let priv_key = ECDSAAlgorithm::generate_private_key();
    let pub_key = ECDSAAlgorithm::generate_public_key(&priv_key, true).unwrap();

    let signature = ECDSAAlgorithm::sign(&priv_key, data).unwrap();
    let verification = ECDSAAlgorithm::verify(&pub_key, data, &signature).unwrap();

    assert!(verification);
}

#[test]
fn test_address_generation() {
    let priv_key = ECDSAAlgorithm::generate_private_key();
    let pub_key = ECDSAAlgorithm::generate_public_key(&priv_key, true).unwrap();
    let address = ECDSAAlgorithm::get_address(&pub_key).unwrap();

    println!("Generated address: {}", address);
}

#[test]
fn test_invalid_signature() {
    let data = b"test message";
    let priv_key1 = ECDSAAlgorithm::generate_private_key();
    let priv_key2 = ECDSAAlgorithm::generate_private_key();

    let signature = ECDSAAlgorithm::sign(&priv_key1, data).unwrap();
    let pub_key2 = ECDSAAlgorithm::generate_public_key(&priv_key2, true).unwrap();
    let verification = ECDSAAlgorithm::verify(&pub_key2, data, &signature).unwrap();

    assert!(!verification);
}

#[test]
fn test_public_key_deterministic() {
    let priv_key = ECDSAAlgorithm::generate_private_key();
    let first = ECDSAAlgorithm::generate_public_key(&priv_key, true).unwrap();
    let second = ECDSAAlgorithm::generate_public_key(&priv_key, true).unwrap();
    assert_eq!(first, second);
    assert_eq!(first.len(), 44);
    let uncompressed = ECDSAAlgorithm::generate_public_key(&priv_key, false).unwrap();
    assert_eq!(uncompressed.len(), 88);
}

#[test]
fn test_public_key_exact() {
    // The scalar 1: its public point is the curve's generator.
    let priv_key = "AAAAAAAAAAAAAAAAAAAAAAAAAAAAAAAAAAAAAAAAAAE=";
    let pub_key = ECDSAAlgorithm::generate_public_key(priv_key, true).unwrap();
    assert_eq!(pub_key, "Anm+Zn753LusVaBilc6HCwcCm/zbLc4o2VnygVsW+BeY");
    let long_pub_key = ECDSAAlgorithm::generate_public_key(priv_key, false).unwrap();
    assert_eq!(
        long_pub_key,
        "BHm+Zn753LusVaBilc6HCwcCm/zbLc4o2VnygVsW+BeYSDradyajxGVdpPv8DhEIqP0XtEimhVQZnEfQj/sQ1Lg="
    );
}

#[test]
fn test_address_exact() {
    // Address of the generator point: Base58 of its well-known RIPEMD-160
    // over SHA-256 digest 751e76e8199196d454941c45d1b3a323f1433bd6.
    let pub_key = "Anm+Zn753LusVaBilc6HCwcCm/zbLc4o2VnygVsW+BeY";
    let address = ECDSAAlgorithm::get_address(pub_key).unwrap();
    assert_eq!(address, "2ddvLKZUnFosBYkLrzayChzQUNzq");
}

#[test]
fn test_address_deterministic() {
    let priv_key = ECDSAAlgorithm::generate_private_key();
    let pub_key = ECDSAAlgorithm::generate_public_key(&priv_key, true).unwrap();
    let first = ECDSAAlgorithm::get_address(&pub_key).unwrap();
    let second = ECDSAAlgorithm::get_address(&pub_key).unwrap();
    assert_eq!(first, second);

    let other_priv = ECDSAAlgorithm::generate_private_key();
    let other_pub = ECDSAAlgorithm::generate_public_key(&other_priv, true).unwrap();
    let other_address = ECDSAAlgorithm::get_address(&other_pub).unwrap();
    assert_ne!(first, other_address);
}

#[test]
fn test_malformed_base64_is_rejected() {
    let result = ECDSAAlgorithm::generate_public_key("not base64!!!", true);
    assert!(matches!(result, Err(EcdsaError::Base64Error(_))));

    let result = ECDSAAlgorithm::get_address("not base64!!!");
    assert!(matches!(result, Err(EcdsaError::Base64Error(_))));

    let result = ECDSAAlgorithm::sign("not base64!!!", b"data");
    assert!(matches!(result, Err(EcdsaError::Base64Error(_))));

    let result = ECDSAAlgorithm::verify("not base64!!!", b"data", "AQID");
    assert!(matches!(result, Err(EcdsaError::Base64Error(_))));
}

#[test]
fn test_invalid_scalar_is_rejected() {
    // Valid base64, but the 32 bytes are the zero scalar, which is not a
    // private key.
    let zero_key = "AAAAAAAAAAAAAAAAAAAAAAAAAAAAAAAAAAAAAAAAAAA=";
    let result = ECDSAAlgorithm::generate_public_key(zero_key, true);
    assert!(matches!(result, Err(EcdsaError::KeyGenerationError)));
    let result = ECDSAAlgorithm::sign(zero_key, b"data");
    assert!(matches!(result, Err(EcdsaError::KeyGenerationError)));
}

#[test]
fn test_invalid_point_is_rejected() {
    // Valid base64, but the bytes are no SEC1 point encoding: address
    // derivation reports an address error, verification a verification
    // failure.
    let result = ECDSAAlgorithm::get_address("AQID");
    assert!(matches!(result, Err(EcdsaError::AddressError(_))));
    let result = ECDSAAlgorithm::verify("AQID", b"data", "AQID");
    assert!(matches!(result, Err(EcdsaError::VerificationFailed)));
}

#[test]
fn test_malformed_der_signature_is_rejected() {
    let priv_key = ECDSAAlgorithm::generate_private_key();
    let pub_key = ECDSAAlgorithm::generate_public_key(&priv_key, true).unwrap();
    // Valid base64, but the bytes are no DER signature.
    let result = ECDSAAlgorithm::verify(&pub_key, b"data", "AQID");
    assert!(matches!(result, Err(EcdsaError::VerificationFailed)));
}
