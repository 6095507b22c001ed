use vstd::prelude::*;
use base64::Engine;
use k256::ecdsa::signature::Signer;
use k256::ecdsa::signature::Verifier;

verus! {

use crate::base58::b58_encode_spec;
use crate::base58::base58_encode;
use crate::hashing::ripemd160;
use crate::hashing::ripemd160_of;
use crate::hashing::sha256;
use crate::hashing::sha256_of;

// Keys and signatures cross this module's boundary as base64 text, never as
// raw binary; the curve is secp256k1 throughout.

#[verifier::external_type_specification]
#[verifier::external_body]
pub struct ExDecodeError(base64::DecodeError);

/// What can go wrong while deriving keys and addresses or while signing and
/// verifying.
#[derive(Debug)]
pub enum EcdsaError {
    /// The base64 transport text of a key or signature is malformed.
    Base64Error(base64::DecodeError),
    /// The private-key bytes are not a valid curve scalar.
    KeyGenerationError,
    /// The public-key point or the DER signature is structurally invalid.
    VerificationFailed,
    /// The public-key bytes are not a SEC1 point encoding; holds the
    /// parser's message.
    AddressError(String),
}

/// The padded base64 text of a byte string, as base64's STANDARD engine
/// writes it.
pub uninterp spec fn b64_of(s: Seq<u8>) -> Seq<char>;

/// What base64's STANDARD engine reads out of a text: the encoded bytes, or
/// nothing if the text is not well-formed padded base64.
pub uninterp spec fn b64_decoded(s: Seq<char>) -> Option<Seq<u8>>;

/// Whether `SigningKey::from_slice` accepts these bytes as a private-key
/// scalar.
pub uninterp spec fn scalar_ok(k: Seq<u8>) -> bool;

/// The SEC1 encoding of the public point that belongs to the private-key
/// scalar `k`, compressed or not.
pub uninterp spec fn point_bytes(k: Seq<u8>, compressed: bool) -> Seq<u8>;

/// Whether `EncodedPoint::from_bytes` accepts these bytes: a valid SEC1 tag
/// and a length that matches it.
pub uninterp spec fn sec1_ok(p: Seq<u8>) -> bool;

/// Whether `VerifyingKey::from_encoded_point` accepts this SEC1 encoding as
/// a public key on the curve.
pub uninterp spec fn point_ok(p: Seq<u8>) -> bool;

/// Whether `Signature::from_der` accepts these bytes as a DER signature.
pub uninterp spec fn der_sig_ok(s: Seq<u8>) -> bool;

/// The DER signature that the deterministic (RFC 6979) ECDSA of secp256k1
/// produces for this key and message.
pub uninterp spec fn sig_der(k: Seq<u8>, m: Seq<u8>) -> Seq<u8>;

/// The outcome of ECDSA verification of a DER signature over a message
/// under a SEC1-encoded public key.
pub uninterp spec fn sig_valid(p: Seq<u8>, m: Seq<u8>, s: Seq<u8>) -> bool;

/// Relies on base64's STANDARD engine `encode`: the padded base64 text of
/// the bytes, a function of the bytes alone; four characters per started
/// group of three bytes, and decoding its own output gives the bytes back.
#[verifier::external_body]
fn b64_encode(b: &[u8]) -> (r: String)
    ensures
        r@ == b64_of(b@),
        r@.len() == 4 * ((b@.len() + 2) / 3),
        b64_decoded(r@) == Some(b@),
{
    base64::engine::general_purpose::STANDARD.encode(b)
}

/// Relies on base64's STANDARD engine `decode`: accepts exactly well-formed
/// padded base64 and returns the encoded bytes; the outcome is a function
/// of the text alone.
#[verifier::external_body]
fn b64_decode(s: &str) -> (r: Result<Vec<u8>, base64::DecodeError>)
    ensures
        match r {
            Ok(v) => b64_decoded(s@) == Some(v@),
            Err(_) => b64_decoded(s@) is None,
        },
{
    base64::engine::general_purpose::STANDARD.decode(s)
}

/// Relies on `SigningKey::random`: draws a uniformly random nonzero scalar
/// from the operating system's secure source and serializes it as 32
/// big-endian bytes, which `SigningKey::from_slice` accepts again.
#[verifier::external_body]
fn random_key_bytes() -> (r: Vec<u8>)
    ensures
        r@.len() == 32,
        scalar_ok(r@),
{
    let key = k256::ecdsa::SigningKey::random(&mut rand::rngs::OsRng);
    key.to_bytes().to_vec()
}

/// Relies on `SigningKey::from_slice` and `VerifyingKey::to_encoded_point`:
/// the bytes are accepted iff they read as a big-endian scalar in the
/// private range (32 bytes, or 24 to 31 bytes taken as left-padded with
/// zeros), and the derived point is a function of the scalar alone. The
/// scalar is nonzero, so the SEC1 form is never the identity encoding: 33
/// bytes tagged 2 or 3 when compressed, 65 bytes tagged 4 when
/// uncompressed, and it parses back as a valid public key.
#[verifier::external_body]
fn derive_point(key: &Vec<u8>, compressed: bool) -> (r: Option<Vec<u8>>)
    ensures
        r is Some <==> scalar_ok(key@),
        r matches Some(p) ==> p@ == point_bytes(key@, compressed),
        r matches Some(p) ==> p@.len() == (if compressed { 33int } else { 65int }),
        r matches Some(p) ==> (if compressed {
            p@[0] == 2 || p@[0] == 3
        } else {
            p@[0] == 4
        }),
        r matches Some(p) ==> sec1_ok(p@) && point_ok(p@),
{
    match k256::ecdsa::SigningKey::from_slice(key) {
        Ok(sk) => Some(sk.verifying_key().to_encoded_point(compressed).as_bytes().to_vec()),
        Err(_) => None,
    }
}

/// Relies on `SigningKey::from_slice` and its `Signer` impl: deterministic
/// (RFC 6979) ECDSA over the message's SHA-256 digest, so the DER signature
/// is a function of key and message alone, and it parses back with
/// `Signature::from_der`.
#[verifier::external_body]
fn sign_der(key: &Vec<u8>, msg: &[u8]) -> (r: Option<Vec<u8>>)
    ensures
        r is Some <==> scalar_ok(key@),
        r matches Some(s) ==> s@ == sig_der(key@, msg@) && der_sig_ok(s@),
{
    match k256::ecdsa::SigningKey::from_slice(key) {
        Ok(sk) => {
            let signature: k256::ecdsa::Signature = sk.sign(msg);
            Some(signature.to_der().as_bytes().to_vec())
        },
        Err(_) => None,
    }
}

/// Relies on `EncodedPoint::from_bytes`: checks the SEC1 tag and length, a
/// test of the bytes alone; on failure it hands back the parser's message.
#[verifier::external_body]
fn check_sec1(p: &Vec<u8>) -> (r: Result<(), String>)
    ensures
        r is Ok <==> sec1_ok(p@),
{
    match k256::elliptic_curve::sec1::EncodedPoint::<k256::Secp256k1>::from_bytes(p) {
        Ok(_) => Ok(()),
        Err(e) => Err(e.to_string()),
    }
}

/// Relies on `VerifyingKey::from_encoded_point`: accepts exactly the SEC1
/// encodings that name a valid public key on the curve, a test of the bytes
/// alone.
#[verifier::external_body]
fn check_point(p: &Vec<u8>) -> (r: bool)
    requires
        sec1_ok(p@),
    ensures
        r == point_ok(p@),
{
    let point = k256::elliptic_curve::sec1::EncodedPoint::<k256::Secp256k1>::from_bytes(
        p,
    ).expect("SEC1 shape was checked");
    k256::ecdsa::VerifyingKey::from_encoded_point(&point).is_ok()
}

/// Relies on `Signature::from_der`: accepts exactly well-formed DER ECDSA
/// signatures, a test of the bytes alone.
#[verifier::external_body]
fn check_der_sig(s: &Vec<u8>) -> (r: bool)
    ensures
        r == der_sig_ok(s@),
{
    k256::ecdsa::Signature::from_der(s).is_ok()
}

/// Relies on the `Verifier` impl of `VerifyingKey`: standard ECDSA
/// verification of the DER signature over the message's SHA-256 digest, a
/// function of point, message and signature alone.
#[verifier::external_body]
fn verify_sig(p: &Vec<u8>, msg: &[u8], sig: &Vec<u8>) -> (r: bool)
    requires
        sec1_ok(p@),
        point_ok(p@),
        der_sig_ok(sig@),
    ensures
        r == sig_valid(p@, msg@, sig@),
{
    let point = k256::elliptic_curve::sec1::EncodedPoint::<k256::Secp256k1>::from_bytes(
        p,
    ).expect("SEC1 shape was checked");
    let key = k256::ecdsa::VerifyingKey::from_encoded_point(&point).expect(
        "the point was checked",
    );
    let signature = k256::ecdsa::Signature::from_der(sig).expect("the DER shape was checked");
    key.verify(msg, &signature).is_ok()
}

/// The Base58 address that belongs to SEC1 public-key bytes: Base58 of
/// RIPEMD-160 of SHA-256 of the point encoding.
pub open spec fn address_spec(p: Seq<u8>) -> Seq<char> {
    b58_encode_spec(ripemd160_of(sha256_of(p)))
}

/// Key generation, public-key and address derivation, signing and
/// verification on the secp256k1 curve.
pub struct ECDSAAlgorithm;

impl ECDSAAlgorithm {
    /// Generate a base64-encoded 32-byte private key from the operating
    /// system's secure random source.
    pub fn generate_private_key() -> (r: String)
        ensures
            r@.len() == 44,
            exists|k: Seq<u8>|
                k.len() == 32 && scalar_ok(k) && #[trigger] b64_of(k) == r@ && b64_decoded(r@)
                    == Some(k),
    {
        let key = random_key_bytes();
        let encoded = b64_encode(key.as_slice());
        proof {
            assert(b64_of(key@) == encoded@);
        }
        encoded
    }

    /// Derive the public key of a base64-encoded private key, as base64 of
    /// its SEC1 point: 33 bytes tagged 2 or 3 when compressed, 65 bytes
    /// tagged 4 when uncompressed.
    pub fn generate_public_key(private_key: &str, compressed: bool) -> (r: Result<
        String,
        EcdsaError,
    >)
        ensures
            r is Ok <==> (b64_decoded(private_key@) matches Some(k) && scalar_ok(k)),
            r matches Ok(s) ==> public_key_spec(private_key@, compressed) == Some(s@),
            r matches Ok(s) ==> b64_decoded(private_key@) matches Some(k) && s@ == b64_of(
                point_bytes(k, compressed),
            ) && b64_decoded(s@) == Some(point_bytes(k, compressed)) && sec1_ok(
                point_bytes(k, compressed),
            ) && point_ok(point_bytes(k, compressed)) && point_bytes(k, compressed).len() == (
            if compressed {
                33int
            } else {
                65int
            }) && (if compressed {
                point_bytes(k, compressed)[0] == 2 || point_bytes(k, compressed)[0] == 3
            } else {
                point_bytes(k, compressed)[0] == 4
            }) && s@.len() == (
            if compressed {
                44int
            } else {
                88int
            }),
            b64_decoded(private_key@) is None ==> (r matches Err(e) && e is Base64Error),
            b64_decoded(private_key@) matches Some(k) && !scalar_ok(k) ==> r == Err::<
                String,
                EcdsaError,
            >(EcdsaError::KeyGenerationError),
    {
        let bytes = match b64_decode(private_key) {
            Ok(v) => v,
            Err(e) => {
                return Err(EcdsaError::Base64Error(e));
            },
        };
        match derive_point(&bytes, compressed) {
            Some(point) => Ok(b64_encode(point.as_slice())),
            None => Err(EcdsaError::KeyGenerationError),
        }
    }

    /// Derive the Base58 address of a base64-encoded SEC1 public key:
    /// Base58 of RIPEMD-160 of SHA-256 of the point bytes.
    pub fn get_address(public_key: &str) -> (r: Result<String, EcdsaError>)
        ensures
            r is Ok <==> (b64_decoded(public_key@) matches Some(p) && sec1_ok(p)),
            r matches Ok(s) ==> address_of_key_spec(public_key@) == Some(s@),
            r matches Ok(s) ==> b64_decoded(public_key@) matches Some(p) && s@ == address_spec(p),
            b64_decoded(public_key@) is None ==> (r matches Err(e) && e is Base64Error),
            b64_decoded(public_key@) matches Some(p) && !sec1_ok(p) ==> (r matches Err(e)
                && e is AddressError),
    {
        let pub_bytes = match b64_decode(public_key) {
            Ok(v) => v,
            Err(e) => {
                return Err(EcdsaError::Base64Error(e));
            },
        };
        match check_sec1(&pub_bytes) {
            Ok(_) => {},
            Err(msg) => {
                return Err(EcdsaError::AddressError(msg));
            },
        }
        let sha_result = sha256(pub_bytes.as_slice());
        let ripemd_result = ripemd160(sha_result.as_slice());
        Ok(base58_encode(ripemd_result.as_slice()))
    }

    /// Sign a message with a base64-encoded private key and return the DER
    /// signature as base64 text.
    pub fn sign(private_key: &str, data: &[u8]) -> (r: Result<String, EcdsaError>)
        ensures
            r is Ok <==> (b64_decoded(private_key@) matches Some(k) && scalar_ok(k)),
            r matches Ok(s) ==> sign_spec(private_key@, data@) == Some(s@),
            r matches Ok(s) ==> b64_decoded(private_key@) matches Some(k) && s@ == b64_of(
                sig_der(k, data@),
            ) && b64_decoded(s@) == Some(sig_der(k, data@)) && der_sig_ok(sig_der(k, data@)),
            b64_decoded(private_key@) is None ==> (r matches Err(e) && e is Base64Error),
            b64_decoded(private_key@) matches Some(k) && !scalar_ok(k) ==> r == Err::<
                String,
                EcdsaError,
            >(EcdsaError::KeyGenerationError),
    {
        let bytes = match b64_decode(private_key) {
            Ok(v) => v,
            Err(e) => {
                return Err(EcdsaError::Base64Error(e));
            },
        };
        match sign_der(&bytes, data) {
            Some(signature) => Ok(b64_encode(signature.as_slice())),
            None => Err(EcdsaError::KeyGenerationError),
        }
    }

    /// Check a base64-encoded DER signature over a message under a
    /// base64-encoded public key. A structurally valid signature that does
    /// not match is `Ok(false)`, not an error; a malformed point or
    /// signature structure is a verification failure, and only the base64
    /// transport layer reports a decode error.
    pub fn verify(public_key: &str, data: &[u8], signature: &str) -> (r: Result<bool, EcdsaError>)
        ensures
            r is Ok <==> (b64_decoded(public_key@) matches Some(p) && sec1_ok(p) && point_ok(p) && (
            b64_decoded(signature@) matches Some(s) && der_sig_ok(s))),
            r matches Ok(v) ==> b64_decoded(public_key@) matches Some(p) && b64_decoded(signature@)
                matches Some(s) && v == sig_valid(p, data@, s),
            b64_decoded(public_key@) is None ==> (r matches Err(e) && e is Base64Error),
            b64_decoded(public_key@) matches Some(p) && !sec1_ok(p) ==> r == Err::<
                bool,
                EcdsaError,
            >(EcdsaError::VerificationFailed),
            b64_decoded(public_key@) matches Some(p) && sec1_ok(p) && !point_ok(p) ==> r == Err::<
                bool,
                EcdsaError,
            >(EcdsaError::VerificationFailed),
            b64_decoded(public_key@) matches Some(p) && sec1_ok(p) && point_ok(p) && b64_decoded(
                signature@,
            ) is None ==> (r matches Err(e) && e is Base64Error),
            b64_decoded(public_key@) matches Some(p) && sec1_ok(p) && point_ok(p) && (b64_decoded(
                signature@,
            ) matches Some(s) && !der_sig_ok(s)) ==> r == Err::<bool, EcdsaError>(
                EcdsaError::VerificationFailed,
            ),
    {
        let pub_bytes = match b64_decode(public_key) {
            Ok(v) => v,
            Err(e) => {
                return Err(EcdsaError::Base64Error(e));
            },
        };
        match check_sec1(&pub_bytes) {
            Ok(_) => {},
            Err(_) => {
                return Err(EcdsaError::VerificationFailed);
            },
        }
        if !check_point(&pub_bytes) {
            return Err(EcdsaError::VerificationFailed);
        }
        let sig_bytes = match b64_decode(signature) {
            Ok(v) => v,
            Err(e) => {
                return Err(EcdsaError::Base64Error(e));
            },
        };
        if !check_der_sig(&sig_bytes) {
            return Err(EcdsaError::VerificationFailed);
        }
        Ok(verify_sig(&pub_bytes, data, &sig_bytes))
    }
}

/// What public-key derivation returns on success: a function of the
/// private-key text and the flag alone, which makes determinism part of
/// the contract of `generate_public_key`.
pub open spec fn public_key_spec(private_key: Seq<char>, compressed: bool) -> Option<Seq<char>> {
    match b64_decoded(private_key) {
        Some(k) => if scalar_ok(k) {
            Some(b64_of(point_bytes(k, compressed)))
        } else {
            None
        },
        None => None,
    }
}

/// What signing returns on success: a function of the private-key text and
/// the message alone.
pub open spec fn sign_spec(private_key: Seq<char>, m: Seq<u8>) -> Option<Seq<char>> {
    match b64_decoded(private_key) {
        Some(k) => if scalar_ok(k) {
            Some(b64_of(sig_der(k, m)))
        } else {
            None
        },
        None => None,
    }
}

/// What address derivation returns on success: a function of the
/// public-key text alone.
pub open spec fn address_of_key_spec(public_key: Seq<char>) -> Option<Seq<char>> {
    match b64_decoded(public_key) {
        Some(p) => if sec1_ok(p) {
            Some(address_spec(p))
        } else {
            None
        },
        None => None,
    }
}

/// Deriving a public key is deterministic: any two successful results for
/// the same private key and flag are identical.
pub proof fn lemma_public_key_deterministic(
    private_key: Seq<char>,
    compressed: bool,
    s1: Seq<char>,
    s2: Seq<char>,
)
    requires
        public_key_spec(private_key, compressed) == Some(s1),
        public_key_spec(private_key, compressed) == Some(s2),
    ensures
        s1 == s2,
{
}

/// Deriving an address is deterministic: any two successful results for
/// the same public key are identical.
pub proof fn lemma_address_deterministic(public_key: Seq<char>, s1: Seq<char>, s2: Seq<char>)
    requires
        address_of_key_spec(public_key) == Some(s1),
        address_of_key_spec(public_key) == Some(s2),
    ensures
        s1 == s2,
{
}

} // verus!
