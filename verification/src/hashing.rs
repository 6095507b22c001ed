use vstd::prelude::*;
use sha2::Digest;

verus! {

/// The SHA-256 digest of a byte string, as `sha2::Sha256` computes it.
pub uninterp spec fn sha256_of(s: Seq<u8>) -> Seq<u8>;

/// Relies on `sha2::Sha256::digest`: one 32-byte digest that is a function
/// of the input bytes alone.
#[verifier::external_body]
pub(crate) fn sha256(data: &[u8]) -> (r: Vec<u8>)
    ensures
        r@ == sha256_of(data@),
        r@.len() == 32,
{
    sha2::Sha256::digest(data).to_vec()
}

/// The RIPEMD-160 digest of a byte string, as `ripemd::Ripemd160` computes
/// it.
pub uninterp spec fn ripemd160_of(s: Seq<u8>) -> Seq<u8>;

/// Relies on `ripemd::Ripemd160::digest`: one 20-byte digest that is a
/// function of the input bytes alone.
#[verifier::external_body]
pub(crate) fn ripemd160(data: &[u8]) -> (r: Vec<u8>)
    ensures
        r@ == ripemd160_of(data@),
        r@.len() == 20,
{
    ripemd::Ripemd160::digest(data).to_vec()
}

/// What a single hash returns for present data.
pub open spec fn hash_spec(d: Seq<u8>) -> Seq<u8> {
    sha256_of(d)
}

/// What a double hash returns for present data.
pub open spec fn hash_twice_spec(d: Seq<u8>) -> Seq<u8> {
    sha256_of(sha256_of(d))
}

/// Hash `data` once with the named algorithm. Only the 256-bit hash
/// "SHA-256" is supported, and naming anything else is a caller error that
/// the precondition rules out, so the hot path carries no algorithm branch.
/// Absent data is a no-op that returns no digest rather than an error.
pub fn encode(algorithm: &str, data: Option<&[u8]>) -> (r: Option<Vec<u8>>)
    requires
        algorithm@ == "SHA-256"@,
    ensures
        data is None <==> r is None,
        data matches Some(d) ==> r matches Some(v) && v@ == hash_spec(d@) && v@.len() == 32,
{
    match data {
        None => None,
        Some(d) => Some(sha256(d)),
    }
}

/// Hash `data` twice with the named algorithm: the digest of the digest.
/// The same calling rules as for `encode` apply.
pub fn encode_twice(algorithm: &str, data: Option<&[u8]>) -> (r: Option<Vec<u8>>)
    requires
        algorithm@ == "SHA-256"@,
    ensures
        data is None <==> r is None,
        data matches Some(d) ==> r matches Some(v) && v@ == hash_twice_spec(d@) && v@.len() == 32,
{
    match data {
        None => None,
        Some(d) => {
            let first = sha256(d);
            Some(sha256(first.as_slice()))
        },
    }
}

/// Hash chaining: hashing twice is exactly a single hash of a single hash.
pub proof fn lemma_hash_twice_chains(d: Seq<u8>)
    ensures
        hash_twice_spec(d) == hash_spec(hash_spec(d)),
{
}

} // verus!
