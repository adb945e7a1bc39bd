//! Digests, signatures and random bytes, from the crates that compute them.

use ed25519_dalek::{Signature, Signer, SigningKey, Verifier, VerifyingKey};
use sha2::{Digest, Sha256};
use vstd::prelude::*;

verus! {

/// The SHA-256 digest of some bytes.
pub uninterp spec fn sha256_of(data: Seq<u8>) -> Seq<u8>;

/// The bytes are an Ed25519 public key.
pub uninterp spec fn is_public_key(key: Seq<u8>) -> bool;

/// The public key that belongs to an Ed25519 secret key.
pub uninterp spec fn public_key_of(secret: Seq<u8>) -> Seq<u8>;

/// The Ed25519 signature of a message under a secret key.
pub uninterp spec fn signature_of(secret: Seq<u8>, message: Seq<u8>) -> Seq<u8>;

/// The signature is one of the message under the public key.
pub uninterp spec fn signature_holds(
    key: Seq<u8>,
    message: Seq<u8>,
    signature: Seq<u8>,
) -> bool;

/// `Sha256::digest` of `sha2`: a function of the bytes.
#[verifier::external_body]
pub(crate) fn sha256(data: &[u8]) -> (digest: [u8; 32])
    ensures
        digest@ == sha256_of(data@),
{
    Sha256::digest(data).into()
}

/// `VerifyingKey::from_bytes` of `ed25519_dalek`: whether the bytes decode to a
/// key depends on them alone.
#[verifier::external_body]
pub(crate) fn decodes_as_key(key: &[u8; 32]) -> (valid: bool)
    ensures
        valid == is_public_key(key@),
{
    VerifyingKey::from_bytes(key).is_ok()
}

/// `SigningKey::verifying_key` of `ed25519_dalek`: the public key is a function
/// of the secret one, and decodes again.
#[verifier::external_body]
pub(crate) fn derive_public_key(secret: &[u8; 32]) -> (key: [u8; 32])
    ensures
        key@ == public_key_of(secret@),
        is_public_key(key@),
{
    SigningKey::from_bytes(secret).verifying_key().to_bytes()
}

/// `Signer::sign` of `ed25519_dalek`: Ed25519 signatures are a function of the
/// key and the message, and hold under the public key of the secret one.
#[verifier::external_body]
pub(crate) fn sign(secret: &[u8; 32], message: &[u8]) -> (signature: [u8; 64])
    ensures
        signature@ == signature_of(secret@, message@),
        signature_holds(public_key_of(secret@), message@, signature@),
{
    SigningKey::from_bytes(secret).sign(message).to_bytes()
}

/// `Verifier::verify` of `ed25519_dalek`: whether a signature holds depends on
/// the key, the message and the signature alone. Bytes that are no key hold for
/// nothing.
#[verifier::external_body]
pub(crate) fn verify(key: &[u8; 32], message: &[u8], signature: &[u8; 64]) -> (valid: bool)
    ensures
        valid == (is_public_key(key@) && signature_holds(key@, message@, signature@)),
{
    match VerifyingKey::from_bytes(key) {
        Ok(decoded) => decoded.verify(message, &Signature::from_bytes(signature)).is_ok(),
        Err(_) => false,
    }
}

/// `rand::random`: some bytes, of which nothing is promised.
#[verifier::external_body]
pub(crate) fn random_bytes<const N: usize>() -> (bytes: [u8; N]) {
    rand::random()
}

} // verus!
