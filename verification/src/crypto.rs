//! Ed25519 signing of proof material, over ring's implementation.
//!
//! A message carrier is wrapped in `EdDSA` and signed with a PKCS#8
//! key-pair document.  Ed25519 signatures are deterministic functions of
//! the key and the message, so the trusted contracts name the signature,
//! the derived public key and the validity of a signature; a fresh key pair
//! is a random draw of which nothing is promised.

use vstd::prelude::*;
use vstd::string::StringSliceAdditionalSpecFns;
use vstd::utf8::encode_utf8;

verus! {

/// The Ed25519 signature of a message under a PKCS#8 key-pair document;
/// the empty sequence for a document ring rejects.
pub uninterp spec fn ed25519_sig_of(key_pkcs8: Seq<u8>, msg: Seq<u8>) -> Seq<u8>;

/// The public key half of a PKCS#8 key-pair document; the empty sequence
/// for a document ring rejects.
pub uninterp spec fn ed25519_pub_of(key_pkcs8: Seq<u8>) -> Seq<u8>;

/// Whether a signature is valid for a public key and message under
/// Ed25519.
pub uninterp spec fn ed25519_verifies(pub_key: Seq<u8>, msg: Seq<u8>, sig: Seq<u8>) -> bool;

/// Relies on ring's `Ed25519KeyPair::generate_pkcs8` with the system
/// random generator: a fresh PKCS#8 key-pair document.  Nothing can be
/// promised of a random draw; on a generator failure the document is
/// empty, and later uses of it are rejected.
#[verifier::external_body]
fn gen_pkcs8() -> Vec<u8> {
    let rng = ring::rand::SystemRandom::new();
    match ring::signature::Ed25519KeyPair::generate_pkcs8(&rng) {
        Ok(doc) => doc.as_ref().to_vec(),
        Err(_) => Vec::new(),
    }
}

/// Relies on ring's `Ed25519KeyPair::from_pkcs8` and `sign`: Ed25519
/// signing is deterministic in the key and the message.  A rejected
/// key-pair document yields the empty signature.
#[verifier::external_body]
fn sign_bytes(key: &[u8], msg: &[u8]) -> (r: Vec<u8>)
    ensures
        r@ == ed25519_sig_of(key@, msg@),
{
    match ring::signature::Ed25519KeyPair::from_pkcs8(key) {
        Ok(kp) => kp.sign(msg).as_ref().to_vec(),
        Err(_) => Vec::new(),
    }
}

/// Relies on ring's `Ed25519KeyPair::from_pkcs8` and the `KeyPair` trait's
/// `public_key`: the public half is a function of the document.  A
/// rejected document yields the empty key.
#[verifier::external_body]
fn public_key_bytes(key: &[u8]) -> (r: Vec<u8>)
    ensures
        r@ == ed25519_pub_of(key@),
{
    match ring::signature::Ed25519KeyPair::from_pkcs8(key) {
        Ok(kp) => <ring::signature::Ed25519KeyPair as ring::signature::KeyPair>::public_key(&kp).as_ref().to_vec(),
        Err(_) => Vec::new(),
    }
}

/// Relies on ring's `UnparsedPublicKey::verify` with the `ED25519`
/// algorithm: the outcome is a function of key, message and signature.
#[verifier::external_body]
fn verify_bytes(pub_key: &[u8], msg: &[u8], sig: &[u8]) -> (r: bool)
    ensures
        r == ed25519_verifies(pub_key@, msg@, sig@),
{
    let upk = ring::signature::UnparsedPublicKey::new(&ring::signature::ED25519, pub_key);
    match upk.verify(msg, sig) {
        Ok(_) => true,
        Err(_) => false,
    }
}

/// A message carrier for Ed25519 signing.
pub struct EdDSA<T>(pub T);

impl<T> EdDSA<T> {
    /// Wraps a message.
    pub fn into(s: T) -> (r: EdDSA<T>)
        ensures
            r.0 == s,
    {
        EdDSA(s)
    }
}

impl<'a> EdDSA<&'a str> {
    /// Signs the carried message with the key-pair document.
    pub fn sign_message(&self, key: &Vec<u8>) -> (r: Vec<u8>)
        ensures
            r@ == ed25519_sig_of(key@, self.0.spec_bytes()),
    {
        sign_bytes(key.as_slice(), self.0.as_bytes())
    }

    /// Checks a signature on the carried message against a public key.
    pub fn verify_signature(&self, sig: &Vec<u8>, key: &Vec<u8>) -> (r: bool)
        ensures
            r == ed25519_verifies(key@, self.0.spec_bytes(), sig@),
    {
        verify_bytes(key.as_slice(), self.0.as_bytes(), sig.as_slice())
    }
}

impl EdDSA<String> {
    /// Signs the carried message with the key-pair document.
    pub fn sign_message(&self, key: &Vec<u8>) -> (r: Vec<u8>)
        ensures
            r@ == ed25519_sig_of(key@, encode_utf8(self.0@)),
    {
        sign_bytes(key.as_slice(), self.0.as_str().as_bytes())
    }

    /// Checks a signature on the carried message against a public key.
    pub fn verify_signature(&self, sig: &Vec<u8>, key: &Vec<u8>) -> (r: bool)
        ensures
            r == ed25519_verifies(key@, encode_utf8(self.0@), sig@),
    {
        verify_bytes(key.as_slice(), self.0.as_str().as_bytes(), sig.as_slice())
    }

    /// Derives the public key half of a key-pair document.
    pub fn public_key(key: &Vec<u8>) -> (r: Vec<u8>)
        ensures
            r@ == ed25519_pub_of(key@),
    {
        public_key_bytes(key.as_slice())
    }

    /// Generates a fresh PKCS#8 key-pair document.
    pub fn init_key_pair() -> Vec<u8> {
        gen_pkcs8()
    }
}

} // verus!
