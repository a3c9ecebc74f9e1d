//! The cryptographic primitives this library calls: SHA-256 from `sha2` and
//! ECDSA over secp256k1 from `secp256k1`. Keys and messages are handled as
//! byte strings; each result is named by a function of the inputs alone.
use vstd::prelude::*;

verus! {

/// The SHA-256 digest of a byte string.
pub uninterp spec fn sha256_of(data: Seq<u8>) -> Seq<u8>;

/// The compressed (33-byte) public key of a secret key, or `None` where the
/// bytes are not a valid secp256k1 secret key.
pub uninterp spec fn public_key_of(secret: Seq<u8>) -> Option<Seq<u8>>;

/// The hex-rendered DER ECDSA signature of a 32-byte message digest, or
/// `None` where the key or the digest is malformed.
pub uninterp spec fn signature_of(secret: Seq<u8>, digest: Seq<u8>) -> Option<Seq<char>>;

/// Whether a hex-rendered DER signature verifies for a digest under a
/// serialized public key (false when any of the three does not parse).
pub uninterp spec fn signature_verifies(public: Seq<u8>, digest: Seq<u8>, sig: Seq<char>) -> bool;

/// Relies on `sha2::Sha256::digest`: the 32-byte SHA-256 digest of the input.
#[verifier::external_body]
pub(crate) fn sha256(data: &[u8]) -> (r: Vec<u8>)
    ensures
        r@ == sha256_of(data@),
        r@.len() == 32,
{
    <sha2::Sha256 as sha2::Digest>::digest(data).to_vec()
}

/// Relies on `secp256k1::SecretKey::from_slice` (which refuses any input that
/// is not 32 bytes long) and `PublicKey::from_secret_key` with
/// `PublicKey::serialize` (33 bytes, compressed form).
#[verifier::external_body]
pub(crate) fn derive_public_key(secret: &[u8]) -> (r: Option<Vec<u8>>)
    ensures
        r matches Some(p) ==> public_key_of(secret@) == Some(p@) && p@.len() == 33,
        r is None ==> public_key_of(secret@) is None,
        secret@.len() != 32 ==> r is None,
{
    match secp256k1::SecretKey::from_slice(secret) {
        Ok(k) => Some(
            secp256k1::PublicKey::from_secret_key(&secp256k1::Secp256k1::new(), &k).serialize().to_vec(),
        ),
        Err(_) => None,
    }
}

/// Relies on `secp256k1::Secp256k1::sign_ecdsa` (deterministic nonces), after
/// `SecretKey::from_slice` and `Message::from_digest_slice`, both of which
/// refuse an input that is not 32 bytes long; the signature is rendered by its
/// `Display` impl (hex of the DER encoding). A key that `from_slice` accepts
/// (the same test `derive_public_key` makes) with a 32-byte digest always
/// signs, and, as `verify_ecdsa`'s documentation shows, the signature verifies
/// under that key's public key.
#[verifier::external_body]
pub(crate) fn sign_digest(secret: &[u8], digest: &[u8]) -> (r: Option<String>)
    ensures
        r matches Some(s) ==> signature_of(secret@, digest@) == Some(s@),
        r is None ==> signature_of(secret@, digest@) is None,
        secret@.len() != 32 || digest@.len() != 32 ==> r is None,
        public_key_of(secret@) is Some && digest@.len() == 32 ==> r is Some,
        r matches Some(s) ==> (public_key_of(secret@) matches Some(p) ==> signature_verifies(
            p,
            digest@,
            s@,
        )),
{
    let key = secp256k1::SecretKey::from_slice(secret).ok()?;
    let msg = secp256k1::Message::from_digest_slice(digest).ok()?;
    Some(secp256k1::Secp256k1::new().sign_ecdsa(&msg, &key).to_string())
}

/// Relies on `secp256k1::Secp256k1::verify_ecdsa`, after
/// `PublicKey::from_slice`, `Message::from_digest_slice` and the `FromStr`
/// impl of `ecdsa::Signature`; any parse failure counts as not verified: an
/// empty key, a digest that is not 32 bytes long, and an empty signature (which
/// `from_der` refuses) never verify.
#[verifier::external_body]
pub(crate) fn verify_digest(public: &[u8], digest: &[u8], sig: &str) -> (r: bool)
    ensures
        r == signature_verifies(public@, digest@, sig@),
        public@.len() == 0 ==> !r,
        digest@.len() != 32 ==> !r,
        sig@.len() == 0 ==> !r,
{
    let (Ok(key), Ok(msg)) = (
        secp256k1::PublicKey::from_slice(public),
        secp256k1::Message::from_digest_slice(digest),
    ) else {
        return false;
    };
    match <secp256k1::ecdsa::Signature as std::str::FromStr>::from_str(sig) {
        Ok(s) => secp256k1::Secp256k1::verification_only().verify_ecdsa(&msg, &s, &key).is_ok(),
        Err(_) => false,
    }
}

} // verus!
