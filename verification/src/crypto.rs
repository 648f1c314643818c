//! The cryptographic primitives that the ledger's rules rest on: SHA-256
//! digests and RSA signatures over SHA-256, both computed by outside code.

use vstd::prelude::*;

verus! {

/// The lower-case hex form of the SHA-256 digest of the UTF-8 bytes of `text`.
pub uninterp spec fn sha256_hex(text: Seq<char>) -> Seq<char>;

/// Whether `text` has the form of a digest: 64 lower-case hex digits.
pub open spec fn is_digest_text(text: Seq<char>) -> bool {
    &&& text.len() == 64
    &&& forall|i: int|
        0 <= i < text.len() ==> '0' <= #[trigger] text[i] <= '9' || 'a' <= text[i] <= 'f'
}

/// Compute the SHA-256 hash of the input data with `sha256::digest`, which
/// hashes the bytes of the text and renders the digest in lower-case hex.
/// The contract gives the digest a name, and says of it that it has the
/// form of a digest: the 32 bytes of SHA-256 in two hex digits each.
#[verifier::external_body]
pub fn sha_hash(data: &str) -> (digest: String)
    ensures
        digest@ == sha256_hex(data@),
        is_digest_text(digest@),
{
    sha256::digest(data.as_bytes())
}

/// What OpenSSL reports when an operation fails.
#[verifier::external_type_specification]
#[verifier::external_body]
pub struct ExErrorStack(openssl::error::ErrorStack);

/// The largest key text, in bytes, that OpenSSL's PEM reader takes.
pub const MAX_PEM_LEN: usize = 0x7fff_ffff;

/// Whether the key text `key_pem` fits OpenSSL's PEM reader.
pub open spec fn fits_pem_reader(key_pem: Seq<u8>) -> bool {
    key_pem.len() <= MAX_PEM_LEN
}

/// Whether OpenSSL accepts `signature` as an RSA signature, with a SHA-256
/// digest, of the UTF-8 bytes of `message` under the public key that the PEM
/// text `key_pem` holds, read under the empty pass phrase. It is false where
/// the key cannot be read so, or is no RSA key.
pub uninterp spec fn rsa_sha256_verifies(
    key_pem: Seq<u8>,
    message: Seq<char>,
    signature: Seq<u8>,
) -> bool;

/// Verifies a signature with OpenSSL. `PKey::public_key_from_pem_passphrase`
/// reads the key and is handed the empty pass phrase, so that the terminal
/// is never asked for one, whatever the text holds; `PKeyRef::rsa` keeps an
/// RSA key only and `PKey::from_rsa` wraps it; a `Verifier` over SHA-256 is fed the
/// bytes of `message` by `update` and asked by `verify` whether `signature`
/// matches. The contract takes the outcome to depend on the three arguments
/// alone, and counts an error of any of the steps as a signature that is
/// not accepted.
#[verifier::external_body]
pub(crate) fn verify_rsa_sha256(key_pem: &[u8], message: &str, signature: &[u8]) -> (r: Result<
    bool,
    openssl::error::ErrorStack,
>)
    requires
        fits_pem_reader(key_pem@),
    ensures
        (match r {
            Ok(accepted) => accepted == rsa_sha256_verifies(key_pem@, message@, signature@),
            Err(_) => !rsa_sha256_verifies(key_pem@, message@, signature@),
        }),
{
    let read = openssl::pkey::PKey::public_key_from_pem_passphrase(key_pem, b"")?;
    let key = openssl::pkey::PKey::from_rsa(read.rsa()?)?;
    let mut verifier = openssl::sign::Verifier::new(openssl::hash::MessageDigest::sha256(), &key)?;
    verifier.update(message.as_bytes())?;
    verifier.verify(signature)
}

/// The RSA signature, with a SHA-256 digest, that OpenSSL computes of the
/// UTF-8 bytes of `message` under the private key that the PEM text `key_pem`
/// holds, read under the empty pass phrase; `None` where it cannot read the
/// key so, or cannot sign with it.
pub uninterp spec fn rsa_sha256_signature(key_pem: Seq<u8>, message: Seq<char>) -> Option<Seq<u8>>;

/// Signs with OpenSSL. `Rsa::private_key_from_pem_passphrase` reads the key
/// and is handed the empty pass phrase, so that the terminal is never asked
/// for one, whatever the text holds; `PKey::from_rsa` wraps the key; a
/// `Signer` over SHA-256 is fed the bytes of `message` by `update` and gives
/// the signature by `sign_to_vec`. The padding is the signer's default for
/// RSA, which uses no randomness, so the contract takes the outcome to
/// depend on the two arguments alone.
#[verifier::external_body]
pub(crate) fn sign_rsa_sha256(key_pem: &[u8], message: &str) -> (r: Result<
    Vec<u8>,
    openssl::error::ErrorStack,
>)
    requires
        fits_pem_reader(key_pem@),
    ensures
        (match r {
            Ok(signature) => rsa_sha256_signature(key_pem@, message@) == Some(signature@),
            Err(_) => rsa_sha256_signature(key_pem@, message@) is None,
        }),
{
    let rsa = openssl::rsa::Rsa::private_key_from_pem_passphrase(key_pem, b"")?;
    let key = openssl::pkey::PKey::from_rsa(rsa)?;
    let mut signer = openssl::sign::Signer::new(openssl::hash::MessageDigest::sha256(), &key)?;
    signer.update(message.as_bytes())?;
    signer.sign_to_vec()
}

/// The bits of a freshly generated RSA modulus.
pub const RSA_KEY_BITS: u32 = 2048;

/// A fresh RSA key pair from `Rsa::generate`, as the PEM text that
/// `public_key_to_pem` and `private_key_to_pem` give of it. Every call draws
/// new random primes, so nothing is said of the result.
#[verifier::external_body]
pub(crate) fn generate_rsa_keypair(bits: u32) -> (r: Result<
    (Vec<u8>, Vec<u8>),
    openssl::error::ErrorStack,
>)
    requires
        bits == RSA_KEY_BITS,
{
    let rsa = openssl::rsa::Rsa::generate(bits)?;
    Ok((rsa.public_key_to_pem()?, rsa.private_key_to_pem()?))
}

/// A random version-4 UUID from `Uuid::new_v4`, in its hyphenated text
/// form. Every call draws a new one, so nothing is said of the result.
#[verifier::external_body]
pub(crate) fn random_uuid() -> (id: String) {
    uuid::Uuid::new_v4().to_string()
}

} // verus!
