//! Hashing and signing: what a signing key must offer, and the RSA key with
//! SHA-256 that offers it.

use vstd::prelude::*;
use std::marker::PhantomData;
use rsa::errors::Error as RsaError;
use rsa::pkcs1::DecodeRsaPrivateKey;
use sha2::Digest;
use crate::common::headers::{Writable, Writer};
use crate::Error;

verus! {

/// The signature algorithms, as the `a=` tag names them.
#[derive(Debug, Clone, Copy, PartialEq, Eq, Structural)]
pub enum Algorithm {
    /// RSA over a SHA-256 digest.
    RsaSha256,
}

impl Default for Algorithm {
    fn default() -> (a: Self)
        ensures
            a == Algorithm::RsaSha256,
    {
        Algorithm::RsaSha256
    }
}

/// The hash functions.
#[derive(Debug, Clone, Copy, PartialEq, Eq, Structural)]
pub enum HashAlgorithm {
    /// SHA-256.
    Sha256,
}

impl From<Algorithm> for HashAlgorithm {
    fn from(a: Algorithm) -> (h: Self) {
        HashAlgorithm::Sha256
    }
}

impl vstd::std_specs::convert::FromSpecImpl<Algorithm> for HashAlgorithm {
    open spec fn obeys_from_spec() -> bool {
        true
    }

    open spec fn from_spec(a: Algorithm) -> Self {
        HashAlgorithm::Sha256
    }
}

/// A digest.
#[non_exhaustive]
pub enum HashOutput {
    /// The 32 bytes of a SHA-256 digest.
    RustCryptoSha256([u8; 32]),
}

impl View for HashOutput {
    type V = Seq<u8>;

    open spec fn view(&self) -> Seq<u8> {
        match self {
            HashOutput::RustCryptoSha256(bytes) => bytes@,
        }
    }
}

/// The number of bytes of a digest.
pub const DIGEST_LEN: usize = 32;

impl HashOutput {
    /// A digest has `DIGEST_LEN` bytes.
    pub proof fn lemma_len(self)
        ensures
            self@.len() == DIGEST_LEN,
    {
        match self {
            HashOutput::RustCryptoSha256(bytes) => {
                vstd::array::array_len_matches_n(&bytes);
            },
        }
    }

    /// The bytes of the digest.
    pub fn as_ref(&self) -> (bytes: &[u8])
        ensures
            bytes@ == self@,
    {
        match self {
            HashOutput::RustCryptoSha256(output) => output.as_slice(),
        }
    }
}

/// A hash computation in progress: bytes are written to it, then it is
/// completed.
pub trait HashContext: Writer + Sized {
    /// The digest of `data` under this context's hash function.
    spec fn digest(data: Seq<u8>) -> Seq<u8>;

    /// The digest of all that was written.
    fn complete(self) -> (out: HashOutput)
        ensures
            out@ == Self::digest(self.written()),
    ;
}

/// A hash function, as the type of its computations.
pub trait HashImpl {
    type Context: HashContext;

    /// A computation that nothing has been written to.
    fn hasher() -> (h: Self::Context)
        ensures
            h.written() == Seq::<u8>::empty(),
    ;
}

/// The digest of `data` under the hash function `H`.
pub open spec fn digest_of<H: HashImpl>(data: Seq<u8>) -> Seq<u8> {
    <H::Context as HashContext>::digest(data)
}

/// A key that signs byte streams.
pub trait SigningKey {
    type Hasher: HashImpl;

    /// Whether `signature` is a signature that the key gives for `data`.
    spec fn signs(&self, data: Seq<u8>, signature: Seq<u8>) -> bool;

    /// Whether the key refuses to sign `data`, and `text` is what the signing
    /// primitive says of it.
    spec fn refuses(&self, data: Seq<u8>, text: Seq<char>) -> bool;

    /// Signs the digest of what `input` writes. A failure of the signing
    /// primitive is reported as `Error::CryptoError`, with the primitive's
    /// text.
    fn sign<W: Writable>(&self, input: W) -> (r: Result<Vec<u8>, Error>)
        ensures
            match r {
                Ok(signature) => self.signs(input.bytes(), signature@),
                Err(e) => e matches Error::CryptoError(text) && self.refuses(
                    input.bytes(),
                    text@,
                ),
            },
    ;

    /// The digest of what `data` writes.
    fn hash<W: Writable>(&self, data: W) -> (out: HashOutput)
        ensures
            out@ == digest_of::<Self::Hasher>(data.bytes()),
    {
        let mut hasher = <Self::Hasher as HashImpl>::hasher();
        data.write(&mut hasher);
        hasher.complete()
    }

    /// The algorithm that the key signs with.
    spec fn algorithm_tag(&self) -> Algorithm;

    /// The algorithm that the key signs with, as the signature names it.
    fn algorithm(&self) -> (a: Algorithm)
        ensures
            a == self.algorithm_tag(),
    ;
}

/// SHA-256.
pub struct Sha256;

/// A SHA-256 computation in progress: the hasher of the `sha2` crate.
///
/// Trusted: the hasher, `sha2::Sha256`, is held as it is. Its type is made of
/// generic types whose bounds are traits of other crates, so it cannot be
/// declared; nothing inside it is read here.
#[verifier::external_body]
pub struct Sha256Context {
    inner: sha2::Sha256,
}

/// The bytes that a SHA-256 computation has been given so far, in order.
pub uninterp spec fn sha256_written(context: Sha256Context) -> Seq<u8>;

/// The SHA-256 digest of `data`, as the `sha2` crate computes it.
pub uninterp spec fn sha256_digest(data: Seq<u8>) -> Seq<u8>;

/// Starts a SHA-256 computation.
///
/// Trusted: calls `new` of `sha2::Sha256`. The computation has been given
/// nothing yet.
#[verifier::external_body]
fn sha256_new() -> (context: Sha256Context)
    ensures
        sha256_written(context) == Seq::<u8>::empty(),
{
    Sha256Context { inner: sha2::Sha256::new() }
}

/// Gives a SHA-256 computation more bytes.
///
/// Trusted: calls `update` of `sha2::Sha256`. The bytes come after those
/// given before.
#[verifier::external_body]
fn sha256_update(context: &mut Sha256Context, buf: &[u8])
    ensures
        sha256_written(*final(context)) == sha256_written(*old(context)) + buf@,
{
    context.inner.update(buf);
}

/// Ends a SHA-256 computation.
///
/// Trusted: calls `finalize` of `sha2::Sha256`. The result is the digest of
/// all the bytes given, in the order given.
#[verifier::external_body]
fn sha256_finalize(context: Sha256Context) -> (out: [u8; 32])
    ensures
        out@ == sha256_digest(sha256_written(context)),
{
    context.inner.finalize().into()
}

impl Writer for Sha256Context {
    open spec fn written(&self) -> Seq<u8> {
        sha256_written(*self)
    }

    fn write(&mut self, buf: &[u8]) {
        sha256_update(self, buf);
    }
}

impl HashContext for Sha256Context {
    open spec fn digest(data: Seq<u8>) -> Seq<u8> {
        sha256_digest(data)
    }

    fn complete(self) -> (out: HashOutput) {
        HashOutput::RustCryptoSha256(sha256_finalize(self))
    }
}

impl HashImpl for Sha256 {
    type Context = Sha256Context;

    fn hasher() -> (h: Sha256Context) {
        sha256_new()
    }
}

/// The private key of the `rsa` crate, carried as it is: nothing inside it
/// is read here.
#[verifier::external_type_specification]
#[verifier::external_body]
pub struct ExRsaPrivateKey(rsa::RsaPrivateKey);

/// The error of the `rsa` crate, `rsa::errors::Error`, carried as it is.
#[verifier::external_type_specification]
#[verifier::external_body]
pub struct ExRsaError(RsaError);

/// What the `rsa` crate makes of PKCS#1 PEM text: the RSA private key that
/// it reads, or the error with which it turns the text down.
pub uninterp spec fn rsa_key_of_pkcs1_pem(pem: Seq<char>) -> Result<rsa::RsaPrivateKey, RsaError>;

/// Reads an RSA private key from PKCS#1 PEM text.
///
/// Trusted: calls `rsa::RsaPrivateKey::from_pkcs1_pem` and hands a failure on
/// as the `rsa` crate's own error. Whether the text is accepted, the key that
/// is read and the error that is given depend on the text alone.
#[verifier::external_body]
fn rsa_key_from_pkcs1_pem(pem: &str) -> (r: Result<rsa::RsaPrivateKey, RsaError>)
    ensures
        r == rsa_key_of_pkcs1_pem(pem@),
{
    rsa::RsaPrivateKey::from_pkcs1_pem(pem).map_err(RsaError::from)
}

/// What the `rsa` crate makes of signing a SHA-256 digest under `key` with
/// PKCS#1 v1.5 padding: the signature, or the error with which it fails.
pub uninterp spec fn rsa_pkcs1v15_sha256(key: rsa::RsaPrivateKey, digest: Seq<u8>) -> Result<
    Seq<u8>,
    RsaError,
>;

/// Signs a SHA-256 digest with PKCS#1 v1.5 padding.
///
/// Trusted: calls `rsa::RsaPrivateKey::sign` with the padding that
/// `rsa::Pkcs1v15Sign::new` builds for SHA-256. The call draws on no
/// randomness: whether it succeeds, the signature and the error depend on the
/// key and the digest alone. A signature is as long as the key's modulus,
/// which is longer than the padded digest: it is not empty.
#[verifier::external_body]
fn rsa_sign_sha256(key: &rsa::RsaPrivateKey, digest: &[u8]) -> (r: Result<Vec<u8>, RsaError>)
    ensures
        match r {
            Ok(signature) => rsa_pkcs1v15_sha256(*key, digest@) == Ok::<Seq<u8>, RsaError>(
                signature@,
            ) && signature@.len() > 0,
            Err(err) => rsa_pkcs1v15_sha256(*key, digest@) == Err::<Seq<u8>, RsaError>(err),
        },
{
    key.sign(rsa::Pkcs1v15Sign::new::<sha2::Sha256>(), digest)
}

/// The text of an error of the `rsa` crate. Trusted: calls the error's `to_string`.
#[verifier::external_body]
fn rsa_error_text(err: &RsaError) -> (text: String)
    ensures
        text@ == rsa_error_message(*err),
{
    err.to_string()
}

/// Reports a failure of the `rsa` crate as a `CryptoError` that carries its text.
fn crypto_error(err: &RsaError) -> (e: Error)
    ensures
        e matches Error::CryptoError(text) && text@ == rsa_error_message(*err),
{
    Error::CryptoError(rsa_error_text(err))
}

/// An RSA private key that signs digests of the hash function `T`.
pub struct RsaKey<T> {
    inner: rsa::RsaPrivateKey,
    padding: PhantomData<T>,
}

impl<T> RsaKey<T> {
    /// The key as the `rsa` crate holds it.
    pub closed spec fn private_key(&self) -> rsa::RsaPrivateKey {
        self.inner
    }
}

impl<T: HashImpl> RsaKey<T> {
    /// Reads the key from PKCS#1 PEM text. Text that the `rsa` crate does not
    /// accept as a key is reported as `Error::CryptoError`, with the crate's
    /// message.
    pub fn from_pkcs1_pem(private_key_pem: &str) -> (r: Result<Self, Error>)
        ensures
            match rsa_key_of_pkcs1_pem(private_key_pem@) {
                Ok(inner) => r matches Ok(key) && key.private_key() == inner,
                Err(err) => r matches Err(Error::CryptoError(text)) && text@
                    == rsa_error_message(err),
            },
    {
        match rsa_key_from_pkcs1_pem(private_key_pem) {
            Ok(inner) => Ok(RsaKey { inner, padding: PhantomData }),
            Err(err) => Err(crypto_error(&err)),
        }
    }
}

impl SigningKey for RsaKey<Sha256> {
    type Hasher = Sha256;

    open spec fn algorithm_tag(&self) -> Algorithm {
        Algorithm::RsaSha256
    }

    open spec fn signs(&self, data: Seq<u8>, signature: Seq<u8>) -> bool {
        rsa_pkcs1v15_sha256(self.private_key(), sha256_digest(data)) == Ok::<Seq<u8>, RsaError>(
            signature,
        ) && signature.len() > 0
    }

    open spec fn refuses(&self, data: Seq<u8>, text: Seq<char>) -> bool {
        rsa_pkcs1v15_sha256(self.private_key(), sha256_digest(data)) matches Err(err) && text
            == rsa_error_message(err)
    }

    fn sign<W: Writable>(&self, input: W) -> (r: Result<Vec<u8>, Error>)
        ensures
            r is Ok <==> rsa_pkcs1v15_sha256(
                self.private_key(),
                sha256_digest(input.bytes()),
            ) is Ok,
    {
        let hash = self.hash(input);
        match rsa_sign_sha256(&self.inner, hash.as_ref()) {
            Ok(signature) => Ok(signature),
            Err(err) => Err(crypto_error(&err)),
        }
    }

    fn algorithm(&self) -> (a: Algorithm) {
        Algorithm::RsaSha256
    }
}

/// The text in which the `rsa` crate describes one of its errors: what the
/// error's `to_string` returns. It depends on the error alone.
pub uninterp spec fn rsa_error_message(err: RsaError) -> Seq<char>;

} // verus!
