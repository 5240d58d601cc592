//! DKIM signing: a `DKIM-Signature` header for a message, computed over the
//! canonical form of chosen headers and of the body.

use vstd::prelude::*;
use vstd::string::StringExecFns;
use vstd::utf8::{decode_utf8, encode_utf8_decode_utf8};
use crate::common::crypto::{
    rsa_error_message, rsa_key_of_pkcs1_pem, Algorithm, RsaKey, Sha256,
};
use crate::common::encoding::lit;
use crate::common::headers::{body_of, headers_of, HeaderWriter};
use crate::dkim::headers::{lemma_signature_is_utf8, signature_bytes};
use crate::dkim::sign::sign_outcome;
use crate::dkim::{DkimSigner, Signature, SignatureView};

pub mod common;
pub mod dkim;

verus! {

/// Why no signature was produced.
#[derive(Debug, Clone, PartialEq, Eq)]
pub enum Error {
    /// None of the requested headers is present in the message.
    NoHeadersFound,
    /// The signing key was rejected or the signing primitive failed; the text
    /// is the primitive's own.
    CryptoError(String),
    /// A value is too long to be encoded as base64.
    Base64,
}

impl Error {
    /// The text that describes the error.
    pub open spec fn message_text(self) -> Seq<char> {
        match self {
            Error::NoHeadersFound => "No headers found to sign"@,
            Error::CryptoError(err) => "Cryptography error: "@ + err@,
            Error::Base64 => "Base64 encoding error."@,
        }
    }

    /// Describes the error in words.
    pub fn message(&self) -> (text: String)
        ensures
            text@ == self.message_text(),
    {
        match self {
            Error::NoHeadersFound => String::from_str("No headers found to sign"),
            Error::CryptoError(err) => String::from_str("Cryptography error: ").concat(
                err.as_str(),
            ),
            Error::Base64 => String::from_str("Base64 encoding error."),
        }
    }
}

/// The record that `sign_email` starts from: the domain, the selector, and
/// the headers `From`, `To` and `Subject`, under relaxed canonicalization.
pub open spec fn email_template(domain: Seq<char>, selector: Seq<char>) -> SignatureView {
    SignatureView {
        v: 1,
        a: Algorithm::RsaSha256,
        d: domain,
        s: selector,
        h: seq!["From"@, "To"@, "Subject"@],
        ..SignatureView::empty()
    }
}

/// What `sign_email` returns where signing comes to `outcome`: the header
/// line of the signature followed by the message, or the failure.
pub open spec fn signed_email(email: Seq<char>, outcome: Result<Signature, Error>) -> Result<
    Seq<char>,
    Error,
> {
    match outcome {
        Ok(sig) => Ok(decode_utf8(signature_bytes(sig@, true)) + email),
        Err(e) => Err(e),
    }
}

/// The text of a result of `sign_email`.
pub open spec fn email_text(r: Result<String, Error>) -> Result<Seq<char>, Error> {
    match r {
        Ok(text) => Ok(text@),
        Err(e) => Err(e),
    }
}

/// Signs `email` with RSA and SHA-256 over its `From`, `To` and `Subject`
/// headers, and returns it with the `DKIM-Signature` header in front.
///
/// `private_key` is the key as PKCS#1 PEM text. A key that is not accepted, a
/// failure to sign and a message without any of the three headers are
/// reported as errors.
pub fn sign_email(email: &str, domain: &str, selector: &str, private_key: &str) -> (r: Result<
    String,
    Error,
>)
    ensures
        match rsa_key_of_pkcs1_pem(private_key@) {
            Err(err) => r matches Err(Error::CryptoError(text)) && text@ == rsa_error_message(
                err,
            ),
            Ok(inner) => exists|key: RsaKey<Sha256>, now: u64, outcome: Result<Signature, Error>|
                {
                    &&& key.private_key() == inner
                    &&& sign_outcome(
                        key,
                        email_template(domain@, selector@),
                        headers_of(lit(email)),
                        body_of(lit(email)),
                        now,
                        outcome,
                    )
                    &&& email_text(r) == signed_email(email@, outcome)
                },
        },
{
    let key = match RsaKey::<Sha256>::from_pkcs1_pem(private_key) {
        Ok(key) => key,
        Err(e) => {
            return Err(e);
        },
    };
    let names: [&str; 3] = ["From", "To", "Subject"];
    let signer = DkimSigner::from_key(key).domain(domain).selector(selector).headers(
        names.as_slice(),
    );
    assert(signer.template().h =~= email_template(domain@, selector@).h);
    let outcome = signer.sign(email.as_bytes());
    let ghost now = choose|now: u64|
        sign_outcome(
            signer.key(),
            signer.template(),
            headers_of(lit(email)),
            body_of(lit(email)),
            now,
            outcome,
        );
    match outcome {
        Ok(sig) => {
            proof {
                lemma_signature_is_utf8(sig@, true);
            }
            let header = sig.to_header();
            proof {
                encode_utf8_decode_utf8(header@);
            }
            let text = header.concat(email);
            Ok(text)
        },
        Err(e) => Err(e),
    }
}

} // verus!
