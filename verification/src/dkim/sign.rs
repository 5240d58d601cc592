//! Signing a message.

use vstd::prelude::*;
use std::time::SystemTime;
use crate::common::crypto::{digest_of, RsaKey, Sha256, SigningKey};
use crate::common::encoding::{
    base64_encodable, base64_encode, base64_len, base64_result, base64_standard, is_ascii_bytes,
};
use crate::common::headers::{body_of, headers_of, HeaderIterator, HeaderStream, Writable, Writer};
use crate::dkim::canonicalize::{
    canonical_body_bytes, canonical_header_bytes, is_requested, lemma_nothing_selected, names_of,
    requested_bytes, selected, signed_names, CanonicalHeaders,
};
use crate::dkim::headers::signature_bytes;
use crate::dkim::{texts, DkimSigner, Done, Signature, SignatureView};
use crate::Error;

verus! {

/// The seconds since the epoch, or 0 where the clock stands before it.
///
/// Trusted: reads `std::time::SystemTime::now`. Nothing is claimed of the
/// result.
#[verifier::external_body]
fn unix_time_now() -> u64 {
    SystemTime::now().duration_since(SystemTime::UNIX_EPOCH).map(|d| d.as_secs()).unwrap_or(0)
}

/// What is signed: the signed headers, then the signature's own header with
/// an empty `b=` tag.
pub struct SignableMessage<'a> {
    headers: CanonicalHeaders<'a>,
    signature: &'a Signature,
}

impl<'a> SignableMessage<'a> {
    /// The signed headers.
    pub closed spec fn headers(&self) -> CanonicalHeaders<'a> {
        self.headers
    }

    /// The record whose header is signed.
    pub closed spec fn signature(&self) -> SignatureView {
        self.signature@
    }

    /// The stream that signs `signature` over `headers`.
    pub fn new(headers: CanonicalHeaders<'a>, signature: &'a Signature) -> (m: Self)
        ensures
            m.headers() == headers,
            m.signature() == signature@,
    {
        SignableMessage { headers, signature }
    }
}

impl Writable for SignableMessage<'_> {
    open spec fn bytes(&self) -> Seq<u8> {
        self.headers().bytes() + signature_bytes(self.signature(), false)
    }

    fn write<W: Writer>(self, writer: &mut W) {
        self.headers.write(writer);
        self.signature.write(writer, false);
    }
}

/// The record of a signature of `headers` and `body` at the time `now`, as
/// it is signed: all is set but the signature itself.
pub open spec fn unsigned_record(
    template: SignatureView,
    headers: Seq<(Seq<u8>, Seq<u8>)>,
    body: Seq<u8>,
    now: u64,
    bh: Seq<u8>,
) -> SignatureView {
    SignatureView {
        b: Seq::empty(),
        bh,
        t: now,
        h: signed_names(template.h, headers),
        l: if template.l > 0 {
            canonical_body_bytes(template.cb, body).len() as u64
        } else {
            0
        },
        ..template
    }
}

/// The bytes that are signed: the canonical forms of the signed headers, the
/// last header of the message first, then the header of `unsigned` as it is
/// signed.
pub open spec fn signable_bytes(
    template: SignatureView,
    headers: Seq<(Seq<u8>, Seq<u8>)>,
    unsigned: SignatureView,
) -> Seq<u8> {
    canonical_header_bytes(
        template.ch,
        selected(requested_bytes(template.h), headers).reverse(),
    ) + signature_bytes(unsigned, false)
}

/// What signing a message with `key` at the time `now` can come to.
///
/// A message that holds none of the requested headers gives
/// `NoHeadersFound`. Otherwise every tag but `b=` is determined, and `b=` is
/// the base64 text of a signature that the key gives for the signable bytes.
/// Signing fails where the key refuses the signable bytes, with the key's
/// text, and where the digest or the signature is too long for base64.
pub open spec fn sign_outcome<K: SigningKey>(
    key: K,
    template: SignatureView,
    headers: Seq<(Seq<u8>, Seq<u8>)>,
    body: Seq<u8>,
    now: u64,
    r: Result<Signature, Error>,
) -> bool {
    if selected(requested_bytes(template.h), headers).len() == 0 {
        r == Err::<Signature, Error>(Error::NoHeadersFound)
    } else {
        match base64_result(digest_of::<K::Hasher>(canonical_body_bytes(template.cb, body))) {
            Err(e) => r == Err::<Signature, Error>(e),
            Ok(bh) => {
                let unsigned = unsigned_record(template, headers, body, now, bh);
                match r {
                    Ok(sig) => {
                        &&& sig@ == (SignatureView { b: sig@.b, ..unsigned })
                        &&& is_ascii_bytes(sig@.bh)
                        &&& is_ascii_bytes(sig@.b)
                        &&& sig@.bh.len() > 0
                        &&& exists|s: Seq<u8>|
                            key.signs(signable_bytes(template, headers, unsigned), s)
                                && base64_result(s) == Ok::<Seq<u8>, Error>(sig@.b)
                                && sig@.b.len() == base64_len(s.len())
                    },
                    Err(e) => {
                        ||| e matches Error::CryptoError(text) && key.refuses(
                            signable_bytes(template, headers, unsigned),
                            text@,
                        )
                        ||| e == Error::Base64 && exists|s: Seq<u8>|
                            key.signs(signable_bytes(template, headers, unsigned), s)
                                && !base64_encodable(s.len())
                    },
                }
            },
        }
    }
}

impl Signature {
    /// The record of a signature as it is signed: this record with the names
    /// of the signed headers, the hash of the body in base64, the time, and
    /// the length of the canonical body where a length is recorded. The `b=`
    /// tag is empty.
    pub fn unsigned(
        &self,
        signed_headers: Vec<String>,
        body_hash: &[u8],
        body_len: usize,
        now: u64,
    ) -> (r: Result<Signature, Error>)
        ensures
            match r {
                Ok(sig) => {
                    &&& base64_result(body_hash@) == Ok::<Seq<u8>, Error>(sig@.bh)
                    &&& is_ascii_bytes(sig@.bh)
                    &&& sig@.bh.len() == base64_len(body_hash@.len())
                    &&& sig@ == (SignatureView {
                        b: Seq::empty(),
                        bh: sig@.bh,
                        t: now,
                        h: texts(signed_headers@),
                        l: if self.l > 0 {
                            body_len as u64
                        } else {
                            0
                        },
                        ..self@
                    })
                },
                Err(e) => base64_result(body_hash@) == Err::<Seq<u8>, Error>(e),
            },
    {
        match base64_encode(body_hash) {
            Ok(bh) => Ok(
                Signature {
                    v: self.v,
                    a: self.a,
                    d: self.d.clone(),
                    s: self.s.clone(),
                    b: Vec::new(),
                    bh,
                    h: signed_headers,
                    l: if self.l > 0 {
                        body_len as u64
                    } else {
                        0
                    },
                    t: now,
                    ch: self.ch,
                    cb: self.cb,
                },
            ),
            Err(e) => Err(e),
        }
    }

    /// Completes the record with what the key returned: the signature in
    /// base64 becomes the `b=` tag, a failure is handed on.
    pub fn seal(self, signed: Result<Vec<u8>, Error>) -> (r: Result<Signature, Error>)
        ensures
            match signed {
                Ok(signature) => match base64_result(signature@) {
                    Ok(b) => r matches Ok(sig) && sig@ == (SignatureView { b, ..self@ })
                        && is_ascii_bytes(b) && b.len() == base64_len(signature@.len()),
                    Err(e) => r == Err::<Signature, Error>(e),
                },
                Err(e) => r == Err::<Signature, Error>(e),
            },
    {
        match signed {
            Ok(signature) => match base64_encode(signature.as_slice()) {
                Ok(b) => {
                    let mut sig = self;
                    sig.b = b;
                    Ok(sig)
                },
                Err(e) => Err(e),
            },
            Err(e) => Err(e),
        }
    }
}

impl<T: SigningKey> DkimSigner<T, Done> {
    /// Signs `message` at the current time.
    pub fn sign(&self, message: &[u8]) -> (r: Result<Signature, Error>)
        ensures
            exists|now: u64|
                sign_outcome(
                    self.key(),
                    self.template(),
                    headers_of(message@),
                    body_of(message@),
                    now,
                    r,
                ),
    {
        let now = unix_time_now();
        let r = self.sign_stream(HeaderIterator::new(message), now);
        assert(sign_outcome(
            self.key(),
            self.template(),
            headers_of(message@),
            body_of(message@),
            now,
            r,
        ));
        r
    }

    /// Signs the message that `message` reads, as of the time `now`.
    pub fn sign_stream<'x, M: HeaderStream<'x>>(&self, message: M, now: u64) -> (r: Result<
        Signature,
        Error,
    >)
        ensures
            sign_outcome(
                self.key(),
                self.template(),
                message.pending(),
                message.rest(),
                now,
                r,
            ),
    {
        let (body_len, canonical_headers, signed_headers, canonical_body) =
            self.template.canonicalize(message);
        if canonical_headers.len() == 0 {
            return Err(Error::NoHeadersFound);
        }
        let body_hash = self.key.hash(canonical_body);
        proof {
            body_hash.lemma_len();
        }
        let unsigned = match self.template.unsigned(
            signed_headers,
            body_hash.as_ref(),
            body_len,
            now,
        ) {
            Ok(unsigned) => unsigned,
            Err(e) => {
                return Err(e);
            },
        };
        let signed = self.key.sign(SignableMessage::new(canonical_headers, &unsigned));
        let r = unsigned.seal(signed);
        proof {
            if signed is Ok {
                assert(self.key.signs(
                    signable_bytes(self.template(), message.pending(), unsigned@),
                    signed->Ok_0@,
                ));
            }
        }
        r
    }
}

/// A signature without what depends on the time of signing and on the
/// signing primitive: the `b=` tag is empty and the time is 0.
pub open spec fn stripped(sig: SignatureView) -> SignatureView {
    SignatureView { b: Seq::empty(), t: 0, ..sig }
}

/// Two signatures of one message by one signer differ at most in the time
/// and in the signature itself: as header lines without these two tags they
/// are the same text.
pub proof fn lemma_signing_is_deterministic<K: SigningKey>(
    key: K,
    template: SignatureView,
    headers: Seq<(Seq<u8>, Seq<u8>)>,
    body: Seq<u8>,
    first_time: u64,
    first: Signature,
    second_time: u64,
    second: Signature,
)
    requires
        sign_outcome(key, template, headers, body, first_time, Ok(first)),
        sign_outcome(key, template, headers, body, second_time, Ok(second)),
    ensures
        stripped(first@) == stripped(second@),
        signature_bytes(stripped(first@), true) == signature_bytes(stripped(second@), true),
{
}

/// A message that holds a requested header is not refused for want of
/// headers, and one that holds none is.
pub proof fn lemma_no_headers_found<K: SigningKey>(
    key: K,
    template: SignatureView,
    headers: Seq<(Seq<u8>, Seq<u8>)>,
    body: Seq<u8>,
    now: u64,
    r: Result<Signature, Error>,
)
    requires
        sign_outcome(key, template, headers, body, now, r),
    ensures
        r == Err::<Signature, Error>(Error::NoHeadersFound) <==> forall|i: int|
            0 <= i < headers.len() ==> !is_requested(
                requested_bytes(template.h),
                #[trigger] headers[i].0,
            ),
{
    lemma_nothing_selected(requested_bytes(template.h), headers);
}

/// Whether two outcomes of signing are the same: the same record, or the
/// same failure with the same text.
pub open spec fn same_outcome(
    first: Result<Signature, Error>,
    second: Result<Signature, Error>,
) -> bool {
    match (first, second) {
        (Ok(a), Ok(b)) => a@ == b@,
        (Err(Error::NoHeadersFound), Err(Error::NoHeadersFound)) => true,
        (Err(Error::CryptoError(a)), Err(Error::CryptoError(b))) => a@ == b@,
        (Err(Error::Base64), Err(Error::Base64)) => true,
        _ => false,
    }
}

/// With an RSA key, signing one message at one time has one outcome: signing
/// again gives the same record, `b=` included, or fails again in the same
/// way and with the same text.
pub proof fn lemma_rsa_signing_is_repeatable(
    key: RsaKey<Sha256>,
    template: SignatureView,
    headers: Seq<(Seq<u8>, Seq<u8>)>,
    body: Seq<u8>,
    now: u64,
    first: Result<Signature, Error>,
    second: Result<Signature, Error>,
)
    requires
        sign_outcome(key, template, headers, body, now, first),
        sign_outcome(key, template, headers, body, now, second),
    ensures
        same_outcome(first, second),
{
}

/// The bytes that are signed for a message at the time `now`, where the
/// digest of the body is short enough for base64.
pub open spec fn signed_bytes<K: SigningKey>(
    template: SignatureView,
    headers: Seq<(Seq<u8>, Seq<u8>)>,
    body: Seq<u8>,
    now: u64,
) -> Seq<u8> {
    signable_bytes(
        template,
        headers,
        unsigned_record(
            template,
            headers,
            body,
            now,
            base64_standard(digest_of::<K::Hasher>(canonical_body_bytes(template.cb, body))),
        ),
    )
}

/// Signing succeeds where the key does: a message that holds a requested
/// header is signed if the key does not refuse the bytes to sign and neither
/// the digest of the body nor the signature is too long for base64.
pub proof fn lemma_signing_succeeds<K: SigningKey>(
    key: K,
    template: SignatureView,
    headers: Seq<(Seq<u8>, Seq<u8>)>,
    body: Seq<u8>,
    now: u64,
    r: Result<Signature, Error>,
)
    requires
        sign_outcome(key, template, headers, body, now, r),
        selected(requested_bytes(template.h), headers).len() > 0,
        base64_encodable(digest_of::<K::Hasher>(canonical_body_bytes(template.cb, body)).len()),
        forall|text: Seq<char>|
            !#[trigger] key.refuses(signed_bytes::<K>(template, headers, body, now), text),
        forall|s: Seq<u8>|
            #[trigger] key.signs(signed_bytes::<K>(template, headers, body, now), s)
                ==> base64_encodable(s.len()),
    ensures
        r is Ok,
{
    let signed = signed_bytes::<K>(template, headers, body, now);
    match r {
        Ok(sig) => {},
        Err(Error::CryptoError(text)) => {
            assert(key.refuses(signed, text@));
        },
        Err(Error::Base64) => {
            let s = choose|s: Seq<u8>| key.signs(signed, s) && !base64_encodable(s.len());
            assert(key.signs(signed, s));
        },
        Err(Error::NoHeadersFound) => {},
    }
}

/// A signature that was made names at least one header and holds a body
/// hash. Its `b=` tag is not empty where the key gives no empty signature.
pub proof fn lemma_signature_is_filled<K: SigningKey>(
    key: K,
    template: SignatureView,
    headers: Seq<(Seq<u8>, Seq<u8>)>,
    body: Seq<u8>,
    now: u64,
    sig: Signature,
)
    requires
        sign_outcome(key, template, headers, body, now, Ok(sig)),
    ensures
        sig@.h.len() > 0,
        sig@.bh.len() > 0,
        (forall|data: Seq<u8>, s: Seq<u8>| #[trigger] key.signs(data, s) ==> s.len() > 0)
            ==> sig@.b.len() > 0,
{
    let chosen = selected(requested_bytes(template.h), headers);
    assert(names_of(chosen).reverse().len() == chosen.len());
    if forall|data: Seq<u8>, s: Seq<u8>| #[trigger] key.signs(data, s) ==> s.len() > 0 {
        let bh = base64_standard(
            digest_of::<K::Hasher>(canonical_body_bytes(template.cb, body)),
        );
        let signable = signable_bytes(
            template,
            headers,
            unsigned_record(template, headers, body, now, bh),
        );
        let s = choose|s: Seq<u8>|
            key.signs(signable, s) && base64_result(s) == Ok::<Seq<u8>, Error>(sig@.b)
                && sig@.b.len() == base64_len(s.len());
        assert(key.signs(signable, s));
    }
}

/// A signature that an RSA key has made is filled: it names a header, and
/// neither its body hash nor its `b=` tag is empty.
pub proof fn lemma_rsa_signature_is_filled(
    key: RsaKey<Sha256>,
    template: SignatureView,
    headers: Seq<(Seq<u8>, Seq<u8>)>,
    body: Seq<u8>,
    now: u64,
    sig: Signature,
)
    requires
        sign_outcome(key, template, headers, body, now, Ok(sig)),
    ensures
        sig@.h.len() > 0,
        sig@.bh.len() > 0,
        sig@.b.len() > 0,
{
    lemma_signature_is_filled(key, template, headers, body, now, sig);
}

} // verus!
