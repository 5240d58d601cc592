//! Text encodings: UTF-8, decimal numbers and base64.

use vstd::prelude::*;
use vstd::utf8::{encode_utf8, valid_utf8, valid_utf8_concat};
use base64::Engine;
use crate::Error;

verus! {

/// The bytes of a text.
pub open spec fn lit(text: &str) -> Seq<u8> {
    encode_utf8(text@)
}

/// Every byte is an ASCII character.
pub open spec fn is_ascii_bytes(bytes: Seq<u8>) -> bool {
    forall|i: int| 0 <= i < bytes.len() ==> #[trigger] bytes[i] < 128
}

/// Reads bytes as UTF-8 text.
///
/// Trusted: calls `std::str::from_utf8`. The text is returned exactly when the
/// bytes are well-formed UTF-8, and its encoding is then those bytes.
#[verifier::external_body]
pub(crate) fn str_from_utf8<'a>(bytes: &'a [u8]) -> (r: Option<&'a str>)
    ensures
        r is Some <==> valid_utf8(bytes@),
        r matches Some(s) ==> encode_utf8(s@) == bytes@,
{
    std::str::from_utf8(bytes).ok()
}

/// A single ASCII byte is well-formed UTF-8.
pub proof fn lemma_ascii_byte_is_utf8(b: u8)
    requires
        b < 128,
    ensures
        valid_utf8(seq![b]),
{
    assert(valid_utf8(vstd::utf8::pop_first_scalar(seq![b])));
}

/// ASCII bytes are well-formed UTF-8.
pub proof fn lemma_ascii_is_utf8(bytes: Seq<u8>)
    requires
        is_ascii_bytes(bytes),
    ensures
        valid_utf8(bytes),
    decreases bytes.len(),
{
    if bytes.len() > 0 {
        lemma_ascii_is_utf8(bytes.drop_last());
        lemma_ascii_byte_is_utf8(bytes.last());
        valid_utf8_concat(bytes.drop_last(), seq![bytes.last()]);
        assert(bytes.drop_last() + seq![bytes.last()] =~= bytes);
    }
}

/// The decimal digits of `n`, without leading zeros.
pub open spec fn decimal(n: nat) -> Seq<u8>
    decreases n,
{
    if n < 10 {
        seq![(48 + n) as u8]
    } else {
        decimal(n / 10).push((48 + n % 10) as u8)
    }
}

/// Decimal digits are ASCII.
pub proof fn lemma_decimal_is_ascii(n: nat)
    ensures
        is_ascii_bytes(decimal(n)),
        decimal(n).len() > 0,
    decreases n,
{
    if n >= 10 {
        lemma_decimal_is_ascii(n / 10);
    }
}

/// Appends the decimal digits of `n` to `out`.
pub fn push_decimal(n: u64, out: &mut Vec<u8>)
    ensures
        final(out)@ == old(out)@ + decimal(n as nat),
    decreases n,
{
    if n >= 10 {
        push_decimal(n / 10, out);
    }
    let digit: u8 = 48 + (n % 10) as u8;
    out.push(digit);
}

/// The base64 text of `data`, in the standard alphabet and with padding, as
/// the `base64` crate writes it.
pub uninterp spec fn base64_standard(data: Seq<u8>) -> Seq<u8>;

/// Whether data of `len` bytes is short enough to be encoded: the length of
/// its base64 text must be a length that a buffer can have.
pub open spec fn base64_encodable(len: nat) -> bool {
    len / 3 < usize::MAX / 8
}

/// The length of the base64 text of `len` bytes: four characters for every
/// three bytes, the last group filled up with padding.
pub open spec fn base64_len(len: nat) -> nat {
    (len + 2) / 3 * 4
}

/// Encodes `data` as base64.
///
/// Trusted: calls `encode` of `base64::engine::general_purpose::STANDARD`.
/// The result is the base64 text of exactly the bytes given; it is made of
/// ASCII characters, four for every three bytes begun. The call panics where
/// the length of the text overflows; the bound on the input keeps that length
/// under half of `usize::MAX`.
#[verifier::external_body]
fn base64_standard_encode(data: &[u8]) -> (out: Vec<u8>)
    requires
        base64_encodable(data@.len()),
    ensures
        out@ == base64_standard(data@),
        is_ascii_bytes(out@),
        out@.len() == base64_len(data@.len()),
{
    base64::engine::general_purpose::STANDARD.encode(data).into_bytes()
}

/// What `base64_encode` returns for `data`: its base64 text, or
/// `Error::Base64` where the data is too long to be encoded.
pub open spec fn base64_result(data: Seq<u8>) -> Result<Seq<u8>, Error> {
    if base64_encodable(data.len()) {
        Ok(base64_standard(data))
    } else {
        Err(Error::Base64)
    }
}

/// Encodes `data` as base64, in the standard alphabet and with padding.
pub fn base64_encode(data: &[u8]) -> (r: Result<Vec<u8>, Error>)
    ensures
        match r {
            Ok(out) => {
                &&& base64_result(data@) == Ok::<Seq<u8>, Error>(out@)
                &&& is_ascii_bytes(out@)
                &&& out@.len() == base64_len(data@.len())
            },
            Err(e) => base64_result(data@) == Err::<Seq<u8>, Error>(e),
        },
{
    if data.len() / 3 < usize::MAX / 8 {
        Ok(base64_standard_encode(data))
    } else {
        Err(Error::Base64)
    }
}

} // verus!
