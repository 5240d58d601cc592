//! The signature record, its canonical forms, and the signer that fills it.

use vstd::prelude::*;
use std::marker::PhantomData;
use crate::common::crypto::{Algorithm, SigningKey};

pub mod builder;
pub mod canonicalize;
pub mod headers;
pub mod sign;

verus! {

/// How headers or a body are normalised before they are hashed.
#[derive(Debug, Clone, Copy, PartialEq, Eq, Structural)]
pub enum Canonicalization {
    /// Whitespace is collapsed and header names are put in lower case.
    Relaxed,
    /// Headers are taken as they are; the body only loses its empty last lines.
    Simple,
}

impl Default for Canonicalization {
    fn default() -> (c: Self)
        ensures
            c == Canonicalization::Relaxed,
    {
        Canonicalization::Relaxed
    }
}

/// A DKIM signature: the tags of a `DKIM-Signature` header.
#[derive(Debug, PartialEq, Eq, Clone)]
pub struct Signature {
    /// Version.
    pub v: u32,
    /// Signature algorithm.
    pub a: Algorithm,
    /// Signing domain.
    pub d: String,
    /// Selector.
    pub s: String,
    /// The signature, in base64.
    pub b: Vec<u8>,
    /// The hash of the canonical body, in base64.
    pub bh: Vec<u8>,
    /// The names of the signed headers.
    pub h: Vec<String>,
    /// The number of body bytes that the body hash covers; 0 for all of them.
    pub l: u64,
    /// The time of signing, in seconds since the epoch.
    pub t: u64,
    /// Canonicalization of the headers.
    pub ch: Canonicalization,
    /// Canonicalization of the body.
    pub cb: Canonicalization,
}

/// A signature as plain values.
pub struct SignatureView {
    pub v: u32,
    pub a: Algorithm,
    pub d: Seq<char>,
    pub s: Seq<char>,
    pub b: Seq<u8>,
    pub bh: Seq<u8>,
    pub h: Seq<Seq<char>>,
    pub l: u64,
    pub t: u64,
    pub ch: Canonicalization,
    pub cb: Canonicalization,
}

/// The texts of a list of strings.
pub open spec fn texts(names: Seq<String>) -> Seq<Seq<char>> {
    Seq::new(names.len(), |i: int| names[i]@)
}

impl View for Signature {
    type V = SignatureView;

    open spec fn view(&self) -> SignatureView {
        SignatureView {
            v: self.v,
            a: self.a,
            d: self.d@,
            s: self.s@,
            b: self.b@,
            bh: self.bh@,
            h: texts(self.h@),
            l: self.l,
            t: self.t,
            ch: self.ch,
            cb: self.cb,
        }
    }
}

impl SignatureView {
    /// The record that `Signature::default` builds.
    pub open spec fn empty() -> SignatureView {
        SignatureView {
            v: 0,
            a: Algorithm::RsaSha256,
            d: Seq::empty(),
            s: Seq::empty(),
            b: Seq::empty(),
            bh: Seq::empty(),
            h: Seq::empty(),
            l: 0,
            t: 0,
            ch: Canonicalization::Relaxed,
            cb: Canonicalization::Relaxed,
        }
    }
}

impl Default for Signature {
    fn default() -> (sig: Self)
        ensures
            sig@ == SignatureView::empty(),
    {
        let sig = Signature {
            v: 0,
            a: Algorithm::RsaSha256,
            d: String::new(),
            s: String::new(),
            b: Vec::new(),
            bh: Vec::new(),
            h: Vec::new(),
            l: 0,
            t: 0,
            ch: Canonicalization::Relaxed,
            cb: Canonicalization::Relaxed,
        };
        assert(sig@.h =~= Seq::empty());
        sig
    }
}

/// Stage of a signer that still lacks its domain.
pub struct NeedDomain;

/// Stage of a signer that still lacks its selector.
pub struct NeedSelector;

/// Stage of a signer that still lacks the list of headers to sign.
pub struct NeedHeaders;

/// Stage of a signer that can sign.
pub struct Done;

/// A signer under construction or ready to sign, as its stage says. Only a
/// signer whose stage is `Done` can sign.
pub struct DkimSigner<T: SigningKey, State = NeedDomain> {
    pub(crate) _state: PhantomData<State>,
    pub(crate) key: T,
    pub(crate) template: Signature,
}

impl<T: SigningKey, State> DkimSigner<T, State> {
    /// The record that signatures start from.
    pub closed spec fn template(&self) -> SignatureView {
        self.template@
    }

    /// The key that signs.
    pub closed spec fn key(&self) -> T {
        self.key
    }
}

} // verus!
