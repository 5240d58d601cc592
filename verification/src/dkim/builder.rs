//! Building a signer, stage by stage: key, domain, selector, headers.

use vstd::prelude::*;
use std::marker::PhantomData;
use crate::common::crypto::SigningKey;
use crate::dkim::{
    texts, Canonicalization, DkimSigner, Done, NeedDomain, NeedHeaders, NeedSelector, Signature,
    SignatureView,
};

verus! {

/// The texts of a list of string slices.
pub open spec fn str_texts(names: Seq<&str>) -> Seq<Seq<char>> {
    Seq::new(names.len(), |i: int| names[i]@)
}

impl<T: SigningKey> DkimSigner<T> {
    /// A signer that signs with `key`. Its record names version 1 and the
    /// key's algorithm, and is empty otherwise.
    pub fn from_key(key: T) -> (signer: DkimSigner<T, NeedDomain>)
        ensures
            signer.key() == key,
            signer.template() == (SignatureView {
                v: 1,
                a: key.algorithm_tag(),
                ..SignatureView::empty()
            }),
    {
        let mut template = Signature::default();
        template.v = 1;
        template.a = key.algorithm();
        DkimSigner { _state: PhantomData, template, key }
    }
}

impl<T: SigningKey> DkimSigner<T, NeedDomain> {
    /// Sets the signing domain.
    pub fn domain(self, domain: &str) -> (signer: DkimSigner<T, NeedSelector>)
        ensures
            signer.key() == self.key(),
            signer.template() == (SignatureView { d: domain@, ..self.template() }),
    {
        let mut template = self.template;
        template.d = domain.to_owned();
        DkimSigner { _state: PhantomData, key: self.key, template }
    }
}

impl<T: SigningKey> DkimSigner<T, NeedSelector> {
    /// Sets the selector.
    pub fn selector(self, selector: &str) -> (signer: DkimSigner<T, NeedHeaders>)
        ensures
            signer.key() == self.key(),
            signer.template() == (SignatureView { s: selector@, ..self.template() }),
    {
        let mut template = self.template;
        template.s = selector.to_owned();
        DkimSigner { _state: PhantomData, key: self.key, template }
    }
}

impl<T: SigningKey> DkimSigner<T, NeedHeaders> {
    /// Sets the names of the headers to sign. A name may be listed more than
    /// once.
    pub fn headers(self, headers: &[&str]) -> (signer: DkimSigner<T, Done>)
        ensures
            signer.key() == self.key(),
            signer.template() == (SignatureView { h: str_texts(headers@), ..self.template() }),
    {
        let mut names: Vec<String> = Vec::new();
        let mut i: usize = 0;
        while i < headers.len()
            invariant
                i <= headers.len(),
                texts(names@) == str_texts(headers@.take(i as int)),
            decreases headers.len() - i,
        {
            let ghost before = texts(names@);
            names.push(headers[i].to_owned());
            i += 1;
            assert(str_texts(headers@.take(i as int)) =~= before.push(headers@[i - 1]@));
        }
        assert(headers@.take(headers.len() as int) =~= headers@);
        let mut template = self.template;
        template.h = names;
        DkimSigner { _state: PhantomData, key: self.key, template }
    }
}

impl<T: SigningKey> DkimSigner<T, Done> {
    /// Chooses whether the signature records the length of the canonical
    /// body.
    pub fn body_length(self, body_length: bool) -> (signer: Self)
        ensures
            signer.key() == self.key(),
            signer.template() == (SignatureView {
                l: if body_length {
                    1
                } else {
                    0
                },
                ..self.template()
            }),
    {
        let mut template = self.template;
        template.l = if body_length {
            1
        } else {
            0
        };
        DkimSigner { _state: PhantomData, key: self.key, template }
    }

    /// Sets the canonicalization of the headers.
    pub fn header_canonicalization(self, ch: Canonicalization) -> (signer: Self)
        ensures
            signer.key() == self.key(),
            signer.template() == (SignatureView { ch, ..self.template() }),
    {
        let mut template = self.template;
        template.ch = ch;
        DkimSigner { _state: PhantomData, key: self.key, template }
    }

    /// Sets the canonicalization of the body.
    pub fn body_canonicalization(self, cb: Canonicalization) -> (signer: Self)
        ensures
            signer.key() == self.key(),
            signer.template() == (SignatureView { cb, ..self.template() }),
    {
        let mut template = self.template;
        template.cb = cb;
        DkimSigner { _state: PhantomData, key: self.key, template }
    }
}

} // verus!
