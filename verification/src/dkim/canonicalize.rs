//! The canonical forms of headers and of the body, and the choice of the
//! headers that are signed.

use vstd::prelude::*;
use vstd::slice::slice_subrange;
use vstd::utf8::{decode_utf8, encode_utf8, encode_utf8_decode_utf8, encode_utf8_valid_utf8};
use crate::common::bytes::{
    byte_is_whitespace, byte_is_wsp, byte_to_lower, eq_ignore_ascii_case, eq_ignore_case,
    is_whitespace, is_wsp, lemma_case_match_keeps_utf8, to_lower, COLON, CR, LF, SP,
};
use crate::common::encoding::{lit, str_from_utf8};
use crate::common::headers::{HeaderStream, Writable, Writer};
use crate::dkim::{texts, Canonicalization, Signature};

verus! {

/// The line terminator of canonical text.
pub open spec fn crlf() -> Seq<u8> {
    seq![CR, LF]
}

/// `n` line terminators in a row.
pub open spec fn crlf_run(n: nat) -> Seq<u8>
    decreases n,
{
    if n == 0 {
        Seq::empty()
    } else {
        crlf_run((n - 1) as nat) + crlf()
    }
}

/// What reading a body has come to: the canonical bytes that are certain, the
/// line ends seen since and not yet known to be followed by text, and whether
/// a run of spaces and tabs waits to be closed by text.
pub struct BodyScan {
    pub out: Seq<u8>,
    pub lines: nat,
    pub space: bool,
}

/// The scan before the first byte.
pub open spec fn body_scan_start() -> BodyScan {
    BodyScan { out: Seq::empty(), lines: 0, space: false }
}

/// The scan after one more byte.
///
/// A line feed ends a line and drops the spaces before it; a carriage return
/// is dropped. Under `Relaxed` a space or tab is held back. Any other byte is
/// text: the line ends held back come out before it, then one space where
/// spaces were held back, then the byte.
pub open spec fn body_step(mode: Canonicalization, s: BodyScan, ch: u8) -> BodyScan {
    if ch == LF {
        BodyScan { out: s.out, lines: s.lines + 1, space: false }
    } else if ch == CR {
        BodyScan { out: s.out, lines: s.lines, space: false }
    } else if mode == Canonicalization::Relaxed && is_wsp(ch) {
        BodyScan { out: s.out, lines: s.lines, space: true }
    } else {
        BodyScan {
            out: s.out + crlf_run(s.lines) + (if s.space {
                seq![SP]
            } else {
                Seq::empty()
            }) + seq![ch],
            lines: 0,
            space: false,
        }
    }
}

/// The scan that starts as `s` and reads `body`.
pub open spec fn body_scan_from(mode: Canonicalization, s: BodyScan, body: Seq<u8>) -> BodyScan
    decreases body.len(),
{
    if body.len() == 0 {
        s
    } else {
        body_step(mode, body_scan_from(mode, s, body.drop_last()), body.last())
    }
}

/// The scan of a whole body.
pub open spec fn body_scan(mode: Canonicalization, body: Seq<u8>) -> BodyScan {
    body_scan_from(mode, body_scan_start(), body)
}

/// The canonical form of a body: its text with every line terminated by
/// CRLF and without the empty lines at its end; nothing for a body without
/// text.
pub open spec fn canonical_body_bytes(mode: Canonicalization, body: Seq<u8>) -> Seq<u8> {
    let out = body_scan(mode, body).out;
    if out.len() > 0 {
        out + crlf()
    } else {
        out
    }
}

/// The relaxed form of a header name: no whitespace, small letters.
pub open spec fn relaxed_name(name: Seq<u8>) -> Seq<u8>
    decreases name.len(),
{
    if name.len() == 0 {
        Seq::empty()
    } else if is_whitespace(name.last()) {
        relaxed_name(name.drop_last())
    } else {
        relaxed_name(name.drop_last()).push(to_lower(name.last()))
    }
}

/// The text of a header value in relaxed form: whitespace at its ends is
/// gone, and a run of whitespace inside it that ends in a space or tab is one
/// space.
pub open spec fn relaxed_value_text(value: Seq<u8>) -> Seq<u8>
    decreases value.len(),
{
    if value.len() == 0 {
        Seq::empty()
    } else {
        let before = relaxed_value_text(value.drop_last());
        if is_whitespace(value.last()) {
            before
        } else if value.len() >= 2 && is_wsp(value[value.len() - 2]) && before.len() > 0 {
            before + seq![SP] + seq![value.last()]
        } else {
            before + seq![value.last()]
        }
    }
}

/// The relaxed form of a header value: its text, and CRLF if the value ends
/// in a line feed.
pub open spec fn relaxed_value(value: Seq<u8>) -> Seq<u8> {
    if value.len() > 0 && value.last() == LF {
        relaxed_value_text(value) + crlf()
    } else {
        relaxed_value_text(value)
    }
}

/// The canonical form of one header.
pub open spec fn canonical_header(mode: Canonicalization, name: Seq<u8>, value: Seq<u8>) -> Seq<
    u8,
> {
    match mode {
        Canonicalization::Simple => name + seq![COLON] + value,
        Canonicalization::Relaxed => relaxed_name(name) + seq![COLON] + relaxed_value(value),
    }
}

/// The canonical forms of `headers`, one after the other.
pub open spec fn canonical_header_bytes(
    mode: Canonicalization,
    headers: Seq<(Seq<u8>, Seq<u8>)>,
) -> Seq<u8>
    decreases headers.len(),
{
    if headers.len() == 0 {
        Seq::empty()
    } else {
        canonical_header_bytes(mode, headers.drop_last()) + canonical_header(
            mode,
            headers.last().0,
            headers.last().1,
        )
    }
}

/// The name of a canonicalization, as the `c=` tag spells it.
pub open spec fn mode_name(mode: Canonicalization) -> Seq<u8> {
    match mode {
        Canonicalization::Relaxed => lit("relaxed"),
        Canonicalization::Simple => lit("simple"),
    }
}

/// Headers held as slices, as plain values.
pub open spec fn pairs_view(headers: Seq<(&[u8], &[u8])>) -> Seq<(Seq<u8>, Seq<u8>)> {
    Seq::new(headers.len(), |i: int| (headers[i].0@, headers[i].1@))
}

/// Writes `n` line terminators.
fn write_crlf_run<W: Writer>(writer: &mut W, n: usize)
    ensures
        final(writer).written() == old(writer).written() + crlf_run(n as nat),
{
    let nl: [u8; 2] = [CR, LF];
    let mut k: usize = 0;
    while k < n
        invariant
            k <= n,
            nl@ == crlf(),
            writer.written() == old(writer).written() + crlf_run(k as nat),
        decreases n - k,
    {
        writer.write(nl.as_slice());
        k += 1;
    }
}

/// A body together with the way it is canonicalized.
#[derive(Clone, Copy)]
pub struct CanonicalBody<'a> {
    canonicalization: Canonicalization,
    body: &'a [u8],
}

impl<'a> CanonicalBody<'a> {
    /// The way the body is canonicalized.
    pub closed spec fn mode(&self) -> Canonicalization {
        self.canonicalization
    }

    /// The body as it stands in the message.
    pub closed spec fn raw(&self) -> Seq<u8> {
        self.body@
    }
}

impl Writable for CanonicalBody<'_> {
    open spec fn bytes(&self) -> Seq<u8> {
        canonical_body_bytes(self.mode(), self.raw())
    }

    fn write<W: Writer>(self, hasher: &mut W) {
        let body = self.body;
        let mode = self.canonicalization;
        let relaxed = match mode {
            Canonicalization::Relaxed => true,
            Canonicalization::Simple => false,
        };
        let sp: [u8; 1] = [SP];
        let mut crlf_seq: usize = 0;
        let mut space = false;
        let mut is_empty = true;
        let mut i: usize = 0;
        while i < body.len()
            invariant
                i <= body.len(),
                relaxed == (mode == Canonicalization::Relaxed),
                sp@ == seq![SP],
                crlf_seq <= i,
                crlf_seq == body_scan(mode, body@.take(i as int)).lines,
                space == body_scan(mode, body@.take(i as int)).space,
                is_empty == (body_scan(mode, body@.take(i as int)).out.len() == 0),
                hasher.written() == old(hasher).written() + body_scan(
                    mode,
                    body@.take(i as int),
                ).out,
            decreases body.len() - i,
        {
            let ch = body[i];
            let ghost before = body_scan(mode, body@.take(i as int));
            assert(body@.take(i + 1).drop_last() =~= body@.take(i as int));
            if ch == LF {
                crlf_seq += 1;
                space = false;
            } else if ch == CR {
                space = false;
            } else if relaxed && byte_is_wsp(ch) {
                space = true;
            } else {
                write_crlf_run(hasher, crlf_seq);
                crlf_seq = 0;
                if space {
                    hasher.write(sp.as_slice());
                }
                let one: [u8; 1] = [ch];
                hasher.write(one.as_slice());
                space = false;
                is_empty = false;
                assert(hasher.written() =~= old(hasher).written() + body_step(
                    mode,
                    before,
                    ch,
                ).out);
            }
            i += 1;
        }
        assert(body@.take(body.len() as int) =~= body@);
        if !is_empty {
            let nl: [u8; 2] = [CR, LF];
            hasher.write(nl.as_slice());
        }
    }
}

/// The headers that are signed, together with the way they are
/// canonicalized.
pub struct CanonicalHeaders<'a> {
    canonicalization: Canonicalization,
    headers: Vec<(&'a [u8], &'a [u8])>,
}

impl<'a> CanonicalHeaders<'a> {
    /// The way the headers are canonicalized.
    pub closed spec fn mode(&self) -> Canonicalization {
        self.canonicalization
    }

    /// The headers, in the order in which the message holds them.
    pub closed spec fn headers(&self) -> Seq<(Seq<u8>, Seq<u8>)> {
        pairs_view(self.headers@)
    }
}

impl<'a> CanonicalHeaders<'a> {
    /// The number of headers.
    pub fn len(&self) -> (n: usize)
        ensures
            n == self.headers().len(),
    {
        self.headers.len()
    }
}

impl Writable for CanonicalHeaders<'_> {
    /// The canonical forms of the headers, the last header of the message
    /// first.
    open spec fn bytes(&self) -> Seq<u8> {
        canonical_header_bytes(self.mode(), self.headers().reverse())
    }

    fn write<W: Writer>(self, writer: &mut W) {
        let mode = self.canonicalization;
        let n = self.headers.len();
        let ghost rev = self.headers().reverse();
        let mut k: usize = 0;
        assert(writer.written() =~= old(writer).written() + canonical_header_bytes(
            mode,
            rev.take(0),
        ));
        while k < n
            invariant
                k <= n,
                n == self.headers@.len(),
                mode == self.canonicalization,
                rev == self.headers().reverse(),
                writer.written() == old(writer).written() + canonical_header_bytes(
                    mode,
                    rev.take(k as int),
                ),
            decreases n - k,
        {
            let (name, value) = self.headers[n - 1 - k];
            assert(rev.take(k + 1).drop_last() =~= rev.take(k as int));
            mode.canonicalize_header(name, value, writer);
            k += 1;
            assert(writer.written() =~= old(writer).written() + canonical_header_bytes(
                mode,
                rev.take(k as int),
            ));
        }
        assert(rev.take(n as int) =~= rev);
    }
}

impl Canonicalization {
    /// Writes the canonical form of one header.
    pub fn canonicalize_header<W: Writer>(&self, name: &[u8], value: &[u8], hasher: &mut W)
        ensures
            final(hasher).written() == old(hasher).written() + canonical_header(
                *self,
                name@,
                value@,
            ),
    {
        let colon: [u8; 1] = [COLON];
        match self {
            Canonicalization::Relaxed => {
                let mut i: usize = 0;
                while i < name.len()
                    invariant
                        i <= name.len(),
                        hasher.written() == old(hasher).written() + relaxed_name(
                            name@.take(i as int),
                        ),
                    decreases name.len() - i,
                {
                    let ch = name[i];
                    assert(name@.take(i + 1).drop_last() =~= name@.take(i as int));
                    if !byte_is_whitespace(ch) {
                        let one: [u8; 1] = [byte_to_lower(ch)];
                        hasher.write(one.as_slice());
                        assert(hasher.written() =~= old(hasher).written() + relaxed_name(
                            name@.take(i + 1),
                        ));
                    }
                    i += 1;
                }
                assert(name@.take(name.len() as int) =~= name@);
                hasher.write(colon.as_slice());
                let ghost base = hasher.written();
                let sp: [u8; 1] = [SP];
                let mut bw: usize = 0;
                let mut last_ch: u8 = 0;
                let mut j: usize = 0;
                while j < value.len()
                    invariant
                        j <= value.len(),
                        sp@ == seq![SP],
                        last_ch == if j == 0 {
                            0u8
                        } else {
                            value@[j - 1]
                        },
                        bw == relaxed_value_text(value@.take(j as int)).len(),
                        bw + (if is_whitespace(last_ch) {
                            1int
                        } else {
                            0int
                        }) <= j,
                        hasher.written() == base + relaxed_value_text(value@.take(j as int)),
                    decreases value.len() - j,
                {
                    let ch = value[j];
                    assert(value@.take(j + 1).drop_last() =~= value@.take(j as int));
                    if !byte_is_whitespace(ch) {
                        if byte_is_wsp(last_ch) && bw > 0 {
                            hasher.write_len(sp.as_slice(), &mut bw);
                        }
                        let one: [u8; 1] = [ch];
                        hasher.write_len(one.as_slice(), &mut bw);
                    }
                    last_ch = ch;
                    j += 1;
                }
                assert(value@.take(value.len() as int) =~= value@);
                if last_ch == LF {
                    let nl: [u8; 2] = [CR, LF];
                    hasher.write(nl.as_slice());
                }
                assert(hasher.written() =~= old(hasher).written() + canonical_header(
                    *self,
                    name@,
                    value@,
                ));
            },
            Canonicalization::Simple => {
                hasher.write(name);
                hasher.write(colon.as_slice());
                hasher.write(value);
                assert(hasher.written() =~= old(hasher).written() + canonical_header(
                    *self,
                    name@,
                    value@,
                ));
            },
        }
    }

    /// Writes the canonical forms of `headers`, in the order given.
    pub fn canonicalize_headers<W: Writer>(&self, headers: &[(&[u8], &[u8])], hasher: &mut W)
        ensures
            final(hasher).written() == old(hasher).written() + canonical_header_bytes(
                *self,
                pairs_view(headers@),
            ),
    {
        let ghost all = pairs_view(headers@);
        let mut k: usize = 0;
        assert(hasher.written() =~= old(hasher).written() + canonical_header_bytes(
            *self,
            all.take(0),
        ));
        while k < headers.len()
            invariant
                k <= headers.len(),
                all == pairs_view(headers@),
                hasher.written() == old(hasher).written() + canonical_header_bytes(
                    *self,
                    all.take(k as int),
                ),
            decreases headers.len() - k,
        {
            let (name, value) = headers[k];
            assert(all.take(k + 1).drop_last() =~= all.take(k as int));
            self.canonicalize_header(name, value, hasher);
            k += 1;
            assert(hasher.written() =~= old(hasher).written() + canonical_header_bytes(
                *self,
                all.take(k as int),
            ));
        }
        assert(all.take(headers.len() as int) =~= all);
    }

    /// Writes the name of the canonicalization.
    pub fn serialize_name<W: Writer>(&self, writer: &mut W)
        ensures
            final(writer).written() == old(writer).written() + mode_name(*self),
    {
        match self {
            Canonicalization::Relaxed => writer.write("relaxed".as_bytes()),
            Canonicalization::Simple => writer.write("simple".as_bytes()),
        }
    }

    /// The headers of a message that are signed, to be written in this
    /// canonical form.
    pub fn canonical_headers<'a>(&self, headers: Vec<(&'a [u8], &'a [u8])>) -> (r:
        CanonicalHeaders<'a>)
        ensures
            r.mode() == *self,
            r.headers() == pairs_view(headers@),
    {
        CanonicalHeaders { canonicalization: *self, headers }
    }

    /// The first `l` bytes of `body`, or all of it where `l` is 0 or exceeds
    /// its length, to be written in this canonical form.
    pub fn canonical_body<'a>(&self, body: &'a [u8], l: u64) -> (r: CanonicalBody<'a>)
        ensures
            r.mode() == *self,
            r.raw() == if l == 0 || l >= body@.len() {
                body@
            } else {
                body@.take(l as int)
            },
    {
        let len = body.len();
        if l == 0 || l >= len as u64 {
            CanonicalBody { canonicalization: *self, body }
        } else {
            CanonicalBody { canonicalization: *self, body: slice_subrange(body, 0, l as usize) }
        }
    }
}

/// The requested header names as bytes.
pub open spec fn requested_bytes(names: Seq<Seq<char>>) -> Seq<Seq<u8>> {
    Seq::new(names.len(), |i: int| encode_utf8(names[i]))
}

/// The index of the first requested name that `name` matches without regard
/// to the case of ASCII letters, or the number of requested names if it
/// matches none.
pub open spec fn first_match(requested: Seq<Seq<u8>>, name: Seq<u8>) -> int
    decreases requested.len(),
{
    if requested.len() == 0 {
        0
    } else if eq_ignore_case(name, requested[0]) {
        0
    } else {
        1 + first_match(requested.drop_first(), name)
    }
}

/// Whether a header of this name is signed.
pub open spec fn is_requested(requested: Seq<Seq<u8>>, name: Seq<u8>) -> bool {
    first_match(requested, name) < requested.len()
}

/// The headers that are signed: those whose name is requested, in document
/// order.
pub open spec fn selected(requested: Seq<Seq<u8>>, headers: Seq<(Seq<u8>, Seq<u8>)>) -> Seq<
    (Seq<u8>, Seq<u8>),
>
    decreases headers.len(),
{
    if headers.len() == 0 {
        Seq::empty()
    } else if is_requested(requested, headers.last().0) {
        selected(requested, headers.drop_last()).push(headers.last())
    } else {
        selected(requested, headers.drop_last())
    }
}

/// For each requested name, whether it is the first one that some header
/// matches.
pub open spec fn found(requested: Seq<Seq<u8>>, headers: Seq<(Seq<u8>, Seq<u8>)>) -> Seq<bool>
    decreases headers.len(),
{
    if headers.len() == 0 {
        Seq::new(requested.len(), |j: int| false)
    } else if is_requested(requested, headers.last().0) {
        found(requested, headers.drop_last()).update(
            first_match(requested, headers.last().0),
            true,
        )
    } else {
        found(requested, headers.drop_last())
    }
}

/// The requested names that `found` does not mark, in the order requested.
pub open spec fn absent_names(names: Seq<Seq<char>>, found: Seq<bool>) -> Seq<Seq<char>>
    decreases names.len(),
{
    if names.len() == 0 {
        Seq::empty()
    } else if found[names.len() - 1] {
        absent_names(names.drop_last(), found)
    } else {
        absent_names(names.drop_last(), found).push(names.last())
    }
}

/// The names of headers, as text.
pub open spec fn names_of(headers: Seq<(Seq<u8>, Seq<u8>)>) -> Seq<Seq<char>> {
    Seq::new(headers.len(), |i: int| decode_utf8(headers[i].0))
}

/// The names that a signature records: those of the signed headers as the
/// message spells them, the last header first, then the requested names that
/// no header was found for.
pub open spec fn signed_names(names: Seq<Seq<char>>, headers: Seq<(Seq<u8>, Seq<u8>)>) -> Seq<
    Seq<char>,
> {
    let requested = requested_bytes(names);
    names_of(selected(requested, headers)).reverse() + absent_names(
        names,
        found(requested, headers),
    )
}

/// The position of the first requested name that `name` matches.
fn find_requested(requested: &Vec<String>, name: &[u8]) -> (r: Option<usize>)
    ensures
        match r {
            Some(p) => p < requested@.len() && p == first_match(
                requested_bytes(texts(requested@)),
                name@,
            ),
            None => first_match(requested_bytes(texts(requested@)), name@) == requested@.len(),
        },
{
    let ghost wanted = requested_bytes(texts(requested@));
    let mut j: usize = 0;
    assert(wanted.skip(0) =~= wanted);
    while j < requested.len()
        invariant
            j <= requested.len(),
            wanted == requested_bytes(texts(requested@)),
            first_match(wanted, name@) == j + first_match(wanted.skip(j as int), name@),
        decreases requested.len() - j,
    {
        assert(wanted.skip(j as int).drop_first() =~= wanted.skip(j + 1));
        if eq_ignore_ascii_case(name, requested[j].as_str().as_bytes()) {
            return Some(j);
        }
        j += 1;
    }
    None
}

/// `n` flags, none of them set.
fn no_flags(n: usize) -> (flags: Vec<bool>)
    ensures
        flags@ == Seq::new(n as nat, |j: int| false),
{
    let mut flags: Vec<bool> = Vec::new();
    let mut j: usize = 0;
    while j < n
        invariant
            j <= n,
            flags@ == Seq::new(j as nat, |k: int| false),
        decreases n - j,
    {
        flags.push(false);
        j += 1;
    }
    flags
}

/// The names in `names`, the last one first, followed by the requested names
/// that `found` does not mark.
fn recorded_names(mut names: Vec<String>, requested: &Vec<String>, found: &Vec<bool>) -> (out:
    Vec<String>)
    requires
        found@.len() == requested@.len(),
    ensures
        texts(out@) == texts(names@).reverse() + absent_names(texts(requested@), found@),
{
    let ghost given = texts(names@);
    let mut out: Vec<String> = Vec::new();
    while names.len() > 0
        invariant
            names@.len() + out@.len() == given.len(),
            forall|i: int| 0 <= i < names@.len() ==> (#[trigger] names@[i])@ == given[i],
            forall|i: int|
                0 <= i < out@.len() ==> (#[trigger] out@[i])@ == given[given.len() - 1 - i],
        decreases names.len(),
    {
        let name = names.pop().unwrap();
        out.push(name);
    }
    let ghost wanted = texts(requested@);
    let mut j: usize = 0;
    while j < requested.len()
        invariant
            j <= requested.len(),
            found@.len() == requested@.len(),
            wanted == texts(requested@),
            texts(out@) == given.reverse() + absent_names(wanted.take(j as int), found@),
        decreases requested.len() - j,
    {
        assert(wanted.take(j + 1).drop_last() =~= wanted.take(j as int));
        if !found[j] {
            let ghost before = texts(out@);
            out.push(requested[j].clone());
            assert(texts(out@) =~= before.push(requested@[j as int]@));
        }
        j += 1;
    }
    assert(wanted.take(requested.len() as int) =~= wanted);
    out
}

impl Signature {
    /// Reads the headers of `message` and chooses those that are signed.
    ///
    /// Gives the length of the canonical body; the signed headers, to be
    /// written in the canonical form `ch`; the names that the signature
    /// records; and the body, to be written in the canonical form `cb`.
    pub fn canonicalize<'x, M: HeaderStream<'x>>(&self, mut message: M) -> (r: (
        usize,
        CanonicalHeaders<'x>,
        Vec<String>,
        CanonicalBody<'x>,
    ))
        ensures
            r.0 == canonical_body_bytes(self.cb, message.rest()).len(),
            r.1.mode() == self.ch,
            r.1.headers() == selected(requested_bytes(self@.h), message.pending()),
            texts(r.2@) == signed_names(self@.h, message.pending()),
            r.3.mode() == self.cb,
            r.3.raw() == message.rest(),
    {
        let ghost all = message.pending();
        let ghost body_view = message.rest();
        let ghost wanted = requested_bytes(self@.h);
        let mut headers: Vec<(&'x [u8], &'x [u8])> = Vec::new();
        let mut found_headers = no_flags(self.h.len());
        let mut names: Vec<String> = Vec::new();
        let ghost mut seen: int = 0;
        loop
            invariant_except_break
                0 <= seen <= all.len(),
                message.pending() == all.skip(seen),
            invariant
                0 <= seen <= all.len(),
                message.rest() == body_view,
                wanted == requested_bytes(self@.h),
                self@.h == texts(self.h@),
                found_headers@.len() == self.h@.len(),
                pairs_view(headers@) == selected(wanted, all.take(seen)),
                texts(names@) == names_of(selected(wanted, all.take(seen))),
                found_headers@ == found(wanted, all.take(seen)),
            ensures
                seen == all.len(),
                message.exhausted(),
            decreases all.len() - seen,
        {
            match message.next_header() {
                None => {
                    break ;
                },
                Some((name, value)) => {
                    proof {
                        assert(all.take(seen + 1).drop_last() =~= all.take(seen));
                    }
                    match find_requested(&self.h, name) {
                        Some(pos) => {
                            proof {
                                lemma_first_match_matches(wanted, name@);
                                encode_utf8_valid_utf8(self.h@[pos as int]@);
                                lemma_case_match_keeps_utf8(name@, wanted[pos as int]);
                            }
                            let text = str_from_utf8(name).unwrap().to_owned();
                            proof {
                                encode_utf8_decode_utf8(text@);
                            }
                            let ghost sel = pairs_view(headers@);
                            headers.push((name, value));
                            names.push(text);
                            found_headers.set(pos, true);
                            assert(names_of(sel.push((name@, value@))) =~= names_of(sel).push(
                                decode_utf8(name@),
                            ));
                        },
                        None => {},
                    }
                    proof {
                        seen = seen + 1;
                    }
                },
            }
        }
        assert(all.take(seen) =~= all);
        let body = message.body();
        assert(body@.len() <= u64::MAX) by {
            vstd::slice::axiom_spec_len(body);
        }
        let mut canonical: Vec<u8> = Vec::new();
        self.cb.canonical_body(body, u64::MAX).write(&mut canonical);
        let body_len = canonical.len();
        let canonical_headers = self.ch.canonical_headers(headers);
        let canonical_body = self.cb.canonical_body(body, u64::MAX);
        let signed_headers = recorded_names(names, &self.h, &found_headers);
        (body_len, canonical_headers, signed_headers, canonical_body)
    }
}

/// The index that `first_match` gives, where it lies among the requested
/// names, is that of a name that matches.
pub proof fn lemma_first_match_matches(requested: Seq<Seq<u8>>, name: Seq<u8>)
    ensures
        0 <= first_match(requested, name) <= requested.len(),
        first_match(requested, name) < requested.len() ==> eq_ignore_case(
            name,
            requested[first_match(requested, name)],
        ),
    decreases requested.len(),
{
    if requested.len() > 0 && !eq_ignore_case(name, requested[0]) {
        lemma_first_match_matches(requested.drop_first(), name);
    }
}

/// A header is signed exactly if some requested name matches its name.
pub proof fn lemma_is_requested(requested: Seq<Seq<u8>>, name: Seq<u8>)
    ensures
        is_requested(requested, name) <==> exists|j: int|
            0 <= j < requested.len() && eq_ignore_case(name, #[trigger] requested[j]),
    decreases requested.len(),
{
    lemma_first_match_matches(requested, name);
    if requested.len() > 0 && !eq_ignore_case(name, requested[0]) {
        let rest = requested.drop_first();
        lemma_is_requested(rest, name);
        if is_requested(rest, name) {
            let j = choose|j: int| 0 <= j < rest.len() && eq_ignore_case(name, #[trigger] rest[j]);
            assert(eq_ignore_case(name, requested[j + 1]));
        }
        if exists|j: int|
            0 <= j < requested.len() && eq_ignore_case(name, #[trigger] requested[j]) {
            let j = choose|j: int|
                0 <= j < requested.len() && eq_ignore_case(name, #[trigger] requested[j]);
            assert(eq_ignore_case(name, rest[j - 1]));
        }
    }
}

/// No header is signed exactly if the message holds no header whose name is
/// requested.
pub proof fn lemma_nothing_selected(requested: Seq<Seq<u8>>, headers: Seq<(Seq<u8>, Seq<u8>)>)
    ensures
        selected(requested, headers).len() == 0 <==> forall|i: int|
            0 <= i < headers.len() ==> !is_requested(requested, #[trigger] headers[i].0),
    decreases headers.len(),
{
    if headers.len() > 0 {
        let before = headers.drop_last();
        lemma_nothing_selected(requested, before);
        if selected(requested, headers).len() == 0 {
            assert forall|i: int| 0 <= i < headers.len() implies !is_requested(
                requested,
                #[trigger] headers[i].0,
            ) by {
                if i < before.len() {
                    assert(before[i] == headers[i]);
                }
            }
        } else if !is_requested(requested, headers.last().0) {
            let i = choose|i: int|
                0 <= i < before.len() && is_requested(requested, #[trigger] before[i].0);
            assert(before[i] == headers[i]);
        }
    }
}

/// An empty body has an empty canonical form, under either canonicalization.
pub proof fn lemma_empty_body(mode: Canonicalization)
    ensures
        canonical_body_bytes(mode, Seq::empty()) == Seq::<u8>::empty(),
{
}

/// A body that holds nothing but line terminators has an empty canonical
/// form, under either canonicalization.
pub proof fn lemma_blank_body(mode: Canonicalization, body: Seq<u8>)
    requires
        forall|i: int| 0 <= i < body.len() ==> body[i] == CR || body[i] == LF,
    ensures
        canonical_body_bytes(mode, body) == Seq::<u8>::empty(),
        body_scan(mode, body).out == Seq::<u8>::empty(),
    decreases body.len(),
{
    if body.len() > 0 {
        lemma_blank_body(mode, body.drop_last());
    }
}

/// Reading two pieces one after the other is reading them joined.
pub proof fn lemma_body_scan_concat(mode: Canonicalization, s: BodyScan, x: Seq<u8>, y: Seq<u8>)
    ensures
        body_scan_from(mode, s, x + y) == body_scan_from(mode, body_scan_from(mode, s, x), y),
    decreases y.len(),
{
    if y.len() == 0 {
        assert(x + y =~= x);
    } else {
        assert((x + y).drop_last() =~= x + y.drop_last());
        lemma_body_scan_concat(mode, s, x, y.drop_last());
    }
}

/// Reading one byte is one step.
proof fn lemma_body_scan_one(mode: Canonicalization, s: BodyScan, ch: u8)
    ensures
        body_scan_from(mode, s, seq![ch]) == body_step(mode, s, ch),
{
    assert(body_scan_from(mode, s, seq![ch].drop_last()) == s);
}

/// Reading line terminators only counts them.
proof fn lemma_body_scan_crlf_run(mode: Canonicalization, s: BodyScan, n: nat)
    requires
        !s.space,
    ensures
        body_scan_from(mode, s, crlf_run(n)) == (BodyScan {
            out: s.out,
            lines: s.lines + n,
            space: false,
        }),
    decreases n,
{
    if n > 0 {
        let before = crlf_run((n - 1) as nat);
        lemma_body_scan_crlf_run(mode, s, (n - 1) as nat);
        lemma_body_scan_concat(mode, s, before, crlf());
        let mid = body_scan_from(mode, s, before);
        assert(crlf() =~= seq![CR] + seq![LF]);
        lemma_body_scan_concat(mode, mid, seq![CR], seq![LF]);
        lemma_body_scan_one(mode, mid, CR);
        lemma_body_scan_one(mode, body_step(mode, mid, CR), LF);
    }
}

/// Spaces are held back under relaxed canonicalization only.
proof fn lemma_simple_holds_no_space(body: Seq<u8>)
    ensures
        !body_scan(Canonicalization::Simple, body).space,
    decreases body.len(),
{
    if body.len() > 0 {
        lemma_simple_holds_no_space(body.drop_last());
    }
}

/// Canonical text reads as itself: nothing in it is held back or dropped.
proof fn lemma_body_scan_of_output(mode: Canonicalization, body: Seq<u8>)
    ensures
        body_scan(mode, body_scan(mode, body).out) == (BodyScan {
            out: body_scan(mode, body).out,
            lines: 0,
            space: false,
        }),
    decreases body.len(),
{
    if body.len() > 0 {
        let s0 = body_scan(mode, body.drop_last());
        let ch = body.last();
        lemma_body_scan_of_output(mode, body.drop_last());
        if !(ch == LF || ch == CR || (mode == Canonicalization::Relaxed && is_wsp(ch))) {
            let start = body_scan_start();
            let lines = crlf_run(s0.lines);
            let r0 = body_scan(mode, s0.out);
            let r1 = body_scan_from(mode, r0, lines);
            lemma_body_scan_concat(mode, start, s0.out, lines);
            lemma_body_scan_crlf_run(mode, r0, s0.lines);
            if s0.space {
                if mode == Canonicalization::Simple {
                    lemma_simple_holds_no_space(body.drop_last());
                }
                lemma_body_scan_concat(mode, start, s0.out + lines, seq![SP]);
                lemma_body_scan_one(mode, r1, SP);
                let r2 = body_step(mode, r1, SP);
                lemma_body_scan_concat(mode, start, s0.out + lines + seq![SP], seq![ch]);
                lemma_body_scan_one(mode, r2, ch);
            } else {
                lemma_body_scan_concat(mode, start, s0.out + lines, seq![ch]);
                lemma_body_scan_one(mode, r1, ch);
            }
        }
    }
}

/// Canonicalizing a body that is canonical already changes nothing.
pub proof fn lemma_canonical_body_idempotent(mode: Canonicalization, body: Seq<u8>)
    ensures
        canonical_body_bytes(mode, canonical_body_bytes(mode, body)) == canonical_body_bytes(
            mode,
            body,
        ),
{
    let out = body_scan(mode, body).out;
    lemma_body_scan_of_output(mode, body);
    if out.len() > 0 {
        let start = body_scan_start();
        let r0 = body_scan(mode, out);
        lemma_body_scan_concat(mode, start, out, crlf());
        assert(crlf() =~= crlf_run(1)) by {
            assert(crlf_run(1) == crlf_run(0) + crlf());
        }
        lemma_body_scan_crlf_run(mode, r0, 1);
    }
}

/// Line terminators at the end of a value add nothing to its text.
proof fn lemma_value_text_skips_terminators(value: Seq<u8>, fold: Seq<u8>)
    requires
        forall|i: int| 0 <= i < fold.len() ==> fold[i] == CR || fold[i] == LF,
    ensures
        relaxed_value_text(value + fold) == relaxed_value_text(value),
    decreases fold.len(),
{
    if fold.len() == 0 {
        assert(value + fold =~= value);
    } else {
        assert((value + fold).drop_last() =~= value + fold.drop_last());
        lemma_value_text_skips_terminators(value, fold.drop_last());
    }
}

/// The text of a folded value is that of the value written on one line.
proof fn lemma_value_text_unfolded(before: Seq<u8>, fold: Seq<u8>, after: Seq<u8>)
    requires
        forall|i: int| 0 <= i < fold.len() ==> fold[i] == CR || fold[i] == LF,
        after.len() > 0,
        is_wsp(after[0]),
    ensures
        relaxed_value_text(before + fold + after) == relaxed_value_text(before + after),
    decreases after.len(),
{
    let folded = before + fold + after;
    let flat = before + after;
    assert(folded.drop_last() =~= before + fold + after.drop_last());
    assert(flat.drop_last() =~= before + after.drop_last());
    if after.len() == 1 {
        lemma_value_text_skips_terminators(before, fold);
    } else {
        lemma_value_text_unfolded(before, fold, after.drop_last());
    }
}

/// A header value that is folded, its continuation line starting with a
/// space or a tab, has the relaxed form of the same value written on one
/// line.
pub proof fn lemma_folded_value(before: Seq<u8>, fold: Seq<u8>, after: Seq<u8>)
    requires
        forall|i: int| 0 <= i < fold.len() ==> fold[i] == CR || fold[i] == LF,
        after.len() > 0,
        is_wsp(after[0]),
    ensures
        relaxed_value(before + fold + after) == relaxed_value(before + after),
{
    lemma_value_text_unfolded(before, fold, after);
}

} // verus!
