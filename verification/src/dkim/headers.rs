//! The text of a signature: the `DKIM-Signature` header as it is added to a
//! message, and as it is signed.

use vstd::prelude::*;
use vstd::utf8::{encode_utf8, encode_utf8_valid_utf8, valid_utf8, valid_utf8_concat};
use crate::common::crypto::Algorithm;
use crate::common::encoding::{
    decimal, is_ascii_bytes, lemma_ascii_byte_is_utf8, lemma_ascii_is_utf8,
    lemma_decimal_is_ascii, lit, push_decimal,
};
use crate::common::headers::{HeaderWriter, Writer};
use crate::dkim::canonicalize::{mode_name, requested_bytes};
use crate::dkim::{texts, Canonicalization, Signature, SignatureView};

verus! {

/// The width at which a line of the header is folded.
pub const LINE_LIMIT: usize = 76;

/// The end of the header text written so far and the width of its last line.
pub struct Line {
    pub out: Seq<u8>,
    pub width: int,
}

impl Line {
    /// The line with `bytes` added.
    pub open spec fn put(self, bytes: Seq<u8>) -> Line {
        Line { out: self.out + bytes, width: self.width + bytes.len() }
    }

    /// The text folded by `fold`, with a new line begun.
    pub open spec fn fold(self, fold: Seq<u8>) -> Line {
        Line { out: self.out + fold, width: 1 }
    }
}

/// The `h=` tag: the names, separated by colons. The line is folded before a
/// name that would bring it to the limit.
pub open spec fn names_line(names: Seq<Seq<u8>>, fold: Seq<u8>) -> Line
    decreases names.len(),
{
    if names.len() == 0 {
        Line { out: Seq::empty(), width: 1 }
    } else {
        let before = names_line(names.drop_last(), fold);
        let at = if before.width + names.last().len() + 1 >= LINE_LIMIT {
            before.fold(fold)
        } else {
            before
        };
        at.put(
            if names.len() == 1 {
                lit("h=")
            } else {
                lit(":")
            },
        ).put(names.last())
    }
}

/// A tag with a number as its value, after the semicolon that closes the tag
/// before it. A value of 0 leaves the tag out. The line is folded before a
/// tag that would bring it to the limit.
pub open spec fn number_tag(line: Line, tag: Seq<u8>, value: u64, fold: Seq<u8>) -> Line {
    if value == 0 {
        line
    } else {
        let closed = line.put(lit(";"));
        let at = if closed.width + tag.len() + decimal(value as nat).len() >= LINE_LIMIT {
            closed.fold(fold)
        } else {
            closed.put(lit(" "))
        };
        at.put(tag).put(decimal(value as nat))
    }
}

/// Bytes written one by one. The line is folded after the byte that brings
/// it to the limit.
pub open spec fn folded_bytes(line: Line, value: Seq<u8>, fold: Seq<u8>) -> Line
    decreases value.len(),
{
    if value.len() == 0 {
        line
    } else {
        let at = folded_bytes(line, value.drop_last(), fold).put(seq![value.last()]);
        if at.width >= LINE_LIMIT {
            at.fold(fold)
        } else {
            at
        }
    }
}

/// The name of an algorithm, as the `a=` tag spells it.
pub open spec fn algorithm_name(a: Algorithm) -> Seq<u8> {
    match a {
        Algorithm::RsaSha256 => lit("rsa-sha256"),
    }
}

/// Whether the header is written in the short form in which it is signed
/// under relaxed canonicalization: lower-case name, no space after the colon,
/// a single space where the header is folded.
pub open spec fn short_form(sig: SignatureView, as_header: bool) -> bool {
    sig.ch == Canonicalization::Relaxed && !as_header
}

/// What folds a line of the header.
pub open spec fn fold_of(sig: SignatureView, as_header: bool) -> Seq<u8> {
    if short_form(sig, as_header) {
        lit(" ")
    } else {
        lit("\r\n\t")
    }
}

/// The first line of the header, up to the fold before the `h=` tag.
pub open spec fn signature_head(sig: SignatureView, as_header: bool) -> Seq<u8> {
    (if short_form(sig, as_header) {
        lit("dkim-signature:")
    } else {
        lit("DKIM-Signature: ")
    }) + lit("v=1; a=") + algorithm_name(sig.a) + lit("; s=") + encode_utf8(sig.s) + lit("; d=")
        + encode_utf8(sig.d) + lit("; c=") + mode_name(sig.ch) + lit("/") + mode_name(sig.cb)
        + lit(";") + fold_of(sig, as_header)
}

/// The tags from `h=` to `b=`.
pub open spec fn signature_tags(sig: SignatureView, as_header: bool) -> Line {
    let fold = fold_of(sig, as_header);
    let names = names_line(requested_bytes(sig.h), fold);
    let time = number_tag(names, lit("t="), sig.t, fold);
    let length = number_tag(time, lit("l="), sig.l, fold);
    let body_hash = folded_bytes(length.put(lit("; bh=")), sig.bh, fold);
    folded_bytes(body_hash.put(lit("; b=")), sig.b, fold)
}

/// The text of a signature. With `as_header` it is the header line that is
/// added to the message, terminator included. Without, it is the header as
/// it is signed: no terminator, and the short form where the headers are
/// canonicalized as relaxed.
pub open spec fn signature_bytes(sig: SignatureView, as_header: bool) -> Seq<u8> {
    signature_head(sig, as_header) + signature_tags(sig, as_header).out + lit(";") + (
    if as_header {
        lit("\r\n")
    } else {
        Seq::empty()
    })
}

/// A width, counted no further than the limit.
pub open spec fn capped(width: int) -> int {
    if width >= LINE_LIMIT {
        LINE_LIMIT as int
    } else {
        width
    }
}

/// The capped width after `n` more bytes.
fn advance(bw: usize, n: usize) -> (r: usize)
    requires
        bw <= LINE_LIMIT,
    ensures
        r == capped(bw + n),
{
    if n >= LINE_LIMIT - bw {
        LINE_LIMIT
    } else {
        bw + n
    }
}

/// Writes `bytes` on the line.
fn put<W: Writer>(
    writer: &mut W,
    Ghost(base): Ghost<Seq<u8>>,
    Ghost(line): Ghost<Line>,
    bw: usize,
    bytes: &[u8],
) -> (r: usize)
    requires
        old(writer).written() == base + line.out,
        bw == capped(line.width),
        line.width >= 0,
    ensures
        final(writer).written() == base + line.put(bytes@).out,
        r == capped(line.put(bytes@).width),
        line.put(bytes@).width >= 0,
{
    writer.write(bytes);
    advance(bw, bytes.len())
}

/// Writes `bytes` after `head`.
fn emit<W: Writer>(
    writer: &mut W,
    Ghost(start): Ghost<Seq<u8>>,
    Ghost(head): Ghost<Seq<u8>>,
    bytes: &[u8],
)
    requires
        old(writer).written() == start + head,
    ensures
        final(writer).written() == start + (head + bytes@),
{
    writer.write(bytes);
}

/// Folds the line.
fn fold<W: Writer>(
    writer: &mut W,
    Ghost(base): Ghost<Seq<u8>>,
    Ghost(line): Ghost<Line>,
    new_line: &[u8],
) -> (r: usize)
    requires
        old(writer).written() == base + line.out,
    ensures
        final(writer).written() == base + line.fold(new_line@).out,
        r == capped(line.fold(new_line@).width),
{
    writer.write(new_line);
    1
}

/// Writes the `h=` tag.
fn write_names<W: Writer>(
    writer: &mut W,
    Ghost(base): Ghost<Seq<u8>>,
    names: &Vec<String>,
    new_line: &[u8],
) -> (r: usize)
    requires
        old(writer).written() == base,
    ensures
        final(writer).written() == base + names_line(
            requested_bytes(texts(names@)),
            new_line@,
        ).out,
        r == capped(names_line(requested_bytes(texts(names@)), new_line@).width),
        names_line(requested_bytes(texts(names@)), new_line@).width >= 0,
{
    let ghost all = requested_bytes(texts(names@));
    let mut bw: usize = 1;
    let mut k: usize = 0;
    while k < names.len()
        invariant
            k <= names.len(),
            all == requested_bytes(texts(names@)),
            writer.written() == base + names_line(all.take(k as int), new_line@).out,
            bw == capped(names_line(all.take(k as int), new_line@).width),
            names_line(all.take(k as int), new_line@).width >= 0,
        decreases names.len() - k,
    {
        let name = names[k].as_str().as_bytes();
        let ghost before = names_line(all.take(k as int), new_line@);
        assert(all.take(k + 1).drop_last() =~= all.take(k as int));
        let ghost mut at = before;
        if advance(advance(bw, name.len()), 1) >= LINE_LIMIT {
            bw = fold(writer, Ghost(base), Ghost(before), new_line);
            proof {
                at = before.fold(new_line@);
            }
        }
        if k > 0 {
            bw = put(writer, Ghost(base), Ghost(at), bw, ":".as_bytes());
            proof {
                at = at.put(lit(":"));
            }
        } else {
            bw = put(writer, Ghost(base), Ghost(at), bw, "h=".as_bytes());
            proof {
                at = at.put(lit("h="));
            }
        }
        bw = put(writer, Ghost(base), Ghost(at), bw, name);
        k += 1;
    }
    assert(all.take(names.len() as int) =~= all);
    bw
}

/// Writes a tag whose value is a number.
fn write_number_tag<W: Writer>(
    writer: &mut W,
    Ghost(base): Ghost<Seq<u8>>,
    Ghost(line): Ghost<Line>,
    bw: usize,
    tag: &[u8],
    value: u64,
    new_line: &[u8],
) -> (r: usize)
    requires
        old(writer).written() == base + line.out,
        bw == capped(line.width),
        line.width >= 0,
    ensures
        final(writer).written() == base + number_tag(line, tag@, value, new_line@).out,
        r == capped(number_tag(line, tag@, value, new_line@).width),
        number_tag(line, tag@, value, new_line@).width >= 0,
{
    if value > 0 {
        let mut digits: Vec<u8> = Vec::new();
        push_decimal(value, &mut digits);
        let mut bw = put(writer, Ghost(base), Ghost(line), bw, ";".as_bytes());
        let ghost closed = line.put(lit(";"));
        let ghost mut at = closed;
        if advance(advance(bw, tag.len()), digits.len()) >= LINE_LIMIT {
            bw = fold(writer, Ghost(base), Ghost(closed), new_line);
            proof {
                at = closed.fold(new_line@);
            }
        } else {
            bw = put(writer, Ghost(base), Ghost(closed), bw, " ".as_bytes());
            proof {
                at = closed.put(lit(" "));
            }
        }
        bw = put(writer, Ghost(base), Ghost(at), bw, tag);
        put(writer, Ghost(base), Ghost(at.put(tag@)), bw, digits.as_slice())
    } else {
        bw
    }
}

/// Writes bytes one by one, folding the line where it reaches the limit.
fn write_folded<W: Writer>(
    writer: &mut W,
    Ghost(base): Ghost<Seq<u8>>,
    Ghost(line): Ghost<Line>,
    bw: usize,
    value: &[u8],
    new_line: &[u8],
) -> (r: usize)
    requires
        old(writer).written() == base + line.out,
        bw == capped(line.width),
        line.width >= 0,
    ensures
        final(writer).written() == base + folded_bytes(line, value@, new_line@).out,
        r == capped(folded_bytes(line, value@, new_line@).width),
        folded_bytes(line, value@, new_line@).width >= 0,
{
    let mut bw = bw;
    let mut i: usize = 0;
    while i < value.len()
        invariant
            i <= value.len(),
            writer.written() == base + folded_bytes(line, value@.take(i as int), new_line@).out,
            bw == capped(folded_bytes(line, value@.take(i as int), new_line@).width),
            folded_bytes(line, value@.take(i as int), new_line@).width >= 0,
        decreases value.len() - i,
    {
        let ghost before = folded_bytes(line, value@.take(i as int), new_line@);
        assert(value@.take(i + 1).drop_last() =~= value@.take(i as int));
        let one: [u8; 1] = [value[i]];
        bw = put(writer, Ghost(base), Ghost(before), bw, one.as_slice());
        if bw >= LINE_LIMIT {
            bw = fold(writer, Ghost(base), Ghost(before.put(one@)), new_line);
        }
        i += 1;
    }
    assert(value@.take(value.len() as int) =~= value@);
    bw
}

impl Signature {
    /// Writes the text of the signature: with `as_header` the header line
    /// that is added to the message, without it the header as it is signed.
    pub fn write<W: Writer>(&self, writer: &mut W, as_header: bool)
        ensures
            final(writer).written() == old(writer).written() + signature_bytes(self@, as_header),
    {
        let short = match self.ch {
            Canonicalization::Relaxed => !as_header,
            Canonicalization::Simple => false,
        };
        let new_line = if short {
            " ".as_bytes()
        } else {
            "\r\n\t".as_bytes()
        };
        let ghost start = old(writer).written();
        let ghost mut head = Seq::<u8>::empty();
        if short {
            emit(writer, Ghost(start), Ghost(head), "dkim-signature:".as_bytes());
            proof {
                head = head + lit("dkim-signature:");
            }
        } else {
            emit(writer, Ghost(start), Ghost(head), "DKIM-Signature: ".as_bytes());
            proof {
                head = head + lit("DKIM-Signature: ");
            }
        }
        proof {
            assert(head =~= if short_form(self@, as_header) {
                lit("dkim-signature:")
            } else {
                lit("DKIM-Signature: ")
            });
        }
        emit(writer, Ghost(start), Ghost(head), "v=1; a=".as_bytes());
        proof {
            head = head + lit("v=1; a=");
        }
        match self.a {
            Algorithm::RsaSha256 => emit(
                writer,
                Ghost(start),
                Ghost(head),
                "rsa-sha256".as_bytes(),
            ),
        }
        proof {
            head = head + algorithm_name(self.a);
        }
        emit(writer, Ghost(start), Ghost(head), "; s=".as_bytes());
        proof {
            head = head + lit("; s=");
        }
        emit(writer, Ghost(start), Ghost(head), self.s.as_str().as_bytes());
        proof {
            head = head + encode_utf8(self@.s);
        }
        emit(writer, Ghost(start), Ghost(head), "; d=".as_bytes());
        proof {
            head = head + lit("; d=");
        }
        emit(writer, Ghost(start), Ghost(head), self.d.as_str().as_bytes());
        proof {
            head = head + encode_utf8(self@.d);
        }
        emit(writer, Ghost(start), Ghost(head), "; c=".as_bytes());
        proof {
            head = head + lit("; c=");
        }
        self.ch.serialize_name(writer);
        proof {
            assert(writer.written() =~= start + (head + mode_name(self.ch)));
            head = head + mode_name(self.ch);
        }
        emit(writer, Ghost(start), Ghost(head), "/".as_bytes());
        proof {
            head = head + lit("/");
        }
        self.cb.serialize_name(writer);
        proof {
            assert(writer.written() =~= start + (head + mode_name(self.cb)));
            head = head + mode_name(self.cb);
        }
        emit(writer, Ghost(start), Ghost(head), ";".as_bytes());
        proof {
            head = head + lit(";");
        }
        emit(writer, Ghost(start), Ghost(head), new_line);
        proof {
            head = head + new_line@;
        }
        let ghost base = writer.written();
        let bw = write_names(writer, Ghost(base), &self.h, new_line);
        let ghost names = names_line(requested_bytes(self@.h), new_line@);
        let bw = write_number_tag(
            writer,
            Ghost(base),
            Ghost(names),
            bw,
            "t=".as_bytes(),
            self.t,
            new_line,
        );
        let ghost time = number_tag(names, lit("t="), self.t, new_line@);
        let bw = write_number_tag(
            writer,
            Ghost(base),
            Ghost(time),
            bw,
            "l=".as_bytes(),
            self.l,
            new_line,
        );
        let ghost length = number_tag(time, lit("l="), self.l, new_line@);
        let bw = put(writer, Ghost(base), Ghost(length), bw, "; bh=".as_bytes());
        let bw = write_folded(
            writer,
            Ghost(base),
            Ghost(length.put(lit("; bh="))),
            bw,
            self.bh.as_slice(),
            new_line,
        );
        let ghost body_hash = folded_bytes(length.put(lit("; bh=")), self@.bh, new_line@);
        let bw = put(writer, Ghost(base), Ghost(body_hash), bw, "; b=".as_bytes());
        let bw = write_folded(
            writer,
            Ghost(base),
            Ghost(body_hash.put(lit("; b="))),
            bw,
            self.b.as_slice(),
            new_line,
        );
        let ghost tags = signature_tags(self@, as_header).out;
        writer.write(";".as_bytes());
        if as_header {
            writer.write("\r\n".as_bytes());
            assert(writer.written() =~= start + (head + tags + lit(";") + lit("\r\n")));
        }
    }
}

impl HeaderWriter for Signature {
    open spec fn header_bytes(&self) -> Seq<u8> {
        signature_bytes(self@, true)
    }

    fn write_header<W: Writer>(&self, writer: &mut W) {
        self.write(writer, true);
    }
}

/// Adding well-formed UTF-8 to a line keeps its text well-formed.
proof fn lemma_put_is_utf8(line: Line, bytes: Seq<u8>)
    requires
        valid_utf8(line.out),
        valid_utf8(bytes),
    ensures
        valid_utf8(line.put(bytes).out),
        valid_utf8(line.fold(bytes).out),
{
    valid_utf8_concat(line.out, bytes);
}

/// The `h=` tag is well-formed UTF-8 where the names are.
proof fn lemma_names_line_is_utf8(names: Seq<Seq<char>>, fold: Seq<u8>)
    requires
        valid_utf8(fold),
    ensures
        valid_utf8(names_line(requested_bytes(names), fold).out),
    decreases names.len(),
{
    let all = requested_bytes(names);
    if names.len() > 0 {
        assert(all.drop_last() =~= requested_bytes(names.drop_last()));
        lemma_names_line_is_utf8(names.drop_last(), fold);
        let before = names_line(all.drop_last(), fold);
        let at = if before.width + all.last().len() + 1 >= LINE_LIMIT {
            before.fold(fold)
        } else {
            before
        };
        lemma_put_is_utf8(before, fold);
        let sep = if all.len() == 1 {
            lit("h=")
        } else {
            lit(":")
        };
        encode_utf8_valid_utf8("h="@);
        encode_utf8_valid_utf8(":"@);
        lemma_put_is_utf8(at, sep);
        encode_utf8_valid_utf8(names.last());
        lemma_put_is_utf8(at.put(sep), all.last());
    }
}

/// A number tag keeps the text well-formed UTF-8.
proof fn lemma_number_tag_is_utf8(line: Line, tag: &str, value: u64, fold: Seq<u8>)
    requires
        valid_utf8(line.out),
        valid_utf8(fold),
    ensures
        valid_utf8(number_tag(line, lit(tag), value, fold).out),
{
    if value > 0 {
        let digits = decimal(value as nat);
        lemma_decimal_is_ascii(value as nat);
        lemma_ascii_is_utf8(digits);
        encode_utf8_valid_utf8(";"@);
        encode_utf8_valid_utf8(" "@);
        encode_utf8_valid_utf8(tag@);
        let closed = line.put(lit(";"));
        lemma_put_is_utf8(line, lit(";"));
        lemma_put_is_utf8(closed, fold);
        lemma_put_is_utf8(closed, lit(" "));
        let at = if closed.width + lit(tag).len() + digits.len() >= LINE_LIMIT {
            closed.fold(fold)
        } else {
            closed.put(lit(" "))
        };
        lemma_put_is_utf8(at, lit(tag));
        lemma_put_is_utf8(at.put(lit(tag)), digits);
    }
}

/// ASCII bytes written one by one keep the text well-formed UTF-8.
proof fn lemma_folded_bytes_is_utf8(line: Line, value: Seq<u8>, fold: Seq<u8>)
    requires
        valid_utf8(line.out),
        valid_utf8(fold),
        is_ascii_bytes(value),
    ensures
        valid_utf8(folded_bytes(line, value, fold).out),
    decreases value.len(),
{
    if value.len() > 0 {
        lemma_folded_bytes_is_utf8(line, value.drop_last(), fold);
        let before = folded_bytes(line, value.drop_last(), fold);
        lemma_ascii_byte_is_utf8(value.last());
        lemma_put_is_utf8(before, seq![value.last()]);
        lemma_put_is_utf8(before.put(seq![value.last()]), fold);
    }
}

/// The text of a signature is well-formed UTF-8 where its `bh=` and `b=`
/// tags are ASCII, as base64 is.
pub proof fn lemma_signature_is_utf8(sig: SignatureView, as_header: bool)
    requires
        is_ascii_bytes(sig.bh),
        is_ascii_bytes(sig.b),
    ensures
        valid_utf8(signature_bytes(sig, as_header)),
{
    let fold = fold_of(sig, as_header);
    encode_utf8_valid_utf8(" "@);
    encode_utf8_valid_utf8("\r\n\t"@);
    encode_utf8_valid_utf8("dkim-signature:"@);
    encode_utf8_valid_utf8("DKIM-Signature: "@);
    encode_utf8_valid_utf8("v=1; a="@);
    encode_utf8_valid_utf8("rsa-sha256"@);
    encode_utf8_valid_utf8("; s="@);
    encode_utf8_valid_utf8(sig.s);
    encode_utf8_valid_utf8("; d="@);
    encode_utf8_valid_utf8(sig.d);
    encode_utf8_valid_utf8("; c="@);
    encode_utf8_valid_utf8("relaxed"@);
    encode_utf8_valid_utf8("simple"@);
    encode_utf8_valid_utf8("/"@);
    encode_utf8_valid_utf8(";"@);
    encode_utf8_valid_utf8("\r\n"@);
    encode_utf8_valid_utf8("; bh="@);
    encode_utf8_valid_utf8("; b="@);
    let h0 = if short_form(sig, as_header) {
        lit("dkim-signature:")
    } else {
        lit("DKIM-Signature: ")
    };
    let h1 = h0 + lit("v=1; a=");
    valid_utf8_concat(h0, lit("v=1; a="));
    let h2 = h1 + algorithm_name(sig.a);
    valid_utf8_concat(h1, algorithm_name(sig.a));
    let h3 = h2 + lit("; s=");
    valid_utf8_concat(h2, lit("; s="));
    let h4 = h3 + encode_utf8(sig.s);
    valid_utf8_concat(h3, encode_utf8(sig.s));
    let h5 = h4 + lit("; d=");
    valid_utf8_concat(h4, lit("; d="));
    let h6 = h5 + encode_utf8(sig.d);
    valid_utf8_concat(h5, encode_utf8(sig.d));
    let h7 = h6 + lit("; c=");
    valid_utf8_concat(h6, lit("; c="));
    let h8 = h7 + mode_name(sig.ch);
    valid_utf8_concat(h7, mode_name(sig.ch));
    let h9 = h8 + lit("/");
    valid_utf8_concat(h8, lit("/"));
    let h10 = h9 + mode_name(sig.cb);
    valid_utf8_concat(h9, mode_name(sig.cb));
    let h11 = h10 + lit(";");
    valid_utf8_concat(h10, lit(";"));
    let head = h11 + fold;
    valid_utf8_concat(h11, fold);
    lemma_names_line_is_utf8(sig.h, fold);
    let names = names_line(requested_bytes(sig.h), fold);
    lemma_number_tag_is_utf8(names, "t=", sig.t, fold);
    let time = number_tag(names, lit("t="), sig.t, fold);
    lemma_number_tag_is_utf8(time, "l=", sig.l, fold);
    let length = number_tag(time, lit("l="), sig.l, fold);
    lemma_put_is_utf8(length, lit("; bh="));
    lemma_folded_bytes_is_utf8(length.put(lit("; bh=")), sig.bh, fold);
    let body_hash = folded_bytes(length.put(lit("; bh=")), sig.bh, fold);
    lemma_put_is_utf8(body_hash, lit("; b="));
    lemma_folded_bytes_is_utf8(body_hash.put(lit("; b=")), sig.b, fold);
    let tags = signature_tags(sig, as_header).out;
    valid_utf8_concat(head, tags);
    valid_utf8_concat(head + tags, lit(";"));
    let end = if as_header {
        lit("\r\n")
    } else {
        Seq::empty()
    };
    valid_utf8_concat(head + tags + lit(";"), end);
}

} // verus!
