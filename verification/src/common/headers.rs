//! The header block of a message, and the traits through which bytes are written.

use vstd::prelude::*;
use vstd::slice::slice_subrange;
use vstd::utf8::{encode_utf8, valid_utf8};
use crate::common::bytes::{byte_is_wsp, is_wsp, COLON, CR, LF};
use crate::common::encoding::str_from_utf8;

verus! {

/// One step of reading the header block from a given offset.
pub enum HeaderStep {
    /// A header. Its name runs from the offset the step started at to
    /// `name_end`, its value from `value_start` to `next`, where the next step
    /// starts.
    Header { name_end: int, value_start: int, next: int },
    /// The header block is over and the body starts at `body`.
    End { body: int },
}

/// A line feed at `i` that no continuation line follows.
pub open spec fn line_ends_at(msg: Seq<u8>, i: int) -> bool {
    msg[i] == LF && (i + 1 >= msg.len() || !is_wsp(msg[i + 1]))
}

/// Reads on at `i` in the value of a header whose colon is at `colon`.
///
/// The value ends with the first line feed that no continuation follows. In
/// a message that ends before that, the value runs to the end of the message
/// and has no terminator.
pub open spec fn scan_value(msg: Seq<u8>, colon: int, i: int) -> HeaderStep
    decreases msg.len() - i,
{
    if i < 0 || i >= msg.len() {
        HeaderStep::Header { name_end: colon, value_start: colon + 1, next: msg.len() as int }
    } else if line_ends_at(msg, i) {
        HeaderStep::Header { name_end: colon, value_start: colon + 1, next: i + 1 }
    } else {
        scan_value(msg, colon, i + 1)
    }
}

/// Reads on at `i` in a header that starts at `start` and has shown no colon
/// yet.
///
/// An empty line closes the header block: a line feed right at `start`, or
/// right after a carriage return at `start`. Any other line feed that no
/// continuation follows ends a line without a colon: that line, terminator
/// included, is the name of a header with an empty value. A message that
/// ends before a colon or a line end holds no further header.
pub open spec fn scan_name(msg: Seq<u8>, start: int, i: int) -> HeaderStep
    decreases msg.len() - i,
{
    if i < 0 || i >= msg.len() {
        HeaderStep::End { body: msg.len() as int }
    } else if msg[i] == COLON {
        scan_value(msg, i, i + 1)
    } else if msg[i] == LF && (i == start || (i == start + 1 && msg[start] == CR)) {
        HeaderStep::End { body: i + 1 }
    } else if line_ends_at(msg, i) {
        HeaderStep::Header { name_end: i + 1, value_start: i + 1, next: i + 1 }
    } else {
        scan_name(msg, start, i + 1)
    }
}

/// The step that reads the header block of `msg` at `start`.
pub open spec fn next_step(msg: Seq<u8>, start: int) -> HeaderStep {
    scan_name(msg, start, start)
}

/// The headers of `msg` from `start` on, in document order, each as its name
/// and its value with the terminator, where it has one.
pub open spec fn headers_from(msg: Seq<u8>, start: int) -> Seq<(Seq<u8>, Seq<u8>)>
    decreases msg.len() - start,
{
    match next_step(msg, start) {
        HeaderStep::Header { name_end, value_start, next } => {
            if start < next <= msg.len() {
                seq![(msg.subrange(start, name_end), msg.subrange(value_start, next))]
                    + headers_from(msg, next)
            } else {
                Seq::empty()
            }
        },
        HeaderStep::End { body } => Seq::empty(),
    }
}

/// The offset at which the body starts, for a header block read from `start`.
pub open spec fn body_start_from(msg: Seq<u8>, start: int) -> int
    decreases msg.len() - start,
{
    match next_step(msg, start) {
        HeaderStep::Header { name_end, value_start, next } => {
            if start < next <= msg.len() {
                body_start_from(msg, next)
            } else {
                msg.len() as int
            }
        },
        HeaderStep::End { body } => body,
    }
}

/// The headers of a message.
pub open spec fn headers_of(msg: Seq<u8>) -> Seq<(Seq<u8>, Seq<u8>)> {
    headers_from(msg, 0)
}

/// The offset of a message's body.
pub open spec fn body_offset_of(msg: Seq<u8>) -> int {
    body_start_from(msg, 0)
}

/// The body of a message: what follows the empty line that closes the
/// header block, and nothing where no such line exists.
pub open spec fn body_of(msg: Seq<u8>) -> Seq<u8> {
    msg.subrange(body_offset_of(msg), msg.len() as int)
}

/// Where a value scan ends: with a header whose value lies inside the
/// message, after the colon.
pub proof fn lemma_scan_value_bounds(msg: Seq<u8>, colon: int, i: int)
    requires
        0 <= colon < i <= msg.len(),
    ensures
        scan_value(msg, colon, i) matches HeaderStep::Header { name_end, value_start, next }
            && name_end == colon && value_start == colon + 1 && i <= next <= msg.len(),
    decreases msg.len() - i,
{
    if i < msg.len() && !line_ends_at(msg, i) {
        lemma_scan_value_bounds(msg, colon, i + 1);
    }
}

/// Where a name scan ends: a header's parts lie in order inside the message,
/// and the body starts after the offset that the scan has reached.
pub proof fn lemma_scan_name_bounds(msg: Seq<u8>, start: int, i: int)
    requires
        0 <= start <= i <= msg.len(),
    ensures
        match scan_name(msg, start, i) {
            HeaderStep::Header { name_end, value_start, next } => {
                start <= name_end <= value_start <= next <= msg.len() && i < next
            },
            HeaderStep::End { body } => i <= body <= msg.len(),
        },
    decreases msg.len() - i,
{
    if i < msg.len() {
        if msg[i] == COLON {
            lemma_scan_value_bounds(msg, i, i + 1);
        } else if msg[i] == LF && (i == start || (i == start + 1 && msg[start] == CR)) {
        } else if line_ends_at(msg, i) {
        } else {
            lemma_scan_name_bounds(msg, start, i + 1);
        }
    }
}

/// A name as a header line can hold it: without colon and line feed, and not
/// starting like a continuation line.
pub open spec fn is_header_name(name: Seq<u8>) -> bool {
    &&& forall|i: int| 0 <= i < name.len() ==> name[i] != COLON && name[i] != LF
    &&& name.len() > 0 ==> !is_wsp(name[0])
}

/// Whether the byte at `i`, if it is a line feed, is followed by a
/// continuation line.
pub open spec fn continues_at(value: Seq<u8>, i: int) -> bool {
    value[i] == LF ==> is_wsp(value[i + 1])
}

/// A value as a header line can hold it: it ends in a line feed, and every
/// line feed before that one is followed by a continuation line.
pub open spec fn is_header_value(value: Seq<u8>) -> bool {
    &&& value.len() > 0
    &&& value.last() == LF
    &&& forall|i: int| 0 <= i < value.len() - 1 ==> #[trigger] continues_at(value, i)
}

/// Headers that header lines can hold.
pub open spec fn are_header_lines(headers: Seq<(Seq<u8>, Seq<u8>)>) -> bool {
    forall|k: int|
        0 <= k < headers.len() ==> is_header_name(#[trigger] headers[k].0) && is_header_value(
            headers[k].1,
        )
}

/// The header lines of `headers`, one after the other.
pub open spec fn header_block(headers: Seq<(Seq<u8>, Seq<u8>)>) -> Seq<u8>
    decreases headers.len(),
{
    if headers.len() == 0 {
        Seq::empty()
    } else {
        headers[0].0 + seq![COLON] + headers[0].1 + header_block(headers.drop_first())
    }
}

/// The empty line that closes a header block: a line feed, alone or after a
/// carriage return.
pub open spec fn is_blank_line(line: Seq<u8>) -> bool {
    line == seq![CR, LF] || line == seq![LF]
}

/// Reading a name that holds no colon and no line feed comes to the colon
/// behind it.
proof fn lemma_scan_over_name(msg: Seq<u8>, start: int, colon: int, i: int)
    requires
        0 <= start <= i <= colon < msg.len(),
        msg[colon] == COLON,
        forall|j: int| start <= j < colon ==> msg[j] != COLON && msg[j] != LF,
    ensures
        scan_name(msg, start, i) == scan_value(msg, colon, colon + 1),
    decreases colon - i,
{
    if i < colon {
        lemma_scan_over_name(msg, start, colon, i + 1);
    }
}

/// Reading a value comes to the first line feed that no continuation line
/// follows.
proof fn lemma_scan_over_value(msg: Seq<u8>, colon: int, end: int, i: int)
    requires
        0 <= colon < i <= end < msg.len(),
        line_ends_at(msg, end),
        forall|j: int| colon < j < end ==> !line_ends_at(msg, j),
    ensures
        scan_value(msg, colon, i) == (HeaderStep::Header {
            name_end: colon,
            value_start: colon + 1,
            next: end + 1,
        }),
    decreases end - i,
{
    if i < end {
        lemma_scan_over_value(msg, colon, end, i + 1);
    }
}

/// Reading a message gives back what it was written from: a message made of
/// header lines, an empty line and a body has those headers and that body,
/// and so has a message that ends with its header lines, whose body is
/// empty. It holds wherever in a longer text the header lines start.
pub proof fn lemma_headers_from_written(
    before: Seq<u8>,
    headers: Seq<(Seq<u8>, Seq<u8>)>,
    blank: Seq<u8>,
    body: Seq<u8>,
)
    requires
        are_header_lines(headers),
        is_blank_line(blank) || (blank.len() == 0 && body.len() == 0),
    ensures
        headers_from(before + header_block(headers) + blank + body, before.len() as int)
            == headers,
        body_start_from(before + header_block(headers) + blank + body, before.len() as int)
            == (before + header_block(headers) + blank).len(),
    decreases headers.len(),
{
    let msg = before + header_block(headers) + blank + body;
    let start = before.len() as int;
    if headers.len() == 0 {
        if blank.len() == 2 {
            assert(scan_name(msg, start, start) == scan_name(msg, start, start + 1));
        }
    } else {
        let name = headers[0].0;
        let value = headers[0].1;
        let others = headers.drop_first();
        let line = name + seq![COLON] + value;
        let after = header_block(others) + blank + body;
        assert(msg =~= before + line + after);
        let colon = start + name.len();
        let end = colon + value.len();
        assert forall|j: int| start <= j < colon implies msg[j] != COLON && msg[j] != LF by {}
        lemma_scan_over_name(msg, start, colon, start);
        assert(line_ends_at(msg, end)) by {
            if others.len() > 0 {
                assert(is_header_name(others[0].0));
            }
        }
        assert forall|j: int| colon < j < end implies !line_ends_at(msg, j) by {
            assert(continues_at(value, j - colon - 1));
        }
        lemma_scan_over_value(msg, colon, end, colon + 1);
        assert(msg.subrange(start, colon) =~= name);
        assert(msg.subrange(colon + 1, end + 1) =~= value);
        assert(are_header_lines(others)) by {
            assert forall|k: int| 0 <= k < others.len() implies is_header_name(
                #[trigger] others[k].0,
            ) && is_header_value(others[k].1) by {}
        }
        lemma_headers_from_written(before + line, others, blank, body);
        assert(before + line + header_block(others) + blank =~= before + header_block(headers)
            + blank);
    }
}

/// A message made of header lines, an empty line and a body has those
/// headers and that body. A message that ends with its header lines has
/// those headers and an empty body.
pub proof fn lemma_parse_of_written(
    headers: Seq<(Seq<u8>, Seq<u8>)>,
    blank: Seq<u8>,
    body: Seq<u8>,
)
    requires
        are_header_lines(headers),
        is_blank_line(blank) || (blank.len() == 0 && body.len() == 0),
    ensures
        headers_of(header_block(headers) + blank + body) == headers,
        body_of(header_block(headers) + blank + body) == body,
{
    lemma_headers_from_written(Seq::<u8>::empty(), headers, blank, body);
}

/// Reading a value that no line end closes comes to the end of the message.
proof fn lemma_scan_to_end(msg: Seq<u8>, colon: int, i: int)
    requires
        0 <= colon < i <= msg.len(),
        forall|j: int| i <= j < msg.len() ==> !line_ends_at(msg, j),
    ensures
        scan_value(msg, colon, i) == (HeaderStep::Header {
            name_end: colon,
            value_start: colon + 1,
            next: msg.len() as int,
        }),
    decreases msg.len() - i,
{
    if i < msg.len() {
        lemma_scan_to_end(msg, colon, i + 1);
    }
}

/// A message that is one header line without a line end has that header, its
/// value lacking only the terminator, and an empty body.
pub proof fn lemma_parse_of_unterminated(name: Seq<u8>, value: Seq<u8>)
    requires
        is_header_name(name),
        forall|i: int| 0 <= i < value.len() ==> value[i] != LF,
    ensures
        headers_of(name + seq![COLON] + value) == seq![(name, value)],
        body_of(name + seq![COLON] + value) == Seq::<u8>::empty(),
{
    let msg = name + seq![COLON] + value;
    let colon = name.len() as int;
    let end = msg.len() as int;
    assert forall|j: int| 0 <= j < colon implies msg[j] != COLON && msg[j] != LF by {}
    lemma_scan_over_name(msg, 0, colon, 0);
    assert forall|j: int| colon < j < end implies !line_ends_at(msg, j) by {
        assert(msg[j] == value[j - colon - 1]);
    }
    lemma_scan_to_end(msg, colon, colon + 1);
    assert(msg.subrange(0, colon) =~= name);
    assert(msg.subrange(colon + 1, end) =~= value);
    assert(next_step(msg, end) == (HeaderStep::End { body: end }));
    assert(headers_from(msg, end) =~= Seq::empty());
    assert(headers_of(msg) =~= seq![(name, value)]);
    assert(body_start_from(msg, 0) == body_start_from(msg, end));
    assert(body_of(msg) =~= Seq::<u8>::empty());
}

/// A source of headers followed by a body.
pub trait HeaderStream<'x> {
    /// The headers not yet handed out, in document order.
    spec fn pending(&self) -> Seq<(Seq<u8>, Seq<u8>)>;

    /// The body that follows the headers.
    spec fn rest(&self) -> Seq<u8>;

    /// Whether `next_header` has reported the end of the headers.
    spec fn exhausted(&self) -> bool;

    /// Hands out the next header, or `None` once the header block is over.
    fn next_header(&mut self) -> (r: Option<(&'x [u8], &'x [u8])>)
        ensures
            final(self).rest() == old(self).rest(),
            match r {
                Some((name, value)) => {
                    &&& old(self).pending().len() > 0
                    &&& name@ == old(self).pending()[0].0
                    &&& value@ == old(self).pending()[0].1
                    &&& final(self).pending() == old(self).pending().drop_first()
                },
                None => {
                    &&& old(self).pending().len() == 0
                    &&& final(self).pending().len() == 0
                    &&& final(self).exhausted()
                },
            },
    ;

    /// The body. It is the message's body once the headers are exhausted.
    fn body(&mut self) -> (b: &'x [u8])
        ensures
            old(self).exhausted() ==> b@ == old(self).rest(),
            final(self).pending() == old(self).pending(),
            final(self).rest() == old(self).rest(),
            final(self).exhausted() == old(self).exhausted(),
    ;
}

/// Reads the headers of a message one by one, borrowing from the message.
pub struct HeaderIterator<'x> {
    message: &'x [u8],
    pos: usize,
    done: bool,
}

impl<'x> HeaderIterator<'x> {
    #[verifier::type_invariant]
    spec fn inv(self) -> bool {
        &&& self.pos <= self.message@.len()
        &&& if self.done {
            self.pos == body_offset_of(self.message@)
        } else {
            body_start_from(self.message@, self.pos as int) == body_offset_of(self.message@)
        }
    }

    /// The message that is read.
    pub closed spec fn message(&self) -> Seq<u8> {
        self.message@
    }

    /// The offset of the first byte not read yet.
    pub closed spec fn offset(&self) -> int {
        self.pos as int
    }

    /// Whether the end of the header block has been reported.
    pub closed spec fn finished(&self) -> bool {
        self.done
    }

    /// The headers still to come.
    pub open spec fn remaining(&self) -> Seq<(Seq<u8>, Seq<u8>)> {
        if self.finished() {
            Seq::empty()
        } else {
            headers_from(self.message(), self.offset())
        }
    }

    /// Starts at the first byte of `message`.
    pub fn new(message: &'x [u8]) -> (it: Self)
        ensures
            it.message() == message@,
            it.offset() == 0,
            !it.finished(),
            it.remaining() == headers_of(message@),
            it.pending() == headers_of(message@),
            it.rest() == body_of(message@),
            !it.exhausted(),
    {
        HeaderIterator { message, pos: 0, done: false }
    }

    /// The offset of the first byte not read yet, if there is one. Once the
    /// headers are exhausted this is where the body starts.
    pub fn body_offset(&mut self) -> (r: Option<usize>)
        ensures
            r == if old(self).offset() < old(self).message().len() {
                Some(old(self).offset() as usize)
            } else {
                None
            },
            *final(self) == *old(self),
    {
        if self.pos < self.message.len() {
            Some(self.pos)
        } else {
            None
        }
    }

    /// The next header as its name and its value, both borrowed from the
    /// message, or `None` at the end of the header block. After `None`, the
    /// offset is that of the body and every later call gives `None`.
    pub fn next(&mut self) -> (r: Option<(&'x [u8], &'x [u8])>)
        ensures
            final(self).message() == old(self).message(),
            old(self).finished() ==> r is None && *final(self) == *old(self),
            !old(self).finished() ==> match next_step(old(self).message(), old(self).offset()) {
                HeaderStep::Header { name_end, value_start, next } => {
                    &&& r matches Some((name, value))
                    &&& name@ == old(self).message().subrange(old(self).offset(), name_end)
                    &&& value@ == old(self).message().subrange(value_start, next)
                    &&& final(self).offset() == next
                    &&& !final(self).finished()
                },
                HeaderStep::End { body } => {
                    &&& r is None
                    &&& final(self).offset() == body
                    &&& final(self).finished()
                },
            },
            match r {
                Some((name, value)) => {
                    &&& old(self).remaining().len() > 0
                    &&& name@ == old(self).remaining()[0].0
                    &&& value@ == old(self).remaining()[0].1
                    &&& final(self).remaining() == old(self).remaining().drop_first()
                },
                None => {
                    &&& old(self).remaining().len() == 0
                    &&& final(self).remaining().len() == 0
                    &&& final(self).offset() == body_offset_of(old(self).message())
                },
            },
    {
        proof {
            use_type_invariant(&*self);
        }
        if self.done {
            return None;
        }
        let msg = self.message;
        let len = msg.len();
        let start = self.pos;
        let mut colon: Option<usize> = None;
        let mut i = start;
        proof {
            lemma_scan_name_bounds(msg@, start as int, start as int);
        }
        while i < len
            invariant
                start <= i <= len,
                len == msg@.len(),
                match colon {
                    Some(c) => start <= c < i && next_step(msg@, start as int) == scan_value(
                        msg@,
                        c as int,
                        i as int,
                    ),
                    None => next_step(msg@, start as int) == scan_name(
                        msg@,
                        start as int,
                        i as int,
                    ),
                },
                *self == *old(self),
                !self.done,
                self.message == msg,
                self.pos == start,
                body_start_from(msg@, start as int) == body_offset_of(msg@),
            decreases len - i,
        {
            let ch = msg[i];
            let unfolded = ch == LF && (i + 1 >= len || !byte_is_wsp(msg[i + 1]));
            match colon {
                None => {
                    if ch == COLON {
                        colon = Some(i);
                    } else if ch == LF && (i == start || (i == start + 1 && msg[start] == CR)) {
                        *self = HeaderIterator { message: msg, pos: i + 1, done: true };
                        return None;
                    } else if unfolded {
                        let name = slice_subrange(msg, start, i + 1);
                        let value = slice_subrange(msg, i + 1, i + 1);
                        self.pos = i + 1;
                        return Some((name, value));
                    }
                },
                Some(c) => {
                    if unfolded {
                        let name = slice_subrange(msg, start, c);
                        let value = slice_subrange(msg, c + 1, i + 1);
                        self.pos = i + 1;
                        return Some((name, value));
                    }
                },
            }
            i += 1;
        }
        match colon {
            Some(c) => {
                let name = slice_subrange(msg, start, c);
                let value = slice_subrange(msg, c + 1, len);
                self.pos = len;
                Some((name, value))
            },
            None => {
                *self = HeaderIterator { message: msg, pos: len, done: true };
                None
            },
        }
    }
}

impl<'x> HeaderStream<'x> for HeaderIterator<'x> {
    closed spec fn pending(&self) -> Seq<(Seq<u8>, Seq<u8>)> {
        self.remaining()
    }

    closed spec fn rest(&self) -> Seq<u8> {
        body_of(self.message@)
    }

    closed spec fn exhausted(&self) -> bool {
        self.done
    }

    fn next_header(&mut self) -> (r: Option<(&'x [u8], &'x [u8])>) {
        self.next()
    }

    fn body(&mut self) -> (b: &'x [u8])
        ensures
            b@ == old(self).message().subrange(
                old(self).offset(),
                old(self).message().len() as int,
            ),
            *final(self) == *old(self),
    {
        proof {
            use_type_invariant(&*self);
        }
        slice_subrange(self.message, self.pos, self.message.len())
    }
}

/// A sink for bytes: what is written is appended to what was written before.
pub trait Writer {
    /// All the bytes written so far.
    spec fn written(&self) -> Seq<u8>;

    /// Appends `buf`.
    fn write(&mut self, buf: &[u8])
        ensures
            final(self).written() == old(self).written() + buf@,
    ;

    /// Appends `buf` and adds its length to `len`.
    fn write_len(&mut self, buf: &[u8], len: &mut usize)
        requires
            *old(len) + buf@.len() <= usize::MAX,
        ensures
            final(self).written() == old(self).written() + buf@,
            *final(len) == *old(len) + buf@.len(),
    {
        self.write(buf);
        *len = *len + buf.len();
    }
}

impl Writer for Vec<u8> {
    open spec fn written(&self) -> Seq<u8> {
        self@
    }

    fn write(&mut self, buf: &[u8]) {
        self.extend_from_slice(buf);
        assert forall|i: int| 0 <= i < self@.len() implies self@[i] == (old(self)@ + buf@)[i] by {}
        assert(self.written() =~= old(self).written() + buf@);
    }
}

/// Something that can write itself out as bytes.
pub trait Writable {
    /// The bytes that `write` appends.
    spec fn bytes(&self) -> Seq<u8>;

    /// Appends `bytes()` to `writer`.
    fn write<W: Writer>(self, writer: &mut W)
        ensures
            final(writer).written() == old(writer).written() + self.bytes(),
    ;
}

impl Writable for &[u8] {
    open spec fn bytes(&self) -> Seq<u8> {
        self@
    }

    fn write<W: Writer>(self, writer: &mut W) {
        writer.write(self);
    }
}

/// Something that has a form as a header line of a message.
pub trait HeaderWriter: Sized {
    /// The header line, terminator included.
    spec fn header_bytes(&self) -> Seq<u8>;

    /// Appends the header line to `writer`.
    fn write_header<W: Writer>(&self, writer: &mut W)
        ensures
            final(writer).written() == old(writer).written() + self.header_bytes(),
    ;

    /// The header line as text.
    fn to_header(&self) -> (text: String)
        requires
            valid_utf8(self.header_bytes()),
        ensures
            encode_utf8(text@) == self.header_bytes(),
    {
        let mut buf: Vec<u8> = Vec::new();
        self.write_header(&mut buf);
        let text = str_from_utf8(buf.as_slice());
        text.unwrap().to_owned()
    }
}

} // verus!
