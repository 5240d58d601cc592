use mini_mail_auth::common::headers::{HeaderIterator, Writable};
use mini_mail_auth::dkim::{Canonicalization, Signature};

fn body(mode: Canonicalization, body: &[u8]) -> Vec<u8> {
    let mut out = Vec::new();
    mode.canonical_body(body, 0).write(&mut out);
    out
}

fn header(mode: Canonicalization, name: &[u8], value: &[u8]) -> Vec<u8> {
    let mut out = Vec::new();
    mode.canonicalize_header(name, value, &mut out);
    out
}

fn template(names: &[&str]) -> Signature {
    Signature { h: names.iter().map(|n| n.to_string()).collect(), ..Signature::default() }
}

#[test]
fn empty_body_is_empty_in_both_forms() {
    assert_eq!(body(Canonicalization::Simple, b""), b"");
    assert_eq!(body(Canonicalization::Relaxed, b""), b"");
}

#[test]
fn body_of_line_terminators_is_empty() {
    assert_eq!(body(Canonicalization::Simple, b"\r\n"), b"");
    assert_eq!(body(Canonicalization::Simple, b"\r\n\r\n\n\r\n"), b"");
    assert_eq!(body(Canonicalization::Relaxed, b"\r\n\r\n\n"), b"");
}

#[test]
fn body_of_blank_lines_is_empty_when_relaxed() {
    assert_eq!(body(Canonicalization::Relaxed, b" "), b"");
    assert_eq!(body(Canonicalization::Relaxed, b" \t\r\n \r\n"), b"");
}

#[test]
fn simple_body_keeps_one_terminator() {
    assert_eq!(body(Canonicalization::Simple, b"body\r\n"), b"body\r\n");
    assert_eq!(body(Canonicalization::Simple, b"body"), b"body\r\n");
    assert_eq!(body(Canonicalization::Simple, b"body\r\n\r\n\r\n"), b"body\r\n");
}

#[test]
fn simple_body_keeps_spaces_and_inner_empty_lines() {
    assert_eq!(
        body(Canonicalization::Simple, b" C \r\nD \t E\r\n\r\n\r\n"),
        b" C \r\nD \t E\r\n"
    );
    assert_eq!(body(Canonicalization::Simple, b"a\r\n\r\nb \r\n"), b"a\r\n\r\nb \r\n");
    assert_eq!(body(Canonicalization::Simple, b" \r\n"), b" \r\n");
}

#[test]
fn line_ends_become_crlf() {
    assert_eq!(body(Canonicalization::Simple, b"a\nb\n"), b"a\r\nb\r\n");
    assert_eq!(body(Canonicalization::Relaxed, b"a\nb\n"), b"a\r\nb\r\n");
    assert_eq!(body(Canonicalization::Simple, b"a\rb"), b"ab\r\n");
}

#[test]
fn relaxed_body_collapses_spaces() {
    assert_eq!(
        body(Canonicalization::Relaxed, b" C \r\nD \t E\r\n\r\n\r\n"),
        b" C\r\nD E\r\n"
    );
    assert_eq!(body(Canonicalization::Relaxed, b"a  b\t\tc"), b"a b c\r\n");
}

#[test]
fn relaxed_body_drops_spaces_at_line_ends() {
    assert_eq!(body(Canonicalization::Relaxed, b"a \t \r\nb\r\n"), b"a\r\nb\r\n");
    assert_eq!(body(Canonicalization::Relaxed, b"a \r\n \r\nb"), b"a\r\n\r\nb\r\n");
}

#[test]
fn relaxed_body_drops_blank_lines_at_the_end() {
    assert_eq!(body(Canonicalization::Relaxed, b"a\r\n \r\n\t\r\n"), b"a\r\n");
    assert_eq!(body(Canonicalization::Relaxed, b"body\r\n"), b"body\r\n");
}

#[test]
fn canonical_body_is_canonical() {
    let bodies: [&[u8]; 8] = [
        b"",
        b"body\r\n",
        b"a \r\n \r\n\r\n",
        b" C \r\nD \t E\r\n\r\n\r\n",
        b"x\n\n y  z \n",
        b"a\rb \r c",
        b"\r\n\r\nlate",
        b" lead\r\n\r\n  more\r\n",
    ];
    for mode in [Canonicalization::Relaxed, Canonicalization::Simple] {
        for b in bodies {
            let once = body(mode, b);
            assert_eq!(body(mode, &once), once);
        }
    }
}

#[test]
fn body_is_cut_to_the_length_given() {
    let mut out = Vec::new();
    Canonicalization::Simple.canonical_body(b"abcdef", 3).write(&mut out);
    assert_eq!(out, b"abc\r\n");
    let mut out = Vec::new();
    Canonicalization::Simple.canonical_body(b"abcdef", 100).write(&mut out);
    assert_eq!(out, b"abcdef\r\n");
    let mut out = Vec::new();
    Canonicalization::Simple.canonical_body(b"abcdef", u64::MAX).write(&mut out);
    assert_eq!(out, b"abcdef\r\n");
}

#[test]
fn simple_header_is_unchanged() {
    assert_eq!(
        header(Canonicalization::Simple, b"SubJect", b"  a \t b \r\n"),
        b"SubJect:  a \t b \r\n"
    );
    assert_eq!(header(Canonicalization::Simple, b"odd\n", b""), b"odd\n:");
}

#[test]
fn relaxed_header_has_a_small_name_and_single_spaces() {
    assert_eq!(header(Canonicalization::Relaxed, b"A", b" X\r\n"), b"a:X\r\n");
    assert_eq!(header(Canonicalization::Relaxed, b"B ", b" Y\t\r\n\tZ  \r\n"), b"b:Y Z\r\n");
    assert_eq!(
        header(Canonicalization::Relaxed, b"SubJect", b"  a \t b \r\n"),
        b"subject:a b\r\n"
    );
}

#[test]
fn relaxed_header_ends_in_crlf_only_after_a_line_feed() {
    assert_eq!(header(Canonicalization::Relaxed, b"To", b" x\n"), b"to:x\r\n");
    assert_eq!(header(Canonicalization::Relaxed, b"To", b" x"), b"to:x");
    assert_eq!(header(Canonicalization::Relaxed, b"odd\n", b""), b"odd:");
    assert_eq!(header(Canonicalization::Relaxed, b"To", b"\r\n"), b"to:\r\n");
}

#[test]
fn folded_header_is_that_header_on_one_line() {
    let folded = header(Canonicalization::Relaxed, b"Subject", b" one\r\n two\r\n\tthree\r\n");
    let flat = header(Canonicalization::Relaxed, b"Subject", b" one two\tthree\r\n");
    assert_eq!(folded, b"subject:one two three\r\n");
    assert_eq!(folded, flat);
    let bare = header(Canonicalization::Relaxed, b"Subject", b" one\n two\n\tthree\r\n");
    assert_eq!(bare, flat);
}

#[test]
fn headers_are_written_in_the_order_given() {
    let headers: Vec<(&[u8], &[u8])> = vec![(b"From", b" a\r\n"), (b"To", b" b\r\n")];
    let mut out = Vec::new();
    Canonicalization::Relaxed.canonicalize_headers(&headers, &mut out);
    assert_eq!(out, b"from:a\r\nto:b\r\n");
    let mut out = Vec::new();
    Canonicalization::Simple.canonicalize_headers(&headers, &mut out);
    assert_eq!(out, b"From: a\r\nTo: b\r\n");
}

#[test]
fn signed_headers_are_written_last_first() {
    let headers: Vec<(&[u8], &[u8])> = vec![(b"From", b" a\r\n"), (b"To", b" b\r\n")];
    let canonical = Canonicalization::Relaxed.canonical_headers(headers);
    assert_eq!(canonical.len(), 2);
    let mut out = Vec::new();
    canonical.write(&mut out);
    assert_eq!(out, b"to:b\r\nfrom:a\r\n");
}

#[test]
fn names_of_canonicalizations() {
    let mut out = Vec::new();
    Canonicalization::Relaxed.serialize_name(&mut out);
    out.push(b'/');
    Canonicalization::Simple.serialize_name(&mut out);
    assert_eq!(out, b"relaxed/simple");
    assert_eq!(Canonicalization::default(), Canonicalization::Relaxed);
}

#[test]
fn requested_headers_are_chosen_without_regard_to_case() {
    let message = b"FROM: a@x\r\nX-Other: o\r\nto: b@x\r\nSubject: hi\r\n\r\nbody\r\n";
    let sig = template(&["From", "To", "Subject"]);
    let (body_len, headers, names, body) = sig.canonicalize(HeaderIterator::new(message));
    assert_eq!(body_len, 6);
    assert_eq!(names, vec!["Subject", "to", "FROM"]);
    let mut out = Vec::new();
    headers.write(&mut out);
    assert_eq!(out, b"subject:hi\r\nto:b@x\r\nfrom:a@x\r\n");
    let mut out = Vec::new();
    body.write(&mut out);
    assert_eq!(out, b"body\r\n");
}

#[test]
fn absent_names_are_recorded_after_the_headers_found() {
    let message = b"To: b@x\r\nFrom: a@x\r\n\r\n";
    let sig = template(&["From", "Date", "To", "Cc"]);
    let (body_len, headers, names, _) = sig.canonicalize(HeaderIterator::new(message));
    assert_eq!(body_len, 0);
    assert_eq!(names, vec!["From", "To", "Date", "Cc"]);
    assert_eq!(headers.len(), 2);
}

#[test]
fn every_header_of_a_requested_name_is_signed() {
    let message = b"Received: one\r\nReceived: two\r\nFrom: a@x\r\n\r\n";
    let sig = template(&["Received", "Received", "From"]);
    let (_, headers, names, _) = sig.canonicalize(HeaderIterator::new(message));
    assert_eq!(names, vec!["From", "Received", "Received", "Received"]);
    let mut out = Vec::new();
    headers.write(&mut out);
    assert_eq!(out, b"from:a@x\r\nreceived:two\r\nreceived:one\r\n");
}

#[test]
fn name_requested_twice_and_present_once() {
    let message = b"From: a@x\r\n\r\nbody";
    let sig = template(&["From", "From"]);
    let (_, headers, names, _) = sig.canonicalize(HeaderIterator::new(message));
    assert_eq!(names, vec!["From", "From"]);
    assert_eq!(headers.len(), 1);
    let mut out = Vec::new();
    headers.write(&mut out);
    assert_eq!(out, b"from:a@x\r\n");
}

#[test]
fn nothing_is_chosen_where_no_requested_header_is_present() {
    let message = b"X-One: 1\r\nX-Two: 2\r\n\r\nbody";
    let sig = template(&["From", "To"]);
    let (_, headers, names, _) = sig.canonicalize(HeaderIterator::new(message));
    assert_eq!(headers.len(), 0);
    assert_eq!(names, vec!["From", "To"]);
}

#[test]
fn body_length_is_that_of_the_canonical_body() {
    let message = b"From: a@x\r\n\r\nline  one \nline two\n\n\n";
    let mut sig = template(&["From"]);
    sig.cb = Canonicalization::Relaxed;
    let (body_len, _, _, _) = sig.canonicalize(HeaderIterator::new(message));
    assert_eq!(body_len, b"line one\r\nline two\r\n".len());
    sig.cb = Canonicalization::Simple;
    let (body_len, _, _, _) = sig.canonicalize(HeaderIterator::new(message));
    assert_eq!(body_len, b"line  one \r\nline two\r\n".len());
}

#[test]
fn body_takes_its_own_canonicalization() {
    let message = b"From:  a@x\r\n\r\na  b\r\n";
    let mut sig = template(&["From"]);
    sig.ch = Canonicalization::Simple;
    sig.cb = Canonicalization::Relaxed;
    let (_, headers, _, body) = sig.canonicalize(HeaderIterator::new(message));
    let mut out = Vec::new();
    headers.write(&mut out);
    assert_eq!(out, b"From:  a@x\r\n");
    let mut out = Vec::new();
    body.write(&mut out);
    assert_eq!(out, b"a b\r\n");
}

#[test]
fn names_outside_ascii_are_matched_and_recorded() {
    let message = "Sujét: x\r\n\r\n".as_bytes();
    let sig = template(&["sujét"]);
    let (_, headers, names, _) = sig.canonicalize(HeaderIterator::new(message));
    assert_eq!(headers.len(), 1);
    assert_eq!(names, vec!["Sujét"]);
}

#[test]
fn sample_headers_in_relaxed_form() {
    let samples: Vec<(&[u8], &[u8], &[u8])> = vec![
        (b"Z", b"\tZ\n\r aZaa", b"z:Z aZaa"),
        (b"Z", b" \r", b"z:"),
        (b" ", b"", b":"),
        (b"aa", b"Z", b"aa:Z"),
        (b"--\t", b"", b"--:"),
        (b"\tZ", b"", b"z:"),
        (b"", b"\x0c \x0ca\n-a\n", b":a-a\r\n"),
        (b"", b"-a-\x0caZ", b":-a-aZ"),
        (b" Z\t-", b"a\r-Z- \x0cZ\n\r", b"z-:a-Z-Z"),
        (b"\t-", b"\t\x0c", b"-:"),
        (b"", b" \na\n\n\x0c-Z", b":a-Z"),
        (b"", b"", b":"),
        (b"-aaZ", b"\x0c\x0cZ--\r \r Z", b"-aaz:Z-- Z"),
        (b"- \t", b" a\x0c-Z ", b"-:a-Z"),
        (b"", b"a", b":a"),
        (b"", b"\r-\x0c \t-Z\x0cZ ", b":- -ZZ"),
        (b"a", b"\r \r", b"a:"),
        (b" ", b"a\t\x0c\x0c", b":a"),
        (b"Z-", b"Z\naZ\n a\r", b"z-:ZaZ a"),
        (b"", b"Z\n\n-\t", b":Z-"),
        (b"\t  ", b"\n\taZa\r", b":aZa"),
        (b"Z", b"-\t\t \na", b"z:-a"),
        (b"-", b"\t -", b"-:-"),
        (b"-a", b"a\x0c", b"-a:a"),
        (b"", b"Za\x0c\t\rZ \n\x0c", b":ZaZ"),
        (b"", b"\ra\t\n\x0c\raaZ\r", b":aaaZ"),
        (b"ZZ", b"Z  \n\r-\r\rZ\r", b"zz:Z-Z"),
        (b"-\t", b"\r", b"-:"),
        (b"-a ", b"aaaZ\n\r-\n-", b"-a:aaaZ--"),
        (b"", b"-\n", b":-\r\n"),
        (b"a\t\t", b"aZ -a\tZa-a", b"a:aZ -a Za-a"),
        (b"-ZZ", b"a\n--\nZaa", b"-zz:a--Zaa"),
        (b"\t", b"aa    \x0c a", b":aa a"),
        (b"\t", b" ", b":"),
        (b"", b"\tZ \n-\x0c", b":Z-"),
        (b"\t ", b" \r-\n-\x0c", b":--"),
        (b"\ta\t ", b"-", b"a:-"),
        (b"a ZZ", b"\rZ\n", b"azz:Z\r\n"),
        (b"\t-", b"- ", b"-:-"),
        (b"\t", b"", b":"),
    ];
    for (name, value, expected) in samples {
        assert_eq!(
            header(Canonicalization::Relaxed, name, value),
            expected.to_vec(),
            "relaxed form of {:?}: {:?}",
            name,
            value
        );
        let mut simple = name.to_vec();
        simple.push(b':');
        simple.extend_from_slice(value);
        assert_eq!(header(Canonicalization::Simple, name, value), simple);
    }
}

#[test]
fn last_header_without_terminator_is_chosen() {
    let sig = template(&["From"]);
    let (body_len, headers, names, _) = sig.canonicalize(HeaderIterator::new(b"From: a"));
    assert_eq!(body_len, 0);
    assert_eq!(names, vec!["From"]);
    let mut out = Vec::new();
    headers.write(&mut out);
    assert_eq!(out, b"from:a");
}
