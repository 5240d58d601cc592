use mini_mail_auth::common::bytes::{
    byte_is_whitespace, byte_is_wsp, byte_to_lower, eq_ignore_ascii_case,
};
use mini_mail_auth::common::headers::{HeaderIterator, HeaderStream};

fn collect(message: &[u8]) -> (Vec<(Vec<u8>, Vec<u8>)>, Vec<u8>) {
    let mut it = HeaderIterator::new(message);
    let mut headers = Vec::new();
    while let Some((name, value)) = it.next_header() {
        headers.push((name.to_vec(), value.to_vec()));
    }
    (headers, it.body().to_vec())
}

fn pair(name: &str, value: &str) -> (Vec<u8>, Vec<u8>) {
    (name.as_bytes().to_vec(), value.as_bytes().to_vec())
}

#[test]
fn headers_come_in_document_order_with_their_terminators() {
    let (headers, body) = collect(b"From: a@x\r\nTo: b@x\r\nSubject: hi\r\n\r\nbody\r\n");
    assert_eq!(
        headers,
        vec![pair("From", " a@x\r\n"), pair("To", " b@x\r\n"), pair("Subject", " hi\r\n")]
    );
    assert_eq!(body, b"body\r\n".to_vec());
}

#[test]
fn body_offset_is_where_the_body_starts() {
    let message = b"From: a@x\r\n\r\nbody\r\n";
    let mut it = HeaderIterator::new(message);
    assert_eq!(it.body_offset(), Some(0));
    assert!(it.next().is_some());
    assert_eq!(it.body_offset(), Some(11));
    assert!(it.next().is_none());
    assert_eq!(it.body_offset(), Some(13));
    assert_eq!(&message[13..], b"body\r\n");
}

#[test]
fn body_offset_is_none_at_the_end_of_the_message() {
    let mut it = HeaderIterator::new(b"From: a@x\r\n\r\n");
    while it.next().is_some() {}
    assert_eq!(it.body_offset(), None);
    assert_eq!(it.body(), b"");
    let mut empty = HeaderIterator::new(b"");
    assert_eq!(empty.body_offset(), None);
}

#[test]
fn message_without_blank_line_has_an_empty_body() {
    let (headers, body) = collect(b"From: a@x\r\nTo: b@x\r\n");
    assert_eq!(headers, vec![pair("From", " a@x\r\n"), pair("To", " b@x\r\n")]);
    assert_eq!(body, Vec::<u8>::new());
}

#[test]
fn message_of_a_blank_line_has_no_headers_and_no_body() {
    let (headers, body) = collect(b"\r\n");
    assert!(headers.is_empty());
    assert!(body.is_empty());
    let (headers, body) = collect(b"\n");
    assert!(headers.is_empty());
    assert!(body.is_empty());
}

#[test]
fn empty_message_has_no_headers_and_no_body() {
    let (headers, body) = collect(b"");
    assert!(headers.is_empty());
    assert!(body.is_empty());
}

#[test]
fn blank_line_at_the_start_leaves_all_to_the_body() {
    let (headers, body) = collect(b"\r\nFrom: a@x\r\n");
    assert!(headers.is_empty());
    assert_eq!(body, b"From: a@x\r\n".to_vec());
}

#[test]
fn bare_line_feed_ends_a_header_and_is_kept_in_the_value() {
    let (headers, body) = collect(b"From: a@x\nTo: b@x\n\nbody\n");
    assert_eq!(headers, vec![pair("From", " a@x\n"), pair("To", " b@x\n")]);
    assert_eq!(body, b"body\n".to_vec());
}

#[test]
fn continuation_lines_belong_to_the_value() {
    let (headers, body) =
        collect(b"Subject: one\r\n two\r\n\tthree\r\nTo: b@x\r\n\r\nbody");
    assert_eq!(
        headers,
        vec![pair("Subject", " one\r\n two\r\n\tthree\r\n"), pair("To", " b@x\r\n")]
    );
    assert_eq!(body, b"body".to_vec());
}

#[test]
fn value_may_hold_colons() {
    let (headers, _) = collect(b"Date: 12:30:00\r\n\r\n");
    assert_eq!(headers, vec![pair("Date", " 12:30:00\r\n")]);
}

#[test]
fn line_without_colon_is_a_name_with_an_empty_value() {
    let (headers, body) = collect(b"From: a@x\nnonsense\nTo: b@x\n\nbody");
    assert_eq!(
        headers,
        vec![pair("From", " a@x\n"), pair("nonsense\n", ""), pair("To", " b@x\n")]
    );
    assert_eq!(body, b"body".to_vec());
}

#[test]
fn line_without_colon_goes_on_over_a_continuation() {
    let (headers, _) = collect(b"odd\n name: v\n\n");
    assert_eq!(headers, vec![pair("odd\n name", " v\n")]);
}

#[test]
fn line_without_colon_that_ends_in_crlf_is_a_name_too() {
    let (headers, body) = collect(b"From: a@x\r\nnonsense\r\nTo: b@x\r\n\r\nbody");
    assert_eq!(
        headers,
        vec![pair("From", " a@x\r\n"), pair("nonsense\r\n", ""), pair("To", " b@x\r\n")]
    );
    assert_eq!(body, b"body".to_vec());
    let (headers, body) = collect(b"X\r\nA: b\r\n\r\n");
    assert_eq!(headers, vec![pair("X\r\n", ""), pair("A", " b\r\n")]);
    assert!(body.is_empty());
}

#[test]
fn only_an_empty_line_closes_the_headers() {
    let (headers, body) = collect(b"A: b\r\n\r\nbody");
    assert_eq!(headers, vec![pair("A", " b\r\n")]);
    assert_eq!(body, b"body".to_vec());
    let (headers, body) = collect(b"A: b\n\r\nbody");
    assert_eq!(headers, vec![pair("A", " b\n")]);
    assert_eq!(body, b"body".to_vec());
    let (headers, body) = collect(b"A: b\r\nx\r\r\nB: c\r\n\r\nbody");
    assert_eq!(
        headers,
        vec![pair("A", " b\r\n"), pair("x\r\r\n", ""), pair("B", " c\r\n")]
    );
    assert_eq!(body, b"body".to_vec());
}

#[test]
fn last_header_without_terminator_lacks_only_the_terminator() {
    let (headers, body) = collect(b"From: a");
    assert_eq!(headers, vec![pair("From", " a")]);
    assert!(body.is_empty());
    let (headers, body) = collect(b"From: a@x\r\nTo: b@x");
    assert_eq!(headers, vec![pair("From", " a@x\r\n"), pair("To", " b@x")]);
    assert!(body.is_empty());
    let (headers, body) = collect(b"From: a@x\r\nTo:");
    assert_eq!(headers, vec![pair("From", " a@x\r\n"), pair("To", "")]);
    assert!(body.is_empty());
    let (headers, body) = collect(b"Subject: one\r\n two");
    assert_eq!(headers, vec![pair("Subject", " one\r\n two")]);
    assert!(body.is_empty());
}

#[test]
fn offset_after_a_last_header_without_terminator() {
    let mut it = HeaderIterator::new(b"From: a");
    assert_eq!(it.next(), Some((&b"From"[..], &b" a"[..])));
    assert_eq!(it.body_offset(), None);
    assert_eq!(it.next(), None);
    assert_eq!(it.next(), None);
    assert_eq!(it.body(), b"");
}

#[test]
fn last_line_without_colon_and_terminator_is_no_header() {
    let (headers, body) = collect(b"From: a@x\r\njunk");
    assert_eq!(headers, vec![pair("From", " a@x\r\n")]);
    assert!(body.is_empty());
    let (headers, body) = collect(b"junk");
    assert!(headers.is_empty());
    assert!(body.is_empty());
}

#[test]
fn no_header_comes_after_the_end_of_the_headers() {
    let mut it = HeaderIterator::new(b"From: a@x\r\n\r\nTo: b@x\r\n\r\n");
    assert!(it.next().is_some());
    assert!(it.next().is_none());
    assert!(it.next().is_none());
    assert!(it.next_header().is_none());
    assert_eq!(it.body(), b"To: b@x\r\n\r\n");
}

#[test]
fn body_before_the_headers_are_read_is_the_rest_of_the_message() {
    let mut it = HeaderIterator::new(b"From: a@x\r\n\r\nbody");
    assert_eq!(it.body(), b"From: a@x\r\n\r\nbody");
    assert!(it.next().is_some());
    assert_eq!(it.body(), b"\r\nbody");
}

#[test]
fn byte_classes() {
    assert!(byte_is_wsp(b' '));
    assert!(byte_is_wsp(b'\t'));
    assert!(!byte_is_wsp(b'\n'));
    for b in [b' ', b'\t', b'\n', b'\r', 0x0c] {
        assert!(byte_is_whitespace(b));
    }
    assert!(!byte_is_whitespace(0x0b));
    assert!(!byte_is_whitespace(b'a'));
    for b in 0..=255u8 {
        assert_eq!(byte_is_whitespace(b), b.is_ascii_whitespace());
        assert_eq!(byte_to_lower(b), b.to_ascii_lowercase());
    }
}

#[test]
fn names_are_compared_without_case() {
    assert!(eq_ignore_ascii_case(b"From", b"fROM"));
    assert!(eq_ignore_ascii_case(b"", b""));
    assert!(!eq_ignore_ascii_case(b"From", b"Fro"));
    assert!(!eq_ignore_ascii_case(b"From", b"Frum"));
    assert!(!eq_ignore_ascii_case(b"a[", b"a{"));
    assert!(eq_ignore_ascii_case("Héllo".as_bytes(), "hÉllo".as_bytes()) == false);
    assert!(eq_ignore_ascii_case("HéLLo".as_bytes(), "héllo".as_bytes()));
}

#[test]
fn sample_messages() {
    let samples: Vec<(&[u8], Vec<(&[u8], &[u8])>, &[u8])> = vec![
        (b"\t:\n\t\n::\n \r\n", vec![(b"\t", b"\n\t\n"), (b"", b":\n \r\n")], b""),
        (b" B\rB \n ", vec![], b""),
        (b"\n a:\n ", vec![], b" a:\n "),
        (b":\r:\t  \t\n B", vec![(b"", b"\r:\t  \t\n B")], b""),
        (b"\r\n :\n\n\n\n\naB\t\n\t", vec![], b" :\n\n\n\n\naB\t\n\t"),
        (b"\n\t\ta\na:\n\t\n", vec![], b"\t\ta\na:\n\t\n"),
        (b"::a\n\n\tB\t:", vec![(b"", b":a\n")], b"\tB\t:"),
        (b"\t ", vec![], b""),
        (b"a: \n\r\nB:\n\t\n\tB", vec![(b"a", b" \n")], b"B:\n\t\n\tB"),
        (b":\r\r\ta ", vec![(b"", b"\r\r\ta ")], b""),
        (b"B\n\rB:\r\r\n  a\n:B", vec![(b"B\n", b""), (b"\rB", b"\r\r\n  a\n"), (b"", b"B")], b""),
        (
            b":\t \r\t\nB\n\t\n:\t:a",
            vec![(b"", b"\t \r\t\n"), (b"B\n\t\n", b""), (b"", b"\t:a")],
            b"",
        ),
        (b"\n\ra: ", vec![], b"\ra: "),
        (b":", vec![(b"", b"")], b""),
        (b"B::\t  aa\n", vec![(b"B", b":\t  aa\n")], b""),
        (b"\n\tB: \n  a\n", vec![], b"\tB: \n  a\n"),
        (b"\r a \n\n\n\tB \n\n\t", vec![(b"\r a \n", b"")], b"\n\tB \n\n\t"),
        (b"B:BB \nB\t:\n\tB", vec![(b"B", b"BB \n"), (b"B\t", b"\n\tB")], b""),
        (b"\r\n\na\n\r:a \ta", vec![], b"\na\n\r:a \ta"),
        (b" B\na\t", vec![(b" B\n", b"")], b""),
        (b"\r\r\n\na\n\r:: :\n\n", vec![(b"\r\r\n", b"")], b"a\n\r:: :\n\n"),
        (b"::\t", vec![(b"", b":\t")], b""),
        (b"\n\t\n\nB \n\rB:\naB\n", vec![], b"\t\n\nB \n\rB:\naB\n"),
        (b"\n\ra:\r ", vec![], b"\ra:\r "),
        (b"\n\n :aB \r:a", vec![], b"\n :aB \r:a"),
        (b"a\n\n", vec![(b"a\n", b"")], b""),
        (b":B\nB\t\t\r \t:", vec![(b"", b"B\n"), (b"B\t\t\r \t", b"")], b""),
        (b"\n\rB\n", vec![], b"\rB\n"),
        (b" a::B: \t \n\nB", vec![(b" a", b":B: \t \n")], b"B"),
        (b"a", vec![], b""),
        (b"\n", vec![], b""),
        (b"\t:a\n", vec![(b"\t", b"a\n")], b""),
        (b"a\n", vec![(b"a\n", b"")], b""),
        (b"\t\t \r\r\tB\r", vec![], b""),
        (b"::B\tB:\n:", vec![(b"", b":B\tB:\n"), (b"", b"")], b""),
        (b"\t\n", vec![(b"\t\n", b"")], b""),
        (b"\t\n\r:B:\n:", vec![(b"\t\n", b""), (b"\r", b"B:\n"), (b"", b"")], b""),
        (b"\n\r\na::a\r\rBB\n\n\t", vec![], b"\r\na::a\r\rBB\n\n\t"),
        (b":\r\n\t\n:\n\n\t:\r:\n ", vec![(b"", b"\r\n\t\n"), (b"", b"\n")], b"\t:\r:\n "),
        (b"\na\n\nB\n\t\n", vec![], b"a\n\nB\n\t\n"),
        (b"a\r\r: \ta\n:\tB\na\r", vec![(b"a\r\r", b" \ta\n"), (b"", b"\tB\n")], b""),
        (b"B:\n \n::\n\nB\ra\t\r", vec![(b"B", b"\n \n"), (b"", b":\n")], b"B\ra\t\r"),
        (b"\r", vec![], b""),
        (b"\t\n B\t\ra", vec![], b""),
        (b"\r\t\t", vec![], b""),
        (b"\n\n\n\na\n\n\t:\na\t", vec![], b"\n\n\na\n\n\t:\na\t"),
        (b"a \n:a", vec![(b"a \n", b""), (b"", b"a")], b""),
        (b"B:\nBaB\na\r", vec![(b"B", b"\n"), (b"BaB\n", b"")], b""),
    ];
    for (message, headers, body) in samples {
        let (found, rest) = collect(message);
        let expected: Vec<(Vec<u8>, Vec<u8>)> =
            headers.iter().map(|(n, v)| (n.to_vec(), v.to_vec())).collect();
        assert_eq!(found, expected, "headers of {:?}", message);
        assert_eq!(rest, body.to_vec(), "body of {:?}", message);
    }
}
