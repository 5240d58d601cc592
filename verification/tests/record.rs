use mini_mail_auth::common::crypto::Algorithm;
use mini_mail_auth::common::headers::{HeaderIterator, HeaderWriter};
use mini_mail_auth::dkim::{Canonicalization, Signature};

fn record() -> Signature {
    Signature {
        v: 1,
        a: Algorithm::RsaSha256,
        d: "example.com".to_string(),
        s: "sel".to_string(),
        b: (0..172).map(|i| b'A' + (i % 26) as u8).collect(),
        bh: b"Ck5SoRNWUpSR4X0COv7R5ub2pUTtl6xz4dTFz++ji4M=".to_vec(),
        h: vec!["Subject".to_string(), "To".to_string(), "From".to_string()],
        l: 0,
        t: 1700000000,
        ch: Canonicalization::Relaxed,
        cb: Canonicalization::Relaxed,
    }
}

fn text(sig: &Signature, as_header: bool) -> String {
    let mut out = Vec::new();
    sig.write(&mut out, as_header);
    String::from_utf8(out).unwrap()
}

#[test]
fn default_record_is_empty() {
    let sig = Signature::default();
    assert_eq!(sig.v, 0);
    assert_eq!(sig.a, Algorithm::RsaSha256);
    assert!(sig.d.is_empty() && sig.s.is_empty() && sig.h.is_empty());
    assert!(sig.b.is_empty() && sig.bh.is_empty());
    assert_eq!((sig.l, sig.t), (0, 0));
    assert_eq!(sig.ch, Canonicalization::Relaxed);
    assert_eq!(sig.cb, Canonicalization::Relaxed);
}

#[test]
fn header_line() {
    assert_eq!(
        record().to_header(),
        "DKIM-Signature: v=1; a=rsa-sha256; s=sel; d=example.com; c=relaxed/relaxed;\r\n\
\th=Subject:To:From; t=1700000000; bh=Ck5SoRNWUpSR4X0COv7R5ub2pUTtl6xz4dTFz++\r\n\
\tji4M=; b=ABCDEFGHIJKLMNOPQRSTUVWXYZABCDEFGHIJKLMNOPQRSTUVWXYZABCDEFGHIJKLMN\r\n\
\tOPQRSTUVWXYZABCDEFGHIJKLMNOPQRSTUVWXYZABCDEFGHIJKLMNOPQRSTUVWXYZABCDEFGHIJK\r\n\
\tLMNOPQRSTUVWXYZABCDEFGHIJKLMNOP;\r\n"
    );
}

#[test]
fn header_line_is_what_write_header_writes() {
    let mut out = b"seen before\r\n".to_vec();
    record().write_header(&mut out);
    assert_eq!(String::from_utf8(out).unwrap(), format!("seen before\r\n{}", record().to_header()));
    assert_eq!(text(&record(), true), record().to_header());
}

#[test]
fn no_line_of_the_header_is_longer_than_the_limit() {
    for line in record().to_header().split("\r\n") {
        assert!(line.len() <= 76);
    }
}

#[test]
fn signed_form_under_relaxed_canonicalization() {
    assert_eq!(
        text(&record(), false),
        "dkim-signature:v=1; a=rsa-sha256; s=sel; d=example.com; c=relaxed/relaxed; \
h=Subject:To:From; t=1700000000; bh=Ck5SoRNWUpSR4X0COv7R5ub2pUTtl6xz4dTFz++ ji4M=; \
b=ABCDEFGHIJKLMNOPQRSTUVWXYZABCDEFGHIJKLMNOPQRSTUVWXYZABCDEFGHIJKLMN \
OPQRSTUVWXYZABCDEFGHIJKLMNOPQRSTUVWXYZABCDEFGHIJKLMNOPQRSTUVWXYZABCDEFGHIJK \
LMNOPQRSTUVWXYZABCDEFGHIJKLMNOP;"
    );
}

#[test]
fn signed_form_under_simple_canonicalization() {
    let sig = Signature { ch: Canonicalization::Simple, l: 6, b: Vec::new(), ..record() };
    assert_eq!(
        text(&sig, false),
        "DKIM-Signature: v=1; a=rsa-sha256; s=sel; d=example.com; c=simple/relaxed;\r\n\
\th=Subject:To:From; t=1700000000; l=6; bh=Ck5SoRNWUpSR4X0COv7R5ub2pUTtl6xz4d\r\n\
\tTFz++ji4M=; b=;"
    );
    assert_eq!(text(&sig, true), format!("{}\r\n", text(&sig, false)));
}

#[test]
fn long_lists_of_names_are_folded_between_names() {
    let names = (0..6).map(|i| format!("X-Header-Number-{:02}", i)).collect();
    let sig = Signature { h: names, b: Vec::new(), bh: b"abcd".to_vec(), t: 0, l: 0, ..record() };
    assert_eq!(
        sig.to_header(),
        "DKIM-Signature: v=1; a=rsa-sha256; s=sel; d=example.com; c=relaxed/relaxed;\r\n\
\th=X-Header-Number-00:X-Header-Number-01:X-Header-Number-02\r\n\
\t:X-Header-Number-03:X-Header-Number-04:X-Header-Number-05; bh=abcd; b=;\r\n"
    );
}

#[test]
fn number_tags_are_folded_as_a_whole() {
    let sig = Signature {
        h: vec!["A".repeat(60)],
        b: Vec::new(),
        bh: Vec::new(),
        t: 1234567890,
        l: 12,
        ..record()
    };
    assert_eq!(
        sig.to_header(),
        format!(
            "DKIM-Signature: v=1; a=rsa-sha256; s=sel; d=example.com; c=relaxed/relaxed;\r\n\
\th={};\r\n\tt=1234567890; l=12; bh=; b=;\r\n",
            "A".repeat(60)
        )
    );
}

#[test]
fn zero_time_and_length_are_left_out() {
    let sig = Signature { t: 0, l: 0, b: Vec::new(), bh: Vec::new(), ..record() };
    assert_eq!(
        sig.to_header(),
        "DKIM-Signature: v=1; a=rsa-sha256; s=sel; d=example.com; c=relaxed/relaxed;\r\n\
\th=Subject:To:From; bh=; b=;\r\n"
    );
}

#[test]
fn record_without_names_has_no_names_tag() {
    let sig = Signature { h: Vec::new(), t: 0, b: Vec::new(), bh: Vec::new(), ..record() };
    assert_eq!(
        sig.to_header(),
        "DKIM-Signature: v=1; a=rsa-sha256; s=sel; d=example.com; c=relaxed/relaxed;\r\n\
\t; bh=; b=;\r\n"
    );
}

#[test]
fn text_outside_ascii_is_kept() {
    let sig = Signature {
        d: "exämple.com".to_string(),
        h: vec!["Sujét".to_string()],
        t: 0,
        b: Vec::new(),
        bh: Vec::new(),
        ..record()
    };
    assert_eq!(
        sig.to_header(),
        "DKIM-Signature: v=1; a=rsa-sha256; s=sel; d=exämple.com; c=relaxed/relaxed;\r\n\
\th=Sujét; bh=; b=;\r\n"
    );
}

#[test]
fn signed_form_is_the_relaxed_form_of_the_header_line() {
    let records = [
        record(),
        Signature { b: Vec::new(), ..record() },
        Signature { l: 77, cb: Canonicalization::Simple, ..record() },
        Signature { h: (0..9).map(|i| format!("X-Header-Number-{:02}", i)).collect(), ..record() },
    ];
    for sig in records {
        let line = sig.to_header();
        let mut it = HeaderIterator::new(line.as_bytes());
        let (name, value) = it.next().unwrap();
        assert!(it.next().is_none());
        let mut relaxed = Vec::new();
        Canonicalization::Relaxed.canonicalize_header(name, value, &mut relaxed);
        assert_eq!(String::from_utf8(relaxed).unwrap(), format!("{}\r\n", text(&sig, false)));
    }
}

#[test]
fn signed_form_is_the_header_line_under_simple_canonicalization() {
    let sig = Signature { ch: Canonicalization::Simple, ..record() };
    let line = sig.to_header();
    let mut it = HeaderIterator::new(line.as_bytes());
    let (name, value) = it.next().unwrap();
    let mut simple = Vec::new();
    Canonicalization::Simple.canonicalize_header(name, value, &mut simple);
    assert_eq!(String::from_utf8(simple).unwrap(), format!("{}\r\n", text(&sig, false)));
    assert_eq!(line, format!("{}\r\n", text(&sig, false)));
}
