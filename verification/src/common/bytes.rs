//! ASCII byte classes and case folding, as the canonical forms need them.

use vstd::prelude::*;
use vstd::utf8::{
    is_leading_byte_width_1, length_of_first_scalar, pop_first_scalar, valid_first_scalar,
    valid_utf8,
};

verus! {

/// Horizontal tab.
pub const HTAB: u8 = 9;

/// Line feed.
pub const LF: u8 = 10;

/// Form feed.
pub const FF: u8 = 12;

/// Carriage return.
pub const CR: u8 = 13;

/// Space.
pub const SP: u8 = 32;

/// The colon between a header's name and its value.
pub const COLON: u8 = 58;

/// Space or tab: the bytes that may open a continuation line.
pub open spec fn is_wsp(b: u8) -> bool {
    b == SP || b == HTAB
}

/// ASCII whitespace: space, tab, line feed, form feed, carriage return.
pub open spec fn is_whitespace(b: u8) -> bool {
    b == SP || b == HTAB || b == LF || b == FF || b == CR
}

/// The byte with an ASCII capital replaced by its small letter.
pub open spec fn to_lower(b: u8) -> u8 {
    if 65 <= b <= 90 {
        (b + 32) as u8
    } else {
        b
    }
}

/// `to_lower` on every byte.
pub open spec fn lower(s: Seq<u8>) -> Seq<u8> {
    Seq::new(s.len(), |i: int| to_lower(s[i]))
}

/// The two byte strings differ at most in the case of ASCII letters.
pub open spec fn eq_ignore_case(a: Seq<u8>, b: Seq<u8>) -> bool {
    lower(a) == lower(b)
}

/// Whether `b` is a space or a tab.
pub fn byte_is_wsp(b: u8) -> (r: bool)
    ensures
        r == is_wsp(b),
{
    b == SP || b == HTAB
}

/// Whether `b` is ASCII whitespace.
pub fn byte_is_whitespace(b: u8) -> (r: bool)
    ensures
        r == is_whitespace(b),
{
    b == SP || b == HTAB || b == LF || b == FF || b == CR
}

/// The ASCII lower-case form of `b`.
pub fn byte_to_lower(b: u8) -> (r: u8)
    ensures
        r == to_lower(b),
{
    if 65 <= b && b <= 90 {
        b + 32
    } else {
        b
    }
}

/// Compares two byte strings without regard to the case of ASCII letters.
pub fn eq_ignore_ascii_case(a: &[u8], b: &[u8]) -> (r: bool)
    ensures
        r == eq_ignore_case(a@, b@),
{
    if a.len() != b.len() {
        assert(lower(a@).len() != lower(b@).len());
        return false;
    }
    let mut i: usize = 0;
    while i < a.len()
        invariant
            i <= a.len(),
            a.len() == b.len(),
            forall|j: int| 0 <= j < i ==> to_lower(a@[j]) == to_lower(b@[j]),
        decreases a.len() - i,
    {
        if byte_to_lower(a[i]) != byte_to_lower(b[i]) {
            assert(lower(a@)[i as int] != lower(b@)[i as int]);
            return false;
        }
        i += 1;
    }
    assert(lower(a@) =~= lower(b@));
    true
}

/// Text that differs from well-formed UTF-8 only in the case of ASCII letters
/// is well-formed UTF-8 too.
pub proof fn lemma_case_match_keeps_utf8(a: Seq<u8>, b: Seq<u8>)
    requires
        eq_ignore_case(a, b),
        valid_utf8(b),
    ensures
        valid_utf8(a),
    decreases a.len(),
{
    assert(lower(a).len() == lower(b).len());
    assert forall|i: int| 0 <= i < a.len() implies to_lower(a[i]) == to_lower(b[i]) by {
        assert(lower(a)[i] == lower(b)[i]);
    }
    if a.len() > 0 {
        // A scalar of more than one byte holds no ASCII letter: its bytes are
        // the same in both texts.
        if !is_leading_byte_width_1(b[0]) {
            assert forall|i: int| 0 <= i < length_of_first_scalar(b) implies a[i] == b[i] by {}
        }
        let a2 = pop_first_scalar(a);
        let b2 = pop_first_scalar(b);
        assert(lower(a2) =~= lower(b2));
        lemma_case_match_keeps_utf8(a2, b2);
    }
}

} // verus!
