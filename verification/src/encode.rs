//! The provider's percent-encoding scheme. It deviates from standard
//! form-encoding in exactly three ways: a space is rendered `%20` (never
//! `+`), a literal `*` is rendered `%2A`, and `~` stays literal (where the
//! standard encoder would emit `%7E`). The net effect, proved here against
//! an exact byte-level specification: ASCII alphanumerics and `-` `.` `_`
//! `~` pass through, every other byte becomes `%` plus two uppercase hex
//! digits.

use vstd::prelude::*;
use vstd::slice::slice_index_get;
use vstd::utf8::encode_utf8;
use vstd::utf8::is_ascii_chars;
use vstd::utf8::is_ascii_chars_encode_utf8;

verus! {

/// A byte the encoding passes through unchanged: ASCII alphanumerics and
/// `-`, `.`, `_`, `~`.
pub open spec fn is_unreserved(b: u8) -> bool {
    (48 <= b && b <= 57) || (65 <= b && b <= 90) || (97 <= b && b <= 122) || b == 45 || b == 46
        || b == 95 || b == 126
}

/// The uppercase hexadecimal digit for a value below 16, as an ASCII byte.
pub open spec fn hex_upper(d: u8) -> u8
    recommends
        d < 16,
{
    if d < 10 {
        (48 + d) as u8
    } else {
        (55 + d) as u8
    }
}

/// The encoding of one byte: an unreserved byte stands for itself; every
/// other byte becomes `%` followed by two uppercase hex digits.
pub open spec fn encode_byte(b: u8) -> Seq<u8> {
    if is_unreserved(b) {
        seq![b]
    } else {
        seq![37u8, hex_upper(b / 16), hex_upper(b % 16)]
    }
}

/// The provider's percent-encoding of a whole byte string.
pub open spec fn special_encode(s: Seq<u8>) -> Seq<u8>
    decreases s.len(),
{
    if s.len() == 0 {
        Seq::empty()
    } else {
        special_encode(s.drop_last()) + encode_byte(s.last())
    }
}

/// Every byte of the sequence is ASCII.
pub open spec fn ascii_bytes(s: Seq<u8>) -> bool {
    forall|i: int| 0 <= i < s.len() ==> s[i] < 128
}

/// The encoding of any single byte consists of ASCII bytes only.
pub proof fn lemma_encode_byte_ascii(b: u8)
    ensures
        ascii_bytes(encode_byte(b)),
{
    if !is_unreserved(b) {
        assert(encode_byte(b)[0] == 37);
        assert(encode_byte(b)[1] == hex_upper(b / 16));
        assert(encode_byte(b)[2] == hex_upper(b % 16));
    }
}

/// The encoding of any byte string consists of ASCII bytes only.
pub proof fn lemma_special_encode_ascii(s: Seq<u8>)
    ensures
        ascii_bytes(special_encode(s)),
    decreases s.len(),
{
    if s.len() > 0 {
        lemma_special_encode_ascii(s.drop_last());
        lemma_encode_byte_ascii(s.last());
    }
}

/// A space is rendered `%20`, never `+`.
pub proof fn lemma_encode_space()
    ensures
        encode_byte(32) == seq![37u8, 50u8, 48u8],
{
    assert(encode_byte(32) =~= seq![37u8, 50u8, 48u8]);
}

/// A literal `*` is rendered `%2A`.
pub proof fn lemma_encode_star()
    ensures
        encode_byte(42) == seq![37u8, 50u8, 65u8],
{
    assert(encode_byte(42) =~= seq![37u8, 50u8, 65u8]);
}

/// A `~` — which the standard form-encoder would render `%7E` before the
/// provider's decode step turns it back — comes out literal.
pub proof fn lemma_encode_tilde()
    ensures
        encode_byte(126) == seq![126u8],
{
    assert(encode_byte(126) =~= seq![126u8]);
}

/// Executable test for [`is_unreserved`].
fn is_unreserved_byte(b: u8) -> (r: bool)
    ensures
        r == is_unreserved(b),
{
    (48 <= b && b <= 57) || (65 <= b && b <= 90) || (97 <= b && b <= 122) || b == 45 || b == 46
        || b == 95 || b == 126
}

/// Executable uppercase hex digit.
fn hex_digit(d: u8) -> (r: u8)
    requires
        d < 16,
    ensures
        r == hex_upper(d),
{
    if d < 10 {
        48 + d
    } else {
        55 + d
    }
}

/// Percent-encodes a byte string under the provider's scheme.
pub fn special_url_encode_bytes(s: &[u8]) -> (r: Vec<u8>)
    ensures
        r@ == special_encode(s@),
{
    let n = s.len();
    let mut out: Vec<u8> = Vec::new();
    let mut i: usize = 0;
    while i < n
        invariant
            n == s@.len(),
            i <= n,
            out@ == special_encode(s@.take(i as int)),
        decreases n - i,
    {
        let b = *slice_index_get(s, i);
        proof {
            assert(s@.take(i + 1).drop_last() =~= s@.take(i as int));
            assert(s@.take(i + 1).last() == s@[i as int]);
        }
        if is_unreserved_byte(b) {
            out.push(b);
            proof {
                assert(out@ =~= special_encode(s@.take(i + 1)));
            }
        } else {
            out.push(37);
            out.push(hex_digit(b / 16));
            out.push(hex_digit(b % 16));
            proof {
                assert(out@ =~= special_encode(s@.take(i + 1)));
            }
        }
        i += 1;
    }
    proof {
        assert(s@.take(n as int) =~= s@);
    }
    out
}

/// Relies on `String::from_utf8`: ASCII bytes decode to a string whose
/// UTF-8 bytes are exactly the input.
#[verifier::external_body]
pub(crate) fn ascii_to_string(v: Vec<u8>) -> (r: String)
    requires
        ascii_bytes(v@),
    ensures
        encode_utf8(r@) == v@,
{
    String::from_utf8(v).unwrap_or_default()
}

/// Percent-encodes the UTF-8 bytes of a string under the provider's
/// scheme; the result is plain ASCII.
pub fn special_url_encode(s: &str) -> (r: String)
    ensures
        encode_utf8(r@) == special_encode(encode_utf8(s@)),
{
    let bytes = special_url_encode_bytes(s.as_bytes());
    proof {
        lemma_special_encode_ascii(encode_utf8(s@));
    }
    ascii_to_string(bytes)
}

/// An ASCII character sequence encodes to bytes below 128.
pub proof fn lemma_ascii_literal(s: Seq<char>)
    requires
        is_ascii_chars(s),
    ensures
        ascii_bytes(encode_utf8(s)),
{
    is_ascii_chars_encode_utf8(s);
    assert forall|i: int| 0 <= i < encode_utf8(s).len() implies encode_utf8(s)[i] < 128 by {
        assert(s[i] <= '\u{7f}');
        assert((s[i] as u8) < 128);
    }
}

} // verus!
