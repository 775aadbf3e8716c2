//! Text helpers shared by the parser and the matchers.
//!
//! The conversions between bytes and `String` rest on the UTF-8 model of
//! `vstd::utf8`; Unicode lowercasing is delegated to the standard library
//! under the name [`lower_of`].

use vstd::prelude::*;
use vstd::string::StrSliceExecFns;
use vstd::string::StringSliceAdditionalSpecFns;
use vstd::utf8::decode_utf8;
use vstd::utf8::encode_utf8;
use vstd::utf8::is_ascii_chars;
use vstd::utf8::is_ascii_chars_encode_utf8;
use vstd::utf8::encode_utf8_valid_utf8;
use vstd::utf8::encode_utf8_decode_utf8;
use vstd::utf8::length_of_first_scalar;
use vstd::utf8::pop_first_scalar;
use vstd::utf8::valid_utf8;

verus! {

/// Relies on `String::from_utf8`: it returns `Ok` exactly on valid UTF-8
/// input, and the returned string holds the characters those bytes encode.
#[verifier::external_body]
pub(crate) fn string_from_utf8(bytes: Vec<u8>) -> (r: Option<String>)
    ensures
        r is Some <==> valid_utf8(bytes@),
        r matches Some(s) ==> s@ == decode_utf8(bytes@),
{
    String::from_utf8(bytes).ok()
}

/// What `str::to_lowercase` returns: a function of the characters alone.
pub uninterp spec fn lower_of(s: Seq<char>) -> Seq<char>;

/// Relies on `str::to_lowercase`: the result depends on the characters
/// alone, and an empty string stays empty.
#[verifier::external_body]
pub(crate) fn lowercase(s: &str) -> (r: String)
    ensures
        r@ == lower_of(s@),
        s@.len() == 0 ==> r@.len() == 0,
{
    s.to_lowercase()
}

/// A valid UTF-8 sequence decodes to at least one and at most one character
/// per byte.
pub proof fn lemma_decode_utf8_len(bytes: Seq<u8>)
    requires
        valid_utf8(bytes),
    ensures
        decode_utf8(bytes).len() <= bytes.len(),
        bytes.len() > 0 ==> decode_utf8(bytes).len() >= 1,
    decreases bytes.len(),
{
    if bytes.len() > 0 {
        assert(length_of_first_scalar(bytes) >= 1);
        assert(pop_first_scalar(bytes).len() < bytes.len());
        lemma_decode_utf8_len(pop_first_scalar(bytes));
    }
}

/// The characters that a sequence of ASCII bytes stands for.
pub open spec fn ascii_chars_of(bytes: Seq<u8>) -> Seq<char> {
    Seq::new(bytes.len(), |i: int| bytes[i] as char)
}

/// A sequence of bytes below 0x80 is valid UTF-8 and decodes byte by byte.
pub proof fn lemma_ascii_decode(bytes: Seq<u8>)
    requires
        forall|i: int| 0 <= i < bytes.len() ==> bytes[i] < 0x80,
    ensures
        valid_utf8(bytes),
        decode_utf8(bytes) == ascii_chars_of(bytes),
        is_ascii_chars(ascii_chars_of(bytes)),
{
    let chars = ascii_chars_of(bytes);
    assert forall|i: int| 0 <= i < chars.len() implies '\0' <= #[trigger] chars[i]
        <= '\u{7f}' by {
        assert(chars[i] == bytes[i] as char);
        assert(bytes[i] < 0x80);
    }
    assert(is_ascii_chars(chars));
    is_ascii_chars_encode_utf8(chars);
    assert(encode_utf8(chars) =~= bytes);
    encode_utf8_valid_utf8(chars);
    encode_utf8_decode_utf8(chars);
}

/// Character-by-character equality of two string slices.
pub fn str_eq(a: &str, b: &str) -> (r: bool)
    ensures
        r == (a@ == b@),
{
    let la = a.unicode_len();
    let lb = b.unicode_len();
    if la != lb {
        return false;
    }
    let mut i: usize = 0;
    while i < la
        invariant
            i <= la,
            la == a@.len(),
            la == b@.len(),
            forall|j: int| 0 <= j < i ==> a@[j] == b@[j],
        decreases la - i,
    {
        if a.get_char(i) != b.get_char(i) {
            return false;
        }
        i = i + 1;
    }
    proof {
        assert(a@ =~= b@);
    }
    true
}

/// The decimal digits of `n`, as ASCII bytes, without leading zeros.
pub open spec fn dec_digits(n: nat) -> Seq<u8>
    decreases n,
{
    if n < 10 {
        seq![(48 + n) as u8]
    } else {
        dec_digits(n / 10).push((48 + n % 10) as u8)
    }
}

/// Every byte of [`dec_digits`] is an ASCII digit.
pub proof fn lemma_dec_digits_ascii(n: nat)
    ensures
        forall|i: int| 0 <= i < dec_digits(n).len() ==> 48 <= #[trigger] dec_digits(n)[i] <= 57,
        dec_digits(n).len() >= 1,
    decreases n,
{
    if n >= 10 {
        lemma_dec_digits_ascii(n / 10);
    }
}

/// Every byte is ASCII.
pub open spec fn all_ascii(s: Seq<u8>) -> bool {
    forall|i: int| 0 <= i < s.len() ==> #[trigger] s[i] < 0x80
}

/// The bytes of an ASCII string slice are its characters, each below 0x80.
pub proof fn lemma_ascii_str_bytes(label: &str)
    requires
        vstd::string::is_ascii(label),
    ensures
        all_ascii(label.spec_bytes()),
        label.spec_bytes().len() == label@.len(),
{
    is_ascii_chars_encode_utf8(label@);
    assert forall|i: int| 0 <= i < label.spec_bytes().len() implies #[trigger] label.spec_bytes()[i]
        < 0x80 by {
        assert(label.spec_bytes()[i] == label@[i] as u8);
        assert('\0' <= label@[i] <= '\u{7f}');
    }
}

/// Appends an ASCII label to `out`.
pub fn push_ascii_label(out: &mut Vec<u8>, label: &str)
    requires
        vstd::string::is_ascii(label),
    ensures
        final(out)@ == old(out)@ + label.spec_bytes(),
        all_ascii(old(out)@) ==> all_ascii(final(out)@),
{
    proof {
        lemma_ascii_str_bytes(label);
    }
    let b = label.as_bytes();
    out.extend_from_slice(b);
    proof {
        assert forall|i: int| all_ascii(old(out)@) && 0 <= i < out@.len() implies #[trigger] out@[i]
            < 0x80 by {
            if i < old(out)@.len() {
                assert(out@[i] == old(out)@[i]);
            } else {
                assert(out@[i] == label.spec_bytes()[i - old(out)@.len()]);
            }
        }
    }
}

/// Appends an ASCII label and the decimal digits of `value`.
pub fn push_labeled_counter(out: &mut Vec<u8>, label: &str, value: u64)
    requires
        vstd::string::is_ascii(label),
    ensures
        final(out)@ == old(out)@ + label.spec_bytes() + dec_digits(value as nat),
        all_ascii(old(out)@) ==> all_ascii(final(out)@),
{
    push_ascii_label(out, label);
    let ghost mid = out@;
    push_dec_digits(out, value);
    proof {
        lemma_dec_digits_ascii(value as nat);
        assert forall|i: int| all_ascii(mid) && 0 <= i < out@.len() implies #[trigger] out@[i]
            < 0x80 by {
            if i < mid.len() {
                assert(out@[i] == mid[i]);
            } else {
                assert(out@[i] == dec_digits(value as nat)[i - mid.len()]);
            }
        }
    }
}

/// Appends the decimal digits of `n` to `out`.
pub fn push_dec_digits(out: &mut Vec<u8>, n: u64)
    ensures
        final(out)@ == old(out)@ + dec_digits(n as nat),
    decreases n,
{
    if n < 10 {
        out.push(48 + (n as u8));
        assert(out@ =~= old(out)@ + dec_digits(n as nat));
    } else {
        push_dec_digits(out, n / 10);
        let d: u8 = (n % 10) as u8;
        out.push(48 + d);
        assert(out@ =~= old(out)@ + dec_digits(n as nat));
    }
}

} // verus!
