//! Small text helpers shared by the protocol engine: byte-level string
//! comparison and decimal formatting of integers.

use vstd::prelude::*;

verus! {

use vstd::utf8::{decode_utf8, encode_utf8};
use vstd::string::StringSliceAdditionalSpecFns;
use vstd::string::StrSliceExecFns;
use vstd::string::StringExecFns;

/// Byte-for-byte equality of two slices.
pub fn bytes_eq(a: &[u8], b: &[u8]) -> (r: bool)
    ensures
        r == (a@ == b@),
{
    if a.len() != b.len() {
        assert(a@.len() != b@.len());
        return false;
    }
    let mut i: usize = 0;
    while i < a.len()
        invariant
            0 <= i <= a@.len(),
            a@.len() == b@.len(),
            forall|j: int| 0 <= j < i ==> a@[j] == b@[j],
        decreases a@.len() - i,
    {
        if a[i] != b[i] {
            return false;
        }
        i += 1;
    }
    assert(a@ =~= b@);
    true
}

/// Equality of two strings, decided on their UTF-8 bytes.
pub fn str_eq(a: &str, b: &str) -> (r: bool)
    ensures
        r == (a@ == b@),
{
    let r = bytes_eq(a.as_bytes(), b.as_bytes());
    proof {
        if a.spec_bytes() == b.spec_bytes() {
            vstd::utf8::encode_utf8_decode_utf8(a@);
            vstd::utf8::encode_utf8_decode_utf8(b@);
            assert(a@ == decode_utf8(encode_utf8(a@)));
            assert(b@ == decode_utf8(encode_utf8(b@)));
            assert(a@ == b@);
        }
    }
    r
}

/// The character for a single decimal digit.
pub open spec fn spec_digit_char(d: int) -> char
    recommends
        0 <= d < 10,
{
    ((d + 48) as u8) as char
}

/// The decimal representation of `n`, most significant digit first,
/// without leading zeros (`0` itself is "0").
pub open spec fn spec_dec_digits(n: nat) -> Seq<char>
    decreases n,
{
    if n < 10 {
        seq![spec_digit_char(n as int)]
    } else {
        spec_dec_digits(n / 10).push(spec_digit_char((n % 10) as int))
    }
}

/// Formats `n` in decimal.
pub fn u64_to_string(n: u64) -> (s: String)
    ensures
        s@ == spec_dec_digits(n as nat),
    decreases n,
{
    let digits = "0123456789";
    proof {
        reveal_strlit("0123456789");
    }
    let d = (n % 10) as usize;
    let ds = digits.substring_ascii(d, d + 1);
    assert(ds@ =~= seq![spec_digit_char(n as int % 10)]);
    if n < 10 {
        let s = ds.to_owned();
        assert(s@ =~= spec_dec_digits(n as nat));
        s
    } else {
        let mut s = u64_to_string(n / 10);
        s.append(ds);
        assert(s@ =~= spec_dec_digits(n as nat));
        s
    }
}

} // verus!
