//! UTF-8 text from raw bytes.

use vstd::prelude::*;
use vstd::utf8::*;

verus! {

/// The error value of `String::from_utf8`, carried through unopened.
#[verifier::external_type_specification]
#[verifier::external_body]
pub struct ExFromUtf8Error(std::string::FromUtf8Error);

/// `String::from_utf8` succeeds exactly on well-formed UTF-8, and the text
/// it returns is the one that those bytes encode.
pub assume_specification[ String::from_utf8 ](vec: Vec<u8>) -> (r: Result<
    String,
    std::string::FromUtf8Error,
>)
    ensures
        r is Ok <==> valid_utf8(vec@),
        r is Ok ==> r->Ok_0@ == decode_utf8(vec@),
;

/// `String::push_str` puts the given text behind what the string holds.
pub assume_specification[ String::push_str ](s: &mut String, t: &str)
    ensures
        final(s)@ == old(s)@ + t@,
;

/// The characters that a run of ASCII bytes stands for.
pub open spec fn ascii_chars(bytes: Seq<u8>) -> Seq<char> {
    Seq::new(bytes.len(), |i: int| bytes[i] as char)
}

/// A run of bytes below 128 is well-formed UTF-8 and decodes byte by byte.
pub proof fn lemma_ascii_is_utf8(bytes: Seq<u8>)
    requires
        forall|i: int| 0 <= i < bytes.len() ==> bytes[i] < 128,
    ensures
        valid_utf8(bytes),
        decode_utf8(bytes) == ascii_chars(bytes),
{
    let chars = ascii_chars(bytes);
    assert(is_ascii_chars(chars));
    is_ascii_chars_encode_utf8(chars);
    assert(encode_utf8(chars) =~= bytes);
    encode_utf8_valid_utf8(chars);
    encode_utf8_decode_utf8(chars);
}

/// The character of the digit `d`, for `d` below ten.
pub open spec fn digit_char(d: nat) -> char {
    ((48 + d) as u8) as char
}

/// The decimal numeral of `n`, without leading zeros; `0` for zero.
pub open spec fn decimal(n: nat) -> Seq<char>
    decreases n,
{
    if n < 10 {
        seq![digit_char(n)]
    } else {
        decimal(n / 10).push(digit_char(n % 10))
    }
}

/// The digits still to be written in front: none where nothing is left.
spec fn leading_digits(m: nat) -> Seq<char> {
    if m == 0 {
        Seq::empty()
    } else {
        decimal(m)
    }
}

/// The characters of `rev`, last byte first.
spec fn backwards(rev: Seq<u8>) -> Seq<char> {
    Seq::new(rev.len(), |j: int| rev[rev.len() - 1 - j] as char)
}

proof fn lemma_one_more_digit(m: nat, rev: Seq<u8>)
    requires
        m > 0,
    ensures
        leading_digits(m) + backwards(rev) == leading_digits(m / 10) + backwards(
            rev.push((48 + m % 10) as u8),
        ),
{
    let d = (48 + m % 10) as u8;
    assert(leading_digits(m) =~= leading_digits(m / 10) + seq![digit_char(m % 10)]);
    assert(backwards(rev.push(d)) =~= seq![d as char] + backwards(rev));
    assert(leading_digits(m) + backwards(rev) =~= leading_digits(m / 10) + backwards(rev.push(d)));
}

/// The decimal numeral of `n` as text.
pub(crate) fn decimal_text(n: u64) -> (r: String)
    ensures
        r@ == decimal(n as nat),
{
    let mut rev: Vec<u8> = Vec::new();
    let mut m: u64 = n;
    proof {
        assert(decimal(n as nat) =~= leading_digits(n as nat / 10) + seq![
            digit_char(n as nat % 10),
        ]);
        assert(backwards(seq![(48 + n as nat % 10) as u8]) =~= seq![digit_char(n as nat % 10)]);
        assert(rev@.push((48 + n as nat % 10) as u8) =~= seq![(48 + n as nat % 10) as u8]);
    }
    rev.push(48u8 + (m % 10) as u8);
    m = m / 10;
    while m > 0
        invariant
            rev@.len() >= 1,
            forall|j: int| 0 <= j < rev@.len() ==> rev@[j] < 128,
            decimal(n as nat) == leading_digits(m as nat) + backwards(rev@),
        decreases m,
    {
        proof {
            lemma_one_more_digit(m as nat, rev@);
        }
        rev.push(48u8 + (m % 10) as u8);
        m = m / 10;
    }
    let mut bytes: Vec<u8> = Vec::new();
    let mut i: usize = rev.len();
    while i > 0
        invariant
            i <= rev@.len(),
            bytes@.len() == rev@.len() - i,
            forall|j: int| 0 <= j < bytes@.len() ==> bytes@[j] == rev@[rev@.len() - 1 - j],
        decreases i,
    {
        i -= 1;
        bytes.push(rev[i]);
    }
    proof {
        lemma_ascii_is_utf8(bytes@);
        assert(ascii_chars(bytes@) =~= backwards(rev@));
        assert(leading_digits(0) + backwards(rev@) =~= backwards(rev@));
    }
    match String::from_utf8(bytes) {
        Ok(s) => s,
        Err(_) => String::new(),
    }
}

} // verus!
