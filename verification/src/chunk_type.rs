//! The four-letter type code of a chunk and the property bits that the case
//! of its letters encodes.

use vstd::prelude::*;
use vstd::string::StringSliceAdditionalSpecFns;
use vstd::utf8::{encode_utf8, encode_utf8_decode_utf8, is_ascii_chars, is_ascii_chars_encode_utf8};
use crate::text::{ascii_chars, lemma_ascii_is_utf8};

verus! {

/// Why four bytes, or a string, are not a chunk type code.
#[derive(Debug, Clone, Copy, PartialEq, Eq, Structural)]
pub enum ChunkTypeError {
    /// The text is not exactly four bytes long.
    InvalidLength,
    /// Some byte is not an ASCII letter.
    NonLetter,
    /// All four are letters, but the third is lowercase.
    ReservedBitSet,
}

/// `b` is one of `A`..=`Z` or `a`..=`z`.
pub open spec fn is_letter(b: u8) -> bool {
    (65 <= b <= 90) || (97 <= b <= 122)
}

/// Bit 5 (value 32) of `b` is set: for a letter, it is lowercase.
pub open spec fn bit5(b: u8) -> bool {
    b & 0x20 != 0
}

/// Four bytes, each an ASCII letter.
pub open spec fn four_letters(s: Seq<u8>) -> bool {
    s.len() == 4 && forall|i: int| 0 <= i < 4 ==> is_letter(#[trigger] s[i])
}

/// The verdict on text offered as a type code: `None` where it is accepted.
/// A reserved bit that is set is no objection here.
pub open spec fn text_verdict(s: Seq<u8>) -> Option<ChunkTypeError> {
    if s.len() != 4 {
        Some(ChunkTypeError::InvalidLength)
    } else if !four_letters(s) {
        Some(ChunkTypeError::NonLetter)
    } else {
        None
    }
}

/// `c` is one of `A`..=`Z` or `a`..=`z`.
pub open spec fn is_letter_char(c: char) -> bool {
    ('A' <= c <= 'Z') || ('a' <= c <= 'z')
}

/// Four characters, each an ASCII letter.
pub open spec fn four_letter_chars(chars: Seq<char>) -> bool {
    chars.len() == 4 && forall|i: int| 0 <= i < 4 ==> is_letter_char(#[trigger] chars[i])
}

/// A text is accepted as a type code exactly where it has four characters
/// and each of them is an ASCII letter.
pub proof fn lemma_text_accepted_iff_four_letter_chars(chars: Seq<char>)
    ensures
        text_verdict(encode_utf8(chars)) is None <==> four_letter_chars(chars),
{
    let bytes = encode_utf8(chars);
    if four_letter_chars(chars) {
        assert(is_ascii_chars(chars));
        is_ascii_chars_encode_utf8(chars);
        assert forall|i: int| 0 <= i < 4 implies is_letter(#[trigger] bytes[i]) by {
            assert(is_letter_char(chars[i]));
            assert(bytes[i] == chars[i] as u8);
        }
    }
    if text_verdict(bytes) is None {
        assert forall|i: int| 0 <= i < bytes.len() implies bytes[i] < 128 by {
            assert(is_letter(bytes[i]));
        }
        lemma_ascii_is_utf8(bytes);
        encode_utf8_decode_utf8(chars);
        assert(chars == ascii_chars(bytes));
        assert forall|i: int| 0 <= i < 4 implies is_letter_char(#[trigger] chars[i]) by {
            assert(is_letter(bytes[i]));
            assert(chars[i] == bytes[i] as char);
        }
    }
}

/// The verdict on raw bytes offered as a type code: `None` where they are
/// accepted, which asks for four letters with the reserved bit clear.
pub open spec fn bytes_verdict(s: Seq<u8>) -> Option<ChunkTypeError> {
    if s.len() != 4 {
        Some(ChunkTypeError::InvalidLength)
    } else if !four_letters(s) {
        Some(ChunkTypeError::NonLetter)
    } else if bit5(s[2]) {
        Some(ChunkTypeError::ReservedBitSet)
    } else {
        None
    }
}

/// A chunk type code: four ASCII letters.
#[derive(Debug, Clone, Copy, PartialEq, Eq, Structural)]
pub struct ChunkType(u8, u8, u8, u8);

impl View for ChunkType {
    type V = Seq<u8>;

    /// The four bytes of the code, in order.
    closed spec fn view(&self) -> Seq<u8> {
        seq![self.0, self.1, self.2, self.3]
    }
}

impl ChunkType {
    #[verifier::type_invariant]
    spec fn letters(self) -> bool {
        is_letter(self.0) && is_letter(self.1) && is_letter(self.2) && is_letter(self.3)
    }

    /// Equality is byte-wise: two codes with the same bytes are the same
    /// code.
    pub proof fn lemma_view_injective(self, other: ChunkType)
        requires
            self@ == other@,
        ensures
            self == other,
    {
        assert(self@[0] == other@[0]);
        assert(self@[1] == other@[1]);
        assert(self@[2] == other@[2]);
        assert(self@[3] == other@[3]);
    }

    /// Whether `val` is an ASCII letter.
    pub fn is_valid_byte(val: &u8) -> (r: bool)
        ensures
            r == is_letter(*val),
    {
        (65 <= *val && *val <= 90) || (97 <= *val && *val <= 122)
    }

    /// The four bytes of the code. Each is a letter.
    pub fn bytes(&self) -> (r: [u8; 4])
        ensures
            r@ == self@,
            four_letters(self@),
    {
        proof {
            use_type_invariant(self);
        }
        let r: [u8; 4] = [self.0, self.1, self.2, self.3];
        assert(r@ =~= self@);
        r
    }

    /// A code is valid where its reserved bit is.
    pub fn is_valid(&self) -> (r: bool)
        ensures
            r == !bit5(self@[2]),
    {
        self.is_reserved_bit_valid()
    }

    /// Critical (not ancillary): the first letter is uppercase.
    pub fn is_critical(&self) -> (r: bool)
        ensures
            r == !bit5(self@[0]),
    {
        (self.0 & 0b100000) == 0
    }

    /// Public (not private): the second letter is uppercase.
    pub fn is_public(&self) -> (r: bool)
        ensures
            r == !bit5(self@[1]),
    {
        (self.1 & 0b100000) == 0
    }

    /// The reserved bit is clear: the third letter is uppercase.
    pub fn is_reserved_bit_valid(&self) -> (r: bool)
        ensures
            r == !bit5(self@[2]),
    {
        (self.2 & 0b100000) == 0
    }

    /// Safe to copy: the fourth letter is lowercase.
    pub fn is_safe_to_copy(&self) -> (r: bool)
        ensures
            r == bit5(self@[3]),
    {
        (self.3 & 0b100000) != 0
    }

    /// The code as text: its four letters.
    pub fn to_string(&self) -> (r: String)
        ensures
            r@ == ascii_chars(self@),
    {
        let b = self.bytes();
        let mut v: Vec<u8> = Vec::with_capacity(4);
        v.push(b[0]);
        v.push(b[1]);
        v.push(b[2]);
        v.push(b[3]);
        proof {
            assert(v@ =~= self@);
            lemma_ascii_is_utf8(v@);
        }
        match String::from_utf8(v) {
            Ok(s) => s,
            Err(_) => String::new(),
        }
    }

    /// Makes a code of four raw bytes. They are accepted where all are
    /// letters and the reserved bit is clear; `bytes_verdict` names the
    /// objection otherwise.
    pub fn try_from(value: [u8; 4]) -> (r: Result<ChunkType, ChunkTypeError>)
        ensures
            match r {
                Ok(t) => bytes_verdict(value@) is None && t@ == value@,
                Err(e) => bytes_verdict(value@) == Some(e),
            },
    {
        if !(Self::is_valid_byte(&value[0]) && Self::is_valid_byte(&value[1])
            && Self::is_valid_byte(&value[2]) && Self::is_valid_byte(&value[3])) {
            return Err(ChunkTypeError::NonLetter);
        }
        let res = ChunkType(value[0], value[1], value[2], value[3]);
        assert(res@ =~= value@);
        if res.is_valid() {
            Ok(res)
        } else {
            Err(ChunkTypeError::ReservedBitSet)
        }
    }

    /// Makes a code of text. Exactly the texts of four bytes that are all
    /// ASCII letters are accepted, whatever their case.
    pub fn from_str(s: &str) -> (r: Result<ChunkType, ChunkTypeError>)
        ensures
            match r {
                Ok(t) => text_verdict(s.spec_bytes()) is None && t@ == s.spec_bytes(),
                Err(e) => text_verdict(s.spec_bytes()) == Some(e),
            },
    {
        let byte_str = s.as_bytes();
        if byte_str.len() != 4 {
            return Err(ChunkTypeError::InvalidLength);
        }
        if !(Self::is_valid_byte(&byte_str[0]) && Self::is_valid_byte(&byte_str[1])
            && Self::is_valid_byte(&byte_str[2]) && Self::is_valid_byte(&byte_str[3])) {
            return Err(ChunkTypeError::NonLetter);
        }
        let res = ChunkType(byte_str[0], byte_str[1], byte_str[2], byte_str[3]);
        assert(res@ =~= byte_str@);
        Ok(res)
    }
}

impl std::str::FromStr for ChunkType {
    type Err = ChunkTypeError;

    /// As the method of the same name on the type itself.
    fn from_str(s: &str) -> (r: Result<ChunkType, ChunkTypeError>)
        ensures
            match r {
                Ok(t) => text_verdict(s.spec_bytes()) is None && t@ == s.spec_bytes(),
                Err(e) => text_verdict(s.spec_bytes()) == Some(e),
            },
    {
        ChunkType::from_str(s)
    }
}

impl TryFrom<[u8; 4]> for ChunkType {
    type Error = ChunkTypeError;

    /// As the method of the same name on the type itself.
    fn try_from(value: [u8; 4]) -> (r: Result<ChunkType, ChunkTypeError>) {
        ChunkType::try_from(value)
    }
}

impl vstd::std_specs::convert::TryFromSpecImpl<[u8; 4]> for ChunkType {
    open spec fn obeys_try_from_spec() -> bool {
        true
    }

    closed spec fn try_from_spec(value: [u8; 4]) -> Result<ChunkType, ChunkTypeError> {
        match bytes_verdict(value@) {
            Some(e) => Err(e),
            None => Ok(ChunkType(value[0], value[1], value[2], value[3])),
        }
    }
}

} // verus!
