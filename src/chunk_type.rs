use vstd::prelude::*;

use crate::error::Error;
use crate::text::utf8_text;
use vstd::utf8::{decode_utf8, encode_utf8, valid_utf8};
use vstd::string::StringSliceAdditionalSpecFns;

verus! {

/// True of an ASCII letter, `A`-`Z` or `a`-`z`.
pub open spec fn is_letter(b: u8) -> bool {
    (65 <= b && b <= 90) || (97 <= b && b <= 122)
}

/// True of an upper-case ASCII letter.
pub open spec fn is_upper(b: u8) -> bool {
    65 <= b && b <= 90
}

/// True of a lower-case ASCII letter.
pub open spec fn is_lower(b: u8) -> bool {
    97 <= b && b <= 122
}

/// The bytes of a legal chunk type: four ASCII letters.
pub open spec fn valid_type_bytes(s: Seq<u8>) -> bool {
    s.len() == 4 && forall|i: int| 0 <= i < 4 ==> #[trigger] is_letter(s[i])
}

/// The characters that ASCII bytes stand for.
pub open spec fn ascii_chars(s: Seq<u8>) -> Seq<char> {
    Seq::new(s.len(), |i: int| s[i] as char)
}

/// A four-byte chunk type. Only legal types (four ASCII letters) can be built.
#[derive(Debug, Clone, Copy, PartialEq, Eq, Structural)]
pub struct ChunkType {
    b0: u8,
    b1: u8,
    b2: u8,
    b3: u8,
}

impl View for ChunkType {
    type V = Seq<u8>;

    closed spec fn view(&self) -> Seq<u8> {
        seq![self.b0, self.b1, self.b2, self.b3]
    }
}

/// The UTF-8 encoding of the text of a legal chunk type is its bytes: text
/// and bytes convert into each other without loss.
pub proof fn lemma_text_round_trip(t: Seq<u8>)
    requires
        valid_type_bytes(t),
    ensures
        encode_utf8(ascii_chars(t)) == t,
        valid_utf8(t),
        decode_utf8(t) == ascii_chars(t),
{
    let chars = ascii_chars(t);
    assert(vstd::utf8::is_ascii_chars(chars)) by {
        assert forall|i: int| 0 <= i < chars.len() implies '\0' <= #[trigger] chars[i] <= '\u{7f}' by {
            assert(is_letter(t[i]));
        }
    }
    vstd::utf8::is_ascii_chars_encode_utf8(chars);
    assert(encode_utf8(chars) =~= t) by {
        assert forall|i: int| 0 <= i < 4 implies (#[trigger] chars[i]) as u8 == t[i] by {
            assert(is_letter(t[i]));
        }
    }
    vstd::utf8::encode_utf8_valid_utf8(chars);
    vstd::utf8::encode_utf8_decode_utf8(chars);
}

impl ChunkType {
    /// Whether `byte` is an ASCII letter, as each byte of a chunk type must be.
    pub fn is_valid_byte(byte: u8) -> (r: bool)
        ensures
            r == is_letter(byte),
    {
        (65 <= byte && byte <= 90) || (97 <= byte && byte <= 122)
    }

    /// Every value of the type holds a legal chunk type.
    pub open spec fn wf(&self) -> bool {
        valid_type_bytes(self@)
    }

    /// Builds the chunk type with these bytes, if all four are ASCII letters.
    pub fn from_bytes(bytes: [u8; 4]) -> (r: Result<ChunkType, Error>)
        ensures
            r is Ok <==> valid_type_bytes(bytes@),
            r matches Ok(t) ==> t@ == bytes@ && t.wf(),
            r matches Err(e) ==> e == Error::InvalidChunkType,
    {
        proof {
            broadcast use vstd::array::group_array_axioms;
        }
        let mut i: usize = 0;
        while i < 4
            invariant
                i <= 4,
                bytes@.len() == 4,
                forall|j: int| 0 <= j < i ==> #[trigger] is_letter(bytes@[j]),
            decreases 4 - i,
        {
            if !ChunkType::is_valid_byte(bytes[i]) {
                return Err(Error::InvalidChunkType);
            }
            i = i + 1;
        }
        Ok(ChunkType { b0: bytes[0], b1: bytes[1], b2: bytes[2], b3: bytes[3] })
    }

    /// The four bytes of the type.
    pub fn bytes(&self) -> (r: [u8; 4])
        ensures
            r@ == self@,
    {
        let r = [self.b0, self.b1, self.b2, self.b3];
        proof {
            broadcast use vstd::array::group_array_axioms;
            assert(r@ =~= self@);
        }
        r
    }

    /// Builds the chunk type spelled by `s`, if it is four ASCII letters.
    pub fn from_text(s: &str) -> (r: Result<ChunkType, Error>)
        ensures
            r is Ok <==> valid_type_bytes(s.spec_bytes()),
            r matches Ok(t) ==> t@ == s.spec_bytes() && t.wf(),
            r matches Err(e) ==> e == Error::InvalidChunkType,
    {
        let b = s.as_bytes();
        if b.len() != 4 {
            return Err(Error::InvalidChunkType);
        }
        let bytes: [u8; 4] = [b[0], b[1], b[2], b[3]];
        proof {
            broadcast use vstd::array::group_array_axioms;
            assert(bytes@ =~= b@);
        }
        ChunkType::from_bytes(bytes)
    }

    /// The type as text: its four letters.
    pub fn to_string(&self) -> (r: String)
        requires
            self.wf(),
        ensures
            r@ == ascii_chars(self@),
    {
        let bytes = self.bytes();
        proof {
            lemma_text_round_trip(self@);
        }
        match utf8_text(bytes.as_slice()) {
            Some(t) => t,
            None => {
                proof {
                    assert(false);
                }
                String::new()
            },
        }
    }

    /// Whether two chunk types have the same bytes.
    pub fn same_as(&self, other: &ChunkType) -> (r: bool)
        ensures
            r == (self@ == other@),
    {
        let r = self.b0 == other.b0 && self.b1 == other.b1 && self.b2 == other.b2 && self.b3
            == other.b3;
        proof {
            if !r {
                assert(self@[0] != other@[0] || self@[1] != other@[1] || self@[2] != other@[2]
                    || self@[3] != other@[3]);
            } else {
                assert(self@ =~= other@);
            }
        }
        r
    }

    /// Whether the type is critical: its first letter is upper case.
    pub fn is_critical(&self) -> (r: bool)
        ensures
            r == is_upper(self@[0]),
    {
        65 <= self.b0 && self.b0 <= 90
    }

    /// Whether the type is public: its second letter is upper case.
    pub fn is_public(&self) -> (r: bool)
        ensures
            r == is_upper(self@[1]),
    {
        65 <= self.b1 && self.b1 <= 90
    }

    /// Whether the reserved bit is valid: the third letter is upper case.
    pub fn is_reserved_bit_valid(&self) -> (r: bool)
        ensures
            r == is_upper(self@[2]),
    {
        65 <= self.b2 && self.b2 <= 90
    }

    /// Whether the chunk is safe to copy: its fourth letter is lower case.
    pub fn is_safe_to_copy(&self) -> (r: bool)
        ensures
            r == is_lower(self@[3]),
    {
        97 <= self.b3 && self.b3 <= 122
    }

    /// Whether the type may carry an embedded payload: only ancillary
    /// (non-critical) types may.
    pub fn is_safe_to_write(&self) -> (r: bool)
        ensures
            r == !is_upper(self@[0]),
    {
        !self.is_critical()
    }

    /// Whether the type is legal: four ASCII letters. Every value built
    /// through the constructors is.
    pub fn is_valid(&self) -> (r: bool)
        ensures
            r == valid_type_bytes(self@),
    {
        ChunkType::is_valid_byte(self.b0) && ChunkType::is_valid_byte(self.b1)
            && ChunkType::is_valid_byte(self.b2) && ChunkType::is_valid_byte(self.b3)
    }
}

impl TryFrom<[u8; 4]> for ChunkType {
    type Error = Error;

    /// Builds the chunk type with these bytes, if all four are ASCII letters.
    fn try_from(value: [u8; 4]) -> (r: Result<ChunkType, Error>)
        ensures
            r is Ok <==> valid_type_bytes(value@),
            r matches Ok(t) ==> t@ == value@ && t.wf(),
            r matches Err(e) ==> e == Error::InvalidChunkType,
    {
        let r = ChunkType::from_bytes(value);
        proof {
            broadcast use vstd::array::group_array_axioms;
            if let Ok(t) = r {
                assert(t@ =~= value@);
                assert(t.b0 == t@[0] && t.b1 == t@[1] && t.b2 == t@[2] && t.b3 == t@[3]);
            }
        }
        r
    }
}

impl vstd::std_specs::convert::TryFromSpecImpl<[u8; 4]> for ChunkType {
    open spec fn obeys_try_from_spec() -> bool {
        true
    }

    closed spec fn try_from_spec(value: [u8; 4]) -> Result<ChunkType, Error> {
        if valid_type_bytes(value@) {
            Ok(ChunkType { b0: value[0], b1: value[1], b2: value[2], b3: value[3] })
        } else {
            Err(Error::InvalidChunkType)
        }
    }
}

impl std::str::FromStr for ChunkType {
    type Err = Error;

    /// Builds the chunk type spelled by `s`, if it is four ASCII letters.
    fn from_str(s: &str) -> (r: Result<ChunkType, Error>)
        ensures
            r is Ok <==> valid_type_bytes(s.spec_bytes()),
            r matches Ok(t) ==> t@ == s.spec_bytes() && t.wf(),
            r matches Err(e) ==> e == Error::InvalidChunkType,
    {
        ChunkType::from_text(s)
    }
}

} // verus!
