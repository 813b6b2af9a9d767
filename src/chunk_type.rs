use vstd::prelude::*;
use vstd::string::StringSliceAdditionalSpecFns;

use crate::text::{lemma_ascii_utf8, text_from_utf8};

verus! {

/// An ASCII letter, `A`-`Z` or `a`-`z`.
pub open spec fn is_ascii_letter(b: u8) -> bool {
    (65 <= b <= 90) || (97 <= b <= 122)
}

/// An uppercase ASCII letter: the letter's case bit (bit 5) is clear.
pub open spec fn is_upper_letter(b: u8) -> bool {
    65 <= b <= 90
}

/// Four bytes, each an ASCII letter: the shape of every chunk type code.
pub open spec fn is_type_code(code: Seq<u8>) -> bool {
    &&& code.len() == 4
    &&& forall|i: int| 0 <= i < 4 ==> is_ascii_letter(#[trigger] code[i])
}

/// The reserved bit of a type code is valid when its third letter is uppercase.
pub open spec fn reserved_bit_valid(code: Seq<u8>) -> bool {
    is_upper_letter(code[2])
}

/// The text of a type code: one character per byte.
pub open spec fn code_text(code: Seq<u8>) -> Seq<char> {
    code.map_values(|b: u8| b as char)
}

/// Why a chunk type code could not be built or was refused.
#[derive(Debug, Clone, Copy, PartialEq, Eq, Structural)]
pub enum ChunkTypeError {
    /// The text is not four bytes long.
    WrongLength,
    /// A byte of the code is not an ASCII letter.
    NotAlphabetic,
    /// The code is well formed, but its reserved bit (third letter) is not uppercase.
    ReservedBitUnset,
}

/// A four-letter chunk type code. The case of each letter carries one flag:
/// ancillary, private, reserved and safe-to-copy, in that order.
#[derive(Debug, Clone, Copy)]
pub struct ChunkType {
    code: [u8; 4],
}

impl View for ChunkType {
    type V = Seq<u8>;

    closed spec fn view(&self) -> Seq<u8> {
        self.code@
    }
}

impl ChunkType {
    #[verifier::type_invariant]
    spec fn well_formed(self) -> bool {
        is_type_code(self.code@)
    }

    /// What building a type code from four bytes gives.
    pub closed spec fn from_code(value: [u8; 4]) -> Result<ChunkType, ChunkTypeError> {
        if is_type_code(value@) {
            Ok(ChunkType { code: value })
        } else {
            Err(ChunkTypeError::NotAlphabetic)
        }
    }

    /// Builds a type code from four raw bytes; each must be an ASCII letter.
    pub fn try_from(value: [u8; 4]) -> (r: Result<ChunkType, ChunkTypeError>)
        ensures
            r == ChunkType::from_code(value),
            r matches Ok(ct) ==> ct@ == value@,
            is_type_code(value@) <==> r is Ok,
            !is_type_code(value@) <==> r == Err::<ChunkType, ChunkTypeError>(
                ChunkTypeError::NotAlphabetic,
            ),
    {
        let mut i: usize = 0;
        while i < 4
            invariant
                0 <= i <= 4,
                forall|j: int| 0 <= j < i ==> is_ascii_letter(#[trigger] value@[j]),
            decreases 4 - i,
        {
            if !is_letter(value[i]) {
                return Err(ChunkTypeError::NotAlphabetic);
            }
            i = i + 1;
        }
        Ok(ChunkType { code: value })
    }

    /// Builds a type code from text, which must be exactly four ASCII letters.
    pub fn from_str(s: &str) -> (r: Result<ChunkType, ChunkTypeError>)
        ensures
            r matches Ok(ct) ==> ct@ == s.spec_bytes(),
            s.spec_bytes().len() != 4 <==> r == Err::<ChunkType, ChunkTypeError>(
                ChunkTypeError::WrongLength,
            ),
            (s.spec_bytes().len() == 4 && !is_type_code(s.spec_bytes())) <==> r == Err::<
                ChunkType,
                ChunkTypeError,
            >(ChunkTypeError::NotAlphabetic),
            is_type_code(s.spec_bytes()) <==> r is Ok,
    {
        let b = s.as_bytes();
        if b.len() != 4 {
            return Err(ChunkTypeError::WrongLength);
        }
        let code: [u8; 4] = [b[0], b[1], b[2], b[3]];
        assert(code@ =~= b@);
        ChunkType::try_from(code)
    }

    /// The four bytes of the code.
    pub fn bytes(&self) -> (r: [u8; 4])
        ensures
            r@ == self@,
            is_type_code(self@),
    {
        proof {
            use_type_invariant(self);
        }
        self.code
    }

    /// The code as text: its four letters.
    pub fn to_string(&self) -> (r: String)
        ensures
            r@ == code_text(self@),
    {
        proof {
            use_type_invariant(self);
        }
        let mut bytes: Vec<u8> = Vec::new();
        bytes.push(self.code[0]);
        bytes.push(self.code[1]);
        bytes.push(self.code[2]);
        bytes.push(self.code[3]);
        proof {
            assert(bytes@ =~= self.code@);
            assert forall|i: int| 0 <= i < bytes@.len() implies #[trigger] bytes@[i] < 128 by {
                assert(is_ascii_letter(self.code@[i]));
            }
            lemma_ascii_utf8(bytes@);
        }
        match text_from_utf8(bytes) {
            Some(text) => text,
            None => String::new(),
        }
    }

    /// A type code is valid when its reserved bit is.
    pub fn is_valid(&self) -> (r: bool)
        ensures
            r == reserved_bit_valid(self@),
    {
        self.is_reserved_bit_valid()
    }

    /// Critical chunks have an uppercase first letter.
    pub fn is_critical(&self) -> (r: bool)
        ensures
            r == is_upper_letter(self@[0]),
    {
        is_upper(self.code[0])
    }

    /// Public chunks have an uppercase second letter.
    pub fn is_public(&self) -> (r: bool)
        ensures
            r == is_upper_letter(self@[1]),
    {
        is_upper(self.code[1])
    }

    /// The reserved bit is valid when the third letter is uppercase.
    pub fn is_reserved_bit_valid(&self) -> (r: bool)
        ensures
            r == reserved_bit_valid(self@),
    {
        is_upper(self.code[2])
    }

    /// Safe-to-copy chunks have a lowercase fourth letter.
    pub fn is_safe_to_copy(&self) -> (r: bool)
        ensures
            r == !is_upper_letter(self@[3]),
    {
        !is_upper(self.code[3])
    }
}

impl PartialEq for ChunkType {
    fn eq(&self, other: &ChunkType) -> (r: bool)
        ensures
            r == (self@ == other@),
    {
        let r = self.code[0] == other.code[0] && self.code[1] == other.code[1] && self.code[2]
            == other.code[2] && self.code[3] == other.code[3];
        proof {
            if r {
                assert(self.code@ =~= other.code@);
            }
        }
        r
    }
}

impl vstd::std_specs::cmp::PartialEqSpecImpl for ChunkType {
    open spec fn obeys_eq_spec() -> bool {
        true
    }

    open spec fn eq_spec(&self, other: &ChunkType) -> bool {
        self@ == other@
    }
}

impl Eq for ChunkType {

}

impl std::str::FromStr for ChunkType {
    type Err = ChunkTypeError;

    fn from_str(s: &str) -> Result<ChunkType, ChunkTypeError> {
        ChunkType::from_str(s)
    }
}

impl vstd::std_specs::convert::TryFromSpecImpl<[u8; 4]> for ChunkType {
    open spec fn obeys_try_from_spec() -> bool {
        true
    }

    open spec fn try_from_spec(value: [u8; 4]) -> Result<ChunkType, ChunkTypeError> {
        ChunkType::from_code(value)
    }
}

impl std::convert::TryFrom<[u8; 4]> for ChunkType {
    type Error = ChunkTypeError;

    fn try_from(value: [u8; 4]) -> Result<ChunkType, ChunkTypeError> {
        ChunkType::try_from(value)
    }
}

fn is_letter(b: u8) -> (r: bool)
    ensures
        r == is_ascii_letter(b),
{
    (65 <= b && b <= 90) || (97 <= b && b <= 122)
}

fn is_upper(b: u8) -> (r: bool)
    ensures
        r == is_upper_letter(b),
{
    65 <= b && b <= 90
}

} // verus!
