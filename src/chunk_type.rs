use vstd::prelude::*;
use crate::error::PngError;
use crate::text::chars_to_string;

verus! {

/// An ASCII uppercase letter, `A` to `Z`.
pub open spec fn is_upper(b: u8) -> bool {
    65 <= b <= 90
}

/// An ASCII lowercase letter, `a` to `z`.
pub open spec fn is_lower(b: u8) -> bool {
    97 <= b <= 122
}

/// An ASCII letter of either case.
pub open spec fn is_letter(b: u8) -> bool {
    is_upper(b) || is_lower(b)
}

/// A character that is an ASCII letter.
pub open spec fn is_letter_char(c: char) -> bool {
    ('A' <= c <= 'Z') || ('a' <= c <= 'z')
}

/// Critical chunks have an uppercase first byte.
pub open spec fn tag_critical(tag: Seq<u8>) -> bool {
    is_upper(tag[0])
}

/// Public chunks have an uppercase second byte.
pub open spec fn tag_public(tag: Seq<u8>) -> bool {
    is_upper(tag[1])
}

/// The reserved bit is valid when the third byte is uppercase.
pub open spec fn tag_reserved_bit_valid(tag: Seq<u8>) -> bool {
    is_upper(tag[2])
}

/// Safe-to-copy chunks have a lowercase fourth byte.
pub open spec fn tag_safe_to_copy(tag: Seq<u8>) -> bool {
    is_lower(tag[3])
}

/// A valid tag has a valid reserved bit and four ASCII letters.
pub open spec fn tag_valid(tag: Seq<u8>) -> bool {
    &&& tag_reserved_bit_valid(tag)
    &&& forall|i: int| 0 <= i < 4 ==> #[trigger] is_letter(tag[i])
}

/// The text form of a tag: each byte taken as the character of that code.
pub open spec fn tag_chars(tag: Seq<u8>) -> Seq<char> {
    tag.map_values(|b: u8| b as char)
}

/// What parsing a string as a chunk type gives: the character codes of four
/// ASCII letters, or a format error.
pub open spec fn tag_from_chars(s: Seq<char>) -> Result<Seq<u8>, PngError> {
    if s.len() == 4 && (forall|i: int| 0 <= i < 4 ==> #[trigger] is_letter_char(s[i])) {
        Ok(s.map_values(|c: char| c as u8))
    } else {
        Err(PngError::Format)
    }
}

const UPPER_A: u8 = 65;
const UPPER_Z: u8 = 90;
const LOWER_A: u8 = 97;
const LOWER_Z: u8 = 122;

fn byte_is_upper(b: u8) -> (r: bool)
    ensures
        r == is_upper(b),
{
    UPPER_A <= b && b <= UPPER_Z
}

fn byte_is_lower(b: u8) -> (r: bool)
    ensures
        r == is_lower(b),
{
    LOWER_A <= b && b <= LOWER_Z
}

/// A four-byte chunk tag whose letter cases carry the chunk's properties.
#[derive(Debug, Clone, Copy, PartialEq, Eq, Structural)]
pub struct ChunkType {
    ancillary: u8,
    private: u8,
    reserved: u8,
    safe_to_copy: u8,
}

impl View for ChunkType {
    type V = Seq<u8>;

    closed spec fn view(&self) -> Seq<u8> {
        seq![self.ancillary, self.private, self.reserved, self.safe_to_copy]
    }
}

impl ChunkType {
    /// The chunk type with these four bytes, unchecked.
    pub fn from_bytes(bytes: [u8; 4]) -> (r: ChunkType)
        ensures
            r@ == bytes@,
    {
        let r = ChunkType {
            ancillary: bytes[0],
            private: bytes[1],
            reserved: bytes[2],
            safe_to_copy: bytes[3],
        };
        assert(r@ =~= bytes@);
        r
    }

    /// Parses a chunk type from a string of four ASCII letters; any other
    /// string is a format error.
    pub fn from_str(s: &str) -> (r: Result<ChunkType, PngError>)
        ensures
            r is Ok <==> tag_from_chars(s@) is Ok,
            r is Ok ==> tag_from_chars(s@) == Ok::<Seq<u8>, PngError>(r->Ok_0@),
            r is Err ==> r->Err_0 == PngError::Format,
    {
        broadcast use vstd::string::is_ascii_spec_bytes;

        if !s.is_ascii() {
            proof {
                let k = choose|k: int| 0 <= k < s@.len() && !('\0' <= #[trigger] s@[k] <= '\u{7f}');
                if s@.len() == 4 {
                    assert(!is_letter_char(s@[k]));
                }
            }
            return Err(PngError::Format);
        }
        let b = s.as_bytes();
        if b.len() != 4 {
            return Err(PngError::Format);
        }
        let mut i: usize = 0;
        while i < 4
            invariant
                i <= 4,
                b@.len() == 4,
                s@.len() == 4,
                forall|j: int| 0 <= j < 4 ==> #[trigger] b@[j] == s@[j] as u8,
                forall|j: int| 0 <= j < 4 ==> '\0' <= #[trigger] s@[j] <= '\u{7f}',
                forall|j: int| 0 <= j < i ==> #[trigger] is_letter_char(s@[j]),
            decreases 4 - i,
        {
            if !ChunkType::is_valid_byte(b[i]) {
                assert(!is_letter_char(s@[i as int]));
                return Err(PngError::Format);
            }
            i = i + 1;
        }
        let r = ChunkType { ancillary: b[0], private: b[1], reserved: b[2], safe_to_copy: b[3] };
        assert(r@ =~= s@.map_values(|c: char| c as u8));
        Ok(r)
    }

    /// The text form: each byte as the character of that code.
    pub fn to_string(&self) -> (r: String)
        ensures
            r@ == tag_chars(self@),
    {
        let mut chars: Vec<char> = Vec::new();
        chars.push(self.ancillary as char);
        chars.push(self.private as char);
        chars.push(self.reserved as char);
        chars.push(self.safe_to_copy as char);
        assert(chars@ =~= tag_chars(self@));
        chars_to_string(&chars)
    }

    /// The four bytes, in order.
    pub fn bytes(&self) -> (r: [u8; 4])
        ensures
            r@ == self@,
    {
        let r = [self.ancillary, self.private, self.reserved, self.safe_to_copy];
        assert(r@ =~= self@);
        r
    }

    /// Whether a byte is an ASCII letter.
    pub fn is_valid_byte(byte: u8) -> (r: bool)
        ensures
            r == is_letter(byte),
    {
        byte_is_upper(byte) || byte_is_lower(byte)
    }

    /// Whether the reserved bit is valid and all four bytes are letters.
    pub fn is_valid(&self) -> (r: bool)
        ensures
            r == tag_valid(self@),
    {
        if !self.is_reserved_bit_valid() {
            return false;
        }
        let bytes = self.bytes();
        let mut i: usize = 0;
        while i < 4
            invariant
                i <= 4,
                bytes@ == self@,
                forall|j: int| 0 <= j < i ==> #[trigger] is_letter(self@[j]),
            decreases 4 - i,
        {
            if !ChunkType::is_valid_byte(bytes[i]) {
                return false;
            }
            i = i + 1;
        }
        true
    }

    /// Whether the chunk is critical: the first byte is uppercase.
    pub fn is_critical(&self) -> (r: bool)
        ensures
            r == tag_critical(self@),
    {
        byte_is_upper(self.ancillary)
    }

    /// Whether the chunk is public: the second byte is uppercase.
    pub fn is_public(&self) -> (r: bool)
        ensures
            r == tag_public(self@),
    {
        byte_is_upper(self.private)
    }

    /// Whether the reserved bit is valid: the third byte is uppercase.
    pub fn is_reserved_bit_valid(&self) -> (r: bool)
        ensures
            r == tag_reserved_bit_valid(self@),
    {
        byte_is_upper(self.reserved)
    }

    /// Whether the chunk is safe to copy: the fourth byte is lowercase.
    pub fn is_safe_to_copy(&self) -> (r: bool)
        ensures
            r == tag_safe_to_copy(self@),
    {
        byte_is_lower(self.safe_to_copy)
    }
}

/// A string accepted as a chunk type reads back as the same string, in the
/// same case.
pub proof fn lemma_type_text_round_trip(s: Seq<char>)
    requires
        tag_from_chars(s) is Ok,
    ensures
        tag_chars(tag_from_chars(s)->Ok_0) == s,
{
    let t = tag_from_chars(s)->Ok_0;
    assert forall|i: int| 0 <= i < 4 implies #[trigger] tag_chars(t)[i] == s[i] by {
        assert(is_letter_char(s[i]));
    }
    assert(tag_chars(t) =~= s);
}

/// Each property reads one byte alone: two tags that agree on that byte
/// agree on the property, whatever their other three bytes hold.
pub proof fn lemma_flags_by_byte(a: Seq<u8>, b: Seq<u8>)
    requires
        a.len() == 4,
        b.len() == 4,
    ensures
        a[0] == b[0] ==> tag_critical(a) == tag_critical(b),
        a[1] == b[1] ==> tag_public(a) == tag_public(b),
        a[2] == b[2] ==> tag_reserved_bit_valid(a) == tag_reserved_bit_valid(b),
        a[3] == b[3] ==> tag_safe_to_copy(a) == tag_safe_to_copy(b),
{
}

impl TryFrom<[u8; 4]> for ChunkType {
    type Error = PngError;

    /// Never fails: the chunk type holds the four bytes as they are.
    fn try_from(bytes: [u8; 4]) -> (r: Result<ChunkType, PngError>)
        ensures
            r is Ok,
            r->Ok_0@ == bytes@,
    {
        let r = ChunkType::from_bytes(bytes);
        proof {
            let t = choose|t: ChunkType| t@ == bytes@;
            assert(t@[0] == r@[0] && t@[1] == r@[1] && t@[2] == r@[2] && t@[3] == r@[3]);
        }
        Ok(r)
    }
}

impl vstd::std_specs::convert::TryFromSpecImpl<[u8; 4]> for ChunkType {
    open spec fn obeys_try_from_spec() -> bool {
        true
    }

    /// Never fails: the chunk type holds the four bytes as they are.
    open spec fn try_from_spec(bytes: [u8; 4]) -> Result<ChunkType, PngError> {
        Ok(choose|t: ChunkType| t@ == bytes@)
    }
}

impl core::str::FromStr for ChunkType {
    type Err = PngError;

    fn from_str(s: &str) -> Result<ChunkType, PngError> {
        ChunkType::from_str(s)
    }
}

} // verus!
