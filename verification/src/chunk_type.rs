//! Chunk types: the four ASCII letters that name the kind of a chunk, and
//! the flags that the case of each letter encodes.
use crate::error::PngError;
use std::str::FromStr;
use vstd::prelude::*;
use vstd::utf8::{decode_utf8, encode_utf8, is_ascii_chars, valid_utf8};

verus! {

/// True when `b` is one of `A` to `Z`.
pub open spec fn is_upper(b: u8) -> bool {
    0x41 <= b <= 0x5A
}

/// True when `b` is one of `a` to `z`.
pub open spec fn is_lower(b: u8) -> bool {
    0x61 <= b <= 0x7A
}

/// True when `b` is an ASCII letter.
pub open spec fn is_letter(b: u8) -> bool {
    is_upper(b) || is_lower(b)
}

/// True when bit 5 of `b` is clear. Bit 5 is what tells the two cases of a
/// letter apart.
pub open spec fn bit5_clear(b: u8) -> bool {
    b & 0x20 == 0
}

/// True when `bytes` can be a chunk type: four ASCII letters.
pub open spec fn is_tag(bytes: Seq<u8>) -> bool {
    &&& bytes.len() == 4
    &&& forall|i: int| 0 <= i < 4 ==> is_letter(#[trigger] bytes[i])
}

/// True when `c` is an ASCII letter.
pub open spec fn is_letter_char(c: char) -> bool {
    ('A' <= c <= 'Z') || ('a' <= c <= 'z')
}

/// The text that spells `bytes`: each byte as the character with its code.
pub open spec fn text_of(bytes: Seq<u8>) -> Seq<char> {
    Seq::new(bytes.len(), |i: int| bytes[i] as char)
}

/// The bytes that `text` is spelled with, where all of it is ASCII.
pub open spec fn bytes_of(text: Seq<char>) -> Seq<u8> {
    Seq::new(text.len(), |i: int| text[i] as u8)
}

/// What reading a chunk type from four bytes gives.
pub open spec fn spec_try_from(bytes: Seq<u8>) -> Result<Seq<u8>, PngError> {
    if is_tag(bytes) {
        Ok(bytes)
    } else {
        Err(PngError::InvalidTagBytes)
    }
}

/// What reading a chunk type from text gives.
pub open spec fn spec_from_str(text: Seq<char>) -> Result<Seq<u8>, PngError> {
    if text.len() != 4 {
        Err(PngError::InvalidTagLength)
    } else if exists|i: int| 0 <= i < 4 && !is_letter_char(#[trigger] text[i]) {
        Err(PngError::InvalidTagBytes)
    } else {
        Ok(bytes_of(text))
    }
}

/// Of a letter, bit 5 is clear exactly when it is upper case.
pub proof fn lemma_case_bit(b: u8)
    requires
        is_letter(b),
    ensures
        bit5_clear(b) <==> is_upper(b),
        !bit5_clear(b) <==> is_lower(b),
{
    assert((0x41 <= b <= 0x5A) ==> b & 0x20 == 0) by (bit_vector);
    assert((0x61 <= b <= 0x7A) ==> b & 0x20 != 0) by (bit_vector);
}

/// Text read as a chunk type spells that chunk type again, and the other
/// way round.
pub proof fn lemma_text_round_trip(bytes: Seq<u8>)
    requires
        is_tag(bytes),
    ensures
        spec_from_str(text_of(bytes)) == Ok::<Seq<u8>, PngError>(bytes),
        bytes_of(text_of(bytes)) == bytes,
{
    let text = text_of(bytes);
    assert forall|i: int| 0 <= i < 4 implies is_letter_char(#[trigger] text[i]) by {
        assert(is_letter(bytes[i]));
    }
    assert(bytes_of(text) =~= bytes);
}

/// A chunk type read from text is spelled by that text.
pub proof fn lemma_from_str_text(text: Seq<char>)
    requires
        spec_from_str(text) is Ok,
    ensures
        is_tag(spec_from_str(text)->Ok_0),
        text_of(spec_from_str(text)->Ok_0) == text,
{
    let bytes = bytes_of(text);
    assert forall|i: int| 0 <= i < 4 implies is_letter(#[trigger] bytes[i]) by {
        assert(is_letter_char(text[i]));
    }
    assert forall|i: int| 0 <= i < 4 implies text_of(bytes)[i] == text[i] by {
        assert(is_letter_char(text[i]));
    }
    assert(text_of(bytes) =~= text);
}

/// The text of a chunk type is the UTF-8 decoding of its bytes.
pub proof fn lemma_tag_utf8(bytes: Seq<u8>)
    requires
        is_tag(bytes),
    ensures
        valid_utf8(bytes),
        decode_utf8(bytes) == text_of(bytes),
{
    let text = text_of(bytes);
    assert forall|i: int| 0 <= i < text.len() implies '\0' <= #[trigger] text[i] <= '\u{7f}' by {
        assert(is_letter(bytes[i]));
    }
    assert(is_ascii_chars(text));
    vstd::utf8::is_ascii_chars_encode_utf8(text);
    assert forall|i: int| 0 <= i < 4 implies encode_utf8(text)[i] == bytes[i] by {
        assert(is_letter(bytes[i]));
        assert(text[i] as u8 == encode_utf8(text)[i]);
    }
    assert(encode_utf8(text) =~= bytes);
    vstd::utf8::encode_utf8_valid_utf8(text);
    vstd::utf8::encode_utf8_decode_utf8(text);
}

/// Tells whether a byte is an ASCII letter.
pub fn is_alphabet(value: &u8) -> (r: bool)
    ensures
        r == is_letter(*value),
{
    let b: u8 = *value;
    (b >= 0x61 && b <= 0x7A) || (b >= 0x41 && b <= 0x5A)
}

/// Tells whether every byte of `value` is an ASCII letter.
fn all_letters(value: &[u8; 4]) -> (r: bool)
    ensures
        r == is_tag(value@),
{
    is_alphabet(&value[0]) && is_alphabet(&value[1]) && is_alphabet(&value[2]) && is_alphabet(
        &value[3],
    )
}

/// The type of a chunk: four ASCII letters.
///
/// A value of this type always holds four letters; bytes that are not
/// letters are refused when it is made. Whether the third letter is upper
/// case, as the PNG format demands, is a separate question that
/// [`ChunkType::is_valid`] answers.
#[derive(Debug, Clone, Copy)]
pub struct ChunkType {
    data: [u8; 4],
}

impl View for ChunkType {
    type V = Seq<u8>;

    closed spec fn view(&self) -> Seq<u8> {
        self.data@
    }
}

impl ChunkType {
    /// What holds of every chunk type: it is four ASCII letters.
    #[verifier::type_invariant]
    pub open spec fn four_letters(self) -> bool {
        is_tag(self@)
    }

    /// The four bytes.
    pub fn bytes(self: Self) -> (r: [u8; 4])
        ensures
            r@ == self@,
            is_tag(self@),
    {
        proof {
            use_type_invariant(&self);
        }
        self.data
    }

    /// Tells whether the chunk type is one that the PNG format allows: its
    /// third letter is upper case.
    pub fn is_valid(self: Self) -> (r: bool)
        ensures
            r == bit5_clear(self@[2]),
            r == (is_tag(self@) && is_upper(self@[2])),
    {
        self.is_reserved_bit_valid()
    }

    /// Tells whether a decoder must understand the chunk: the first letter
    /// is upper case.
    pub fn is_critical(self: Self) -> (r: bool)
        ensures
            r == bit5_clear(self@[0]),
            r == is_upper(self@[0]),
    {
        proof {
            use_type_invariant(&self);
            lemma_case_bit(self.data@[0]);
        }
        self.data[0] & 0x20 == 0
    }

    /// Tells whether the chunk type belongs to the public vocabulary: the
    /// second letter is upper case.
    pub fn is_public(self: Self) -> (r: bool)
        ensures
            r == bit5_clear(self@[1]),
            r == is_upper(self@[1]),
    {
        proof {
            use_type_invariant(&self);
            lemma_case_bit(self.data@[1]);
        }
        self.data[1] & 0x20 == 0
    }

    /// Tells whether the reserved bit has the value that the format asks
    /// for: the third letter is upper case.
    pub fn is_reserved_bit_valid(self: Self) -> (r: bool)
        ensures
            r == bit5_clear(self@[2]),
            r == is_upper(self@[2]),
            is_tag(self@),
    {
        proof {
            use_type_invariant(&self);
            lemma_case_bit(self.data@[2]);
        }
        self.data[2] & 0x20 == 0
    }

    /// Tells whether an editor that does not know the chunk may copy it to
    /// a changed file: the fourth letter is lower case.
    pub fn is_safe_to_copy(self: Self) -> (r: bool)
        ensures
            r == !bit5_clear(self@[3]),
            r == is_lower(self@[3]),
    {
        proof {
            use_type_invariant(&self);
            lemma_case_bit(self.data@[3]);
        }
        self.data[3] & 0x20 != 0
    }

    /// Reads a chunk type from text of four ASCII letters.
    pub fn from_str(s: &str) -> (r: Result<ChunkType, PngError>)
        ensures
            r matches Ok(t) ==> spec_from_str(s@) == Ok::<Seq<u8>, PngError>(t@),
            r matches Err(e) ==> spec_from_str(s@) == Err::<Seq<u8>, PngError>(e),
    {
        if s.unicode_len() != 4 {
            return Err(PngError::InvalidTagLength);
        }
        let mut data: [u8; 4] = [0; 4];
        let mut i: usize = 0;
        while i < 4
            invariant
                i <= 4,
                s@.len() == 4,
                forall|j: int| 0 <= j < i ==> is_letter_char(#[trigger] s@[j]),
                forall|j: int| 0 <= j < i ==> data@[j] == s@[j] as u8,
            decreases 4 - i,
        {
            let c: char = s.get_char(i);
            if !((c >= 'A' && c <= 'Z') || (c >= 'a' && c <= 'z')) {
                return Err(PngError::InvalidTagBytes);
            }
            data[i] = c as u8;
            i += 1;
        }
        assert(data@ =~= bytes_of(s@));
        assert forall|j: int| 0 <= j < 4 implies is_letter(#[trigger] data@[j]) by {
            assert(is_letter_char(s@[j]));
        }
        Ok(ChunkType { data })
    }

    /// The chunk type as text.
    pub fn to_string(&self) -> (r: String)
        ensures
            r@ == text_of(self@),
    {
        proof {
            use_type_invariant(self);
            lemma_tag_utf8(self.data@);
        }
        let mut raw: Vec<u8> = Vec::new();
        raw.push(self.data[0]);
        raw.push(self.data[1]);
        raw.push(self.data[2]);
        raw.push(self.data[3]);
        assert(raw@ =~= self.data@);
        match String::from_utf8(raw) {
            Ok(s) => s,
            Err(_) => {
                // Four ASCII letters are valid UTF-8, so this is never reached.
                assert(false);
                String::new()
            },
        }
    }
}

impl TryFrom<[u8; 4]> for ChunkType {
    type Error = PngError;

    /// Reads a chunk type from four bytes, which must all be ASCII letters.
    fn try_from(value: [u8; 4]) -> (r: Result<ChunkType, PngError>)
        ensures
            r matches Ok(t) ==> spec_try_from(value@) == Ok::<Seq<u8>, PngError>(t@),
            r matches Err(e) ==> spec_try_from(value@) == Err::<Seq<u8>, PngError>(e),
    {
        if all_letters(&value) {
            Ok(ChunkType { data: value })
        } else {
            Err(PngError::InvalidTagBytes)
        }
    }
}

impl vstd::std_specs::convert::TryFromSpecImpl<[u8; 4]> for ChunkType {
    open spec fn obeys_try_from_spec() -> bool {
        true
    }

    closed spec fn try_from_spec(value: [u8; 4]) -> Result<ChunkType, PngError> {
        if is_tag(value@) {
            Ok(ChunkType { data: value })
        } else {
            Err(PngError::InvalidTagBytes)
        }
    }
}

impl FromStr for ChunkType {
    type Err = PngError;

    /// The same as [`ChunkType::from_str`].
    fn from_str(s: &str) -> (r: Result<ChunkType, PngError>)
        ensures
            r matches Ok(t) ==> spec_from_str(s@) == Ok::<Seq<u8>, PngError>(t@),
            r matches Err(e) ==> spec_from_str(s@) == Err::<Seq<u8>, PngError>(e),
    {
        ChunkType::from_str(s)
    }
}

impl PartialEq for ChunkType {
    /// Two chunk types are equal when their bytes are.
    fn eq(&self, other: &ChunkType) -> (r: bool) {
        let r = self.data[0] == other.data[0] && self.data[1] == other.data[1] && self.data[2]
            == other.data[2] && self.data[3] == other.data[3];
        assert(r == (self.data@ =~= other.data@));
        r
    }
}

impl vstd::std_specs::cmp::PartialEqSpecImpl for ChunkType {
    open spec fn obeys_eq_spec() -> bool {
        true
    }

    open spec fn eq_spec(&self, other: &ChunkType) -> bool {
        self@ == other@
    }
}

impl Eq for ChunkType {

}

} // verus!
