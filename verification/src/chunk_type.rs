//! The four-letter type code that names a chunk's purpose.

use crate::error::PngError;
use crate::text::{bytes_as_chars, lemma_ascii_is_utf8, string_from_utf8};
use std::cmp::Ordering;
use std::str::FromStr;
use vstd::pervasive::unreached;
use vstd::prelude::*;

verus! {

/// Whether `b` is an ASCII letter, `A`–`Z` or `a`–`z`.
pub open spec fn is_ascii_letter(b: u8) -> bool {
    (0x41 <= b <= 0x5a) || (0x61 <= b <= 0x7a)
}

/// Whether `c` is an ASCII letter, `A`–`Z` or `a`–`z`.
pub open spec fn is_letter_char(c: char) -> bool {
    ('A' <= c <= 'Z') || ('a' <= c <= 'z')
}

/// The grammar of a chunk type: exactly four bytes, each an ASCII letter.
pub open spec fn valid_type_bytes(bytes: Seq<u8>) -> bool {
    &&& bytes.len() == 4
    &&& forall|i: int| 0 <= i < 4 ==> is_ascii_letter(#[trigger] bytes[i])
}

/// What reading a text as a chunk type yields: the four bytes of the type, or
/// the reason why the text is none.
pub open spec fn spec_type_from_text(text: Seq<char>) -> Result<Seq<u8>, PngError> {
    if text.len() != 4 {
        Err(PngError::InvalidTagLength)
    } else if !(forall|i: int| 0 <= i < 4 ==> is_letter_char(#[trigger] text[i])) {
        Err(PngError::InvalidTagBytes)
    } else {
        Ok(Seq::new(4, |i: int| text[i] as u8))
    }
}

/// Whether bit 5 of the first byte is clear, which marks a chunk that a
/// decoder must understand to show the image.
pub open spec fn spec_is_critical(bytes: Seq<u8>) -> bool {
    bytes[0] & 0x20 == 0
}

/// How two bytes compare as numbers.
pub open spec fn byte_order(x: u8, y: u8) -> Ordering {
    if x < y {
        Ordering::Less
    } else if x == y {
        Ordering::Equal
    } else {
        Ordering::Greater
    }
}

/// How two chunk types compare: byte by byte, the first difference decides.
pub open spec fn type_order(a: Seq<u8>, b: Seq<u8>) -> Ordering {
    if a[0] != b[0] {
        byte_order(a[0], b[0])
    } else if a[1] != b[1] {
        byte_order(a[1], b[1])
    } else if a[2] != b[2] {
        byte_order(a[2], b[2])
    } else {
        byte_order(a[3], b[3])
    }
}

/// A validated chunk type: four ASCII letters.
///
/// Two types are equal when their bytes are, and they are ordered byte-wise.
#[derive(Clone, Copy, Debug, Hash, Eq, Ord)]
pub struct ChunkType {
    bytes: [u8; 4],
}

impl View for ChunkType {
    type V = Seq<u8>;

    /// The four bytes of the type, in order.
    closed spec fn view(&self) -> Seq<u8> {
        self.bytes@
    }
}

impl ChunkType {
    /// Whether the value obeys the grammar. Every `ChunkType` that exists at
    /// run time does.
    #[verifier::type_invariant]
    pub open spec fn wf(&self) -> bool {
        valid_type_bytes(self@)
    }

    /// The four bytes of the type.
    pub fn bytes(&self) -> (b: [u8; 4])
        ensures
            b@ == self@,
            self.wf(),
    {
        proof {
            use_type_invariant(self);
        }
        self.bytes
    }

    /// Whether the chunk is critical: bit 5 of the first byte is clear, which
    /// for a letter means that it is upper case.
    pub fn is_critical(&self) -> (b: bool)
        ensures
            b == spec_is_critical(self@),
            b == (0x41 <= self@[0] <= 0x5a),
    {
        proof {
            use_type_invariant(self);
        }
        let first: u8 = self.bytes[0];
        assert(is_ascii_letter(first));
        assert((first & 0x20 == 0) == (0x41 <= first <= 0x5a)) by (bit_vector)
            requires
                (0x41 <= first <= 0x5a) || (0x61 <= first <= 0x7a),
        ;
        first & 0x20 == 0
    }

    /// The type as text: its four letters.
    pub fn to_string(&self) -> (s: String)
        ensures
            s@ == bytes_as_chars(self@),
    {
        proof {
            use_type_invariant(self);
        }
        let mut raw: Vec<u8> = Vec::new();
        raw.push(self.bytes[0]);
        raw.push(self.bytes[1]);
        raw.push(self.bytes[2]);
        raw.push(self.bytes[3]);
        proof {
            assert(raw@ =~= self@);
            assert forall|i: int| 0 <= i < raw@.len() implies raw@[i] < 128 by {
                assert(is_ascii_letter(self@[i]));
            }
            lemma_ascii_is_utf8(raw@);
        }
        match string_from_utf8(raw) {
            Ok(s) => s,
            Err(_) => unreached(),
        }
    }
}

impl PartialEq for ChunkType {
    fn eq(&self, other: &ChunkType) -> (r: bool) {
        let equal = self.bytes[0] == other.bytes[0] && self.bytes[1] == other.bytes[1]
            && self.bytes[2] == other.bytes[2] && self.bytes[3] == other.bytes[3];
        proof {
            use_type_invariant(self);
            use_type_invariant(other);
            if equal {
                assert(self@ =~= other@);
            }
        }
        equal
    }
}

impl vstd::std_specs::cmp::PartialEqSpecImpl for ChunkType {
    open spec fn obeys_eq_spec() -> bool {
        true
    }

    open spec fn eq_spec(&self, other: &ChunkType) -> bool {
        self@ == other@
    }
}

impl PartialOrd for ChunkType {
    fn partial_cmp(&self, other: &ChunkType) -> (r: Option<Ordering>) {
        let mut i: usize = 0;
        while i < 4
            invariant
                i <= 4,
                forall|j: int| 0 <= j < i ==> self.bytes@[j] == other.bytes@[j],
            decreases 4 - i,
        {
            let x: u8 = self.bytes[i];
            let y: u8 = other.bytes[i];
            if x < y {
                return Some(Ordering::Less);
            }
            if x > y {
                return Some(Ordering::Greater);
            }
            i += 1;
        }
        Some(Ordering::Equal)
    }
}

impl vstd::std_specs::cmp::PartialOrdSpecImpl for ChunkType {
    open spec fn obeys_partial_cmp_spec() -> bool {
        true
    }

    open spec fn partial_cmp_spec(&self, other: &ChunkType) -> Option<Ordering> {
        Some(type_order(self@, other@))
    }
}

impl TryFrom<[u8; 4]> for ChunkType {
    type Error = PngError;

    /// Makes a chunk type of four raw bytes, which must all be ASCII letters.
    fn try_from(bytes: [u8; 4]) -> (r: Result<ChunkType, PngError>)
        ensures
            match r {
                Ok(t) => valid_type_bytes(bytes@) && t@ == bytes@,
                Err(e) => !valid_type_bytes(bytes@) && e == PngError::InvalidTagBytes,
            },
    {
        let mut i: usize = 0;
        while i < 4
            invariant
                i <= 4,
                forall|j: int| 0 <= j < i ==> is_ascii_letter(#[trigger] bytes@[j]),
            decreases 4 - i,
        {
            if !is_letter(bytes[i]) {
                return Err(PngError::InvalidTagBytes);
            }
            i += 1;
        }
        Ok(ChunkType { bytes })
    }
}

impl vstd::std_specs::convert::TryFromSpecImpl<[u8; 4]> for ChunkType {
    open spec fn obeys_try_from_spec() -> bool {
        true
    }

    closed spec fn try_from_spec(bytes: [u8; 4]) -> Result<ChunkType, PngError> {
        if valid_type_bytes(bytes@) {
            Ok(ChunkType { bytes })
        } else {
            Err(PngError::InvalidTagBytes)
        }
    }
}

impl FromStr for ChunkType {
    type Err = PngError;

    /// Reads a chunk type from text, which must be exactly four ASCII
    /// letters. A wrong number of characters is reported before a character
    /// that is no letter.
    fn from_str(s: &str) -> (r: Result<ChunkType, PngError>)
        ensures
            match r {
                Ok(t) => spec_type_from_text(s@) == Ok::<Seq<u8>, PngError>(t@) && t.wf()
                    && bytes_as_chars(t@) == s@,
                Err(e) => spec_type_from_text(s@) == Err::<Seq<u8>, PngError>(e),
            },
    {
        if s.unicode_len() != 4 {
            return Err(PngError::InvalidTagLength);
        }
        let mut bytes: [u8; 4] = [0, 0, 0, 0];
        let mut i: usize = 0;
        while i < 4
            invariant
                i <= 4,
                s@.len() == 4,
                forall|j: int| 0 <= j < i ==> is_letter_char(#[trigger] s@[j]),
                forall|j: int| 0 <= j < i ==> bytes@[j] == s@[j] as u8,
                forall|j: int| 0 <= j < i ==> is_ascii_letter(#[trigger] bytes@[j]),
            decreases 4 - i,
        {
            let c: char = s.get_char(i);
            if !(('A' <= c && c <= 'Z') || ('a' <= c && c <= 'z')) {
                return Err(PngError::InvalidTagBytes);
            }
            bytes[i] = c as u8;
            i += 1;
        }
        assert(bytes@ =~= Seq::new(4, |i: int| s@[i] as u8));
        proof {
            lemma_text_names_type(bytes@, s@);
        }
        Ok(ChunkType { bytes })
    }
}

/// Writing a type as text and reading a text as a type undo each other: a
/// text is the text of a valid type exactly when it reads as that type.
pub proof fn lemma_text_names_type(chunk_type: Seq<u8>, text: Seq<char>)
    requires
        valid_type_bytes(chunk_type),
    ensures
        bytes_as_chars(chunk_type) == text <==> spec_type_from_text(text) == Ok::<
            Seq<u8>,
            PngError,
        >(chunk_type),
{
    if bytes_as_chars(chunk_type) == text {
        assert forall|i: int| 0 <= i < 4 implies is_letter_char(#[trigger] text[i]) by {
            assert(is_ascii_letter(chunk_type[i]));
        }
        assert(Seq::new(4, |i: int| text[i] as u8) =~= chunk_type) by {
            assert forall|i: int| 0 <= i < 4 implies text[i] as u8 == chunk_type[i] by {
                assert(is_ascii_letter(chunk_type[i]));
            }
        }
    }
    if spec_type_from_text(text) == Ok::<Seq<u8>, PngError>(chunk_type) {
        assert(bytes_as_chars(chunk_type) =~= text) by {
            assert forall|i: int| 0 <= i < 4 implies chunk_type[i] as char == text[i] by {
                assert(is_letter_char(text[i]));
                assert(chunk_type[i] == Seq::new(4, |i: int| text[i] as u8)[i]);
            }
        }
    }
}

/// Whether `b` is an ASCII letter.
fn is_letter(b: u8) -> (r: bool)
    ensures
        r == is_ascii_letter(b),
{
    (0x41 <= b && b <= 0x5a) || (0x61 <= b && b <= 0x7a)
}

} // verus!
