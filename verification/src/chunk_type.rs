//! The four-byte chunk type code and its case-encoded classification bits.
use vstd::prelude::*;
use vstd::string::StringExecFns;
use vstd::string::StringSliceAdditionalSpecFns;

verus! {

/// True iff `b` is an uppercase ASCII letter.
pub open spec fn spec_is_upper(b: u8) -> bool {
    65 <= b <= 90
}

/// True iff `b` is a lowercase ASCII letter.
pub open spec fn spec_is_lower(b: u8) -> bool {
    97 <= b <= 122
}

/// True iff `b` is an ASCII letter of either case.
pub open spec fn spec_is_letter(b: u8) -> bool {
    spec_is_upper(b) || spec_is_lower(b)
}

/// The text form of a run of raw bytes: each byte read as one character.
pub open spec fn spec_type_chars(b: Seq<u8>) -> Seq<char> {
    Seq::new(b.len(), |i: int| b[i] as char)
}

/// A standards-conformant type code: four ASCII letters whose reserved-bit
/// position (index 2) is uppercase.
pub open spec fn spec_type_is_valid(b: Seq<u8>) -> bool {
    &&& b.len() == 4
    &&& forall|i: int| 0 <= i < 4 ==> spec_is_letter(#[trigger] b[i])
    &&& spec_is_upper(b[2])
}

/// A four-byte chunk type identifier. Each byte's ASCII case encodes one
/// boolean classification of the chunk that carries it.
#[derive(Debug)]
pub struct ChunkType {
    pub bytes: [u8; 4],
}

impl View for ChunkType {
    type V = Seq<u8>;

    open spec fn view(&self) -> Seq<u8> {
        self.bytes@
    }
}

/// Rejected constructions of a `ChunkType` from text.
#[derive(Debug)]
pub enum ChunkTypeError {
    InconsistentByteLength(usize),
    InvalidChunkType(String),
}

impl ChunkType {
    /// Wraps four raw bytes verbatim; any bytes are accepted.
    pub fn try_from(value: [u8; 4]) -> (r: Result<Self, ChunkTypeError>)
        ensures
            r matches Ok(t) && t@ == value@,
    {
        Ok(ChunkType { bytes: value })
    }

    /// Builds a type code from text. Any byte of the text's UTF-8 form that is
    /// not an ASCII letter is rejected first; only then must the text be
    /// exactly four bytes long.
    pub fn from_str(s: &str) -> (r: Result<Self, ChunkTypeError>)
        ensures
            (exists|i: int|
                0 <= i < s.spec_bytes().len() && !spec_is_letter(#[trigger] s.spec_bytes()[i]))
                <==> (r matches Err(ChunkTypeError::InvalidChunkType(t)) && t@ == s@),
            (forall|i: int|
                0 <= i < s.spec_bytes().len() ==> spec_is_letter(#[trigger] s.spec_bytes()[i]))
                && s.spec_bytes().len() != 4 <==> (r matches Err(
                ChunkTypeError::InconsistentByteLength(n),
            ) && n == s.spec_bytes().len()),
            r matches Ok(t) ==> t@ == s.spec_bytes() && s.spec_bytes().len() == 4,
            (forall|i: int|
                0 <= i < s.spec_bytes().len() ==> spec_is_letter(#[trigger] s.spec_bytes()[i]))
                && s.spec_bytes().len() == 4 ==> r is Ok,
    {
        let bytes: &[u8] = s.as_bytes();
        let n = bytes.len();
        let mut i: usize = 0;
        while i < n
            invariant
                0 <= i <= n,
                n == bytes@.len(),
                bytes@ == s.spec_bytes(),
                forall|j: int| 0 <= j < i ==> spec_is_letter(#[trigger] bytes@[j]),
            decreases n - i,
        {
            let b = *vstd::slice::slice_index_get(bytes, i);
            if !((b >= 65 && b <= 90) || (b >= 97 && b <= 122)) {
                return Err(ChunkTypeError::InvalidChunkType(String::from_str(s)));
            }
            i = i + 1;
        }
        if n != 4 {
            return Err(ChunkTypeError::InconsistentByteLength(n));
        }
        let b0 = *vstd::slice::slice_index_get(bytes, 0);
        let b1 = *vstd::slice::slice_index_get(bytes, 1);
        let b2 = *vstd::slice::slice_index_get(bytes, 2);
        let b3 = *vstd::slice::slice_index_get(bytes, 3);
        let t = ChunkType { bytes: [b0, b1, b2, b3] };
        proof {
            assert(t@ =~= s.spec_bytes());
        }
        Ok(t)
    }

    /// The four raw bytes of the code.
    pub fn bytes(&self) -> (r: [u8; 4])
        ensures
            r@ == self@,
    {
        self.bytes
    }

    /// The validity test a chunk must pass to be accepted during parsing: all four
    /// bytes are letters and the reserved-bit byte is uppercase.
    pub fn is_valid(&self) -> (r: bool)
        ensures
            r == spec_type_is_valid(self@),
    {
        let r = (self.bytes[0] >= 65 && self.bytes[0] <= 90 || self.bytes[0] >= 97
            && self.bytes[0] <= 122) && (self.bytes[1] >= 65 && self.bytes[1] <= 90
            || self.bytes[1] >= 97 && self.bytes[1] <= 122) && (self.bytes[2] >= 65
            && self.bytes[2] <= 90) && (self.bytes[3] >= 65 && self.bytes[3] <= 90
            || self.bytes[3] >= 97 && self.bytes[3] <= 122);
        proof {
            if r {
                assert forall|i: int| 0 <= i < 4 implies spec_is_letter(#[trigger] self@[i]) by {
                    if i == 0 {
                    } else if i == 1 {
                    } else if i == 2 {
                    } else {
                    }
                }
            }
        }
        r
    }

    /// Critical chunks carry an uppercase first byte; ancillary ones do not.
    pub fn is_critical(&self) -> (r: bool)
        ensures
            r == spec_is_upper(self@[0]),
    {
        self.bytes[0] >= 65 && self.bytes[0] <= 90
    }

    /// Public chunks carry an uppercase second byte; private ones do not.
    pub fn is_public(&self) -> (r: bool)
        ensures
            r == spec_is_upper(self@[1]),
    {
        self.bytes[1] >= 65 && self.bytes[1] <= 90
    }

    /// The reserved bit is valid when the third byte is uppercase.
    pub fn is_reserved_bit_valid(&self) -> (r: bool)
        ensures
            r == spec_is_upper(self@[2]),
    {
        self.bytes[2] >= 65 && self.bytes[2] <= 90
    }

    /// A chunk is safe to copy when the fourth byte is lowercase.
    pub fn is_safe_to_copy(&self) -> (r: bool)
        ensures
            r == spec_is_lower(self@[3]),
    {
        self.bytes[3] >= 97 && self.bytes[3] <= 122
    }

    /// Renders the four bytes as text, one character per byte.
    pub fn to_text(&self) -> (r: String)
        ensures
            r@ == spec_type_chars(self@),
    {
        let mut r = String::new();
        push_char(&mut r, self.bytes[0] as char);
        push_char(&mut r, self.bytes[1] as char);
        push_char(&mut r, self.bytes[2] as char);
        push_char(&mut r, self.bytes[3] as char);
        proof {
            assert(r@ =~= spec_type_chars(self@));
        }
        r
    }
}

/// Relies on String::push: appends exactly the one given character.
#[verifier::external_body]
fn push_char(s: &mut String, c: char)
    ensures
        final(s)@ == old(s)@.push(c),
{
    s.push(c)
}

impl PartialEq for ChunkType {
    /// Two codes are equal iff their four bytes are identical.
    fn eq(&self, other: &Self) -> (r: bool) {
        let r = self.bytes[0] == other.bytes[0] && self.bytes[1] == other.bytes[1]
            && self.bytes[2] == other.bytes[2] && self.bytes[3] == other.bytes[3];
        proof {
            if r {
                assert(self@ =~= other@);
            }
        }
        r
    }
}

impl Eq for ChunkType {

}

impl vstd::std_specs::cmp::PartialEqSpecImpl for ChunkType {
    open spec fn obeys_eq_spec() -> bool {
        true
    }

    open spec fn eq_spec(&self, other: &Self) -> bool {
        self@ == other@
    }
}

} // verus!
