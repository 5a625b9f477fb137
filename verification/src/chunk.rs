//! One length-prefixed, type-tagged, checksummed record of the container
//! stream, with its wire format: length (4 bytes, big-endian), type code
//! (4 bytes), payload, CRC-32/IEEE over type and payload (4 bytes,
//! big-endian).
use crate::chunk_type::{spec_type_chars, spec_type_is_valid, ChunkType};
use vstd::prelude::*;
use vstd::utf8::{decode_utf8, valid_utf8};

verus! {

/// A `u32` read from four bytes, most significant first.
pub open spec fn spec_u32_from_be(b0: u8, b1: u8, b2: u8, b3: u8) -> u32 {
    ((b0 as u32) << 24) | ((b1 as u32) << 16) | ((b2 as u32) << 8) | (b3 as u32)
}

/// The four bytes of a `u32`, most significant first.
pub open spec fn spec_u32_to_be(x: u32) -> Seq<u8> {
    seq![
        ((x >> 24) & 0xff) as u8,
        ((x >> 16) & 0xff) as u8,
        ((x >> 8) & 0xff) as u8,
        (x & 0xff) as u8,
    ]
}

/// Reading back the four bytes of `x` yields `x`.
pub proof fn lemma_u32_be_round_trip(x: u32)
    ensures
        spec_u32_from_be(
            spec_u32_to_be(x)[0],
            spec_u32_to_be(x)[1],
            spec_u32_to_be(x)[2],
            spec_u32_to_be(x)[3],
        ) == x,
{
    assert((((((x >> 24) & 0xff) as u8) as u32) << 24) | (((((x >> 16) & 0xff) as u8) as u32)
        << 16) | (((((x >> 8) & 0xff) as u8) as u32) << 8) | (((x & 0xff) as u8) as u32) == x)
        by (bit_vector);
}

pub fn u32_from_be(b0: u8, b1: u8, b2: u8, b3: u8) -> (r: u32)
    ensures
        r == spec_u32_from_be(b0, b1, b2, b3),
{
    ((b0 as u32) << 24) | ((b1 as u32) << 16) | ((b2 as u32) << 8) | (b3 as u32)
}

pub fn u32_to_be(x: u32) -> (r: Vec<u8>)
    ensures
        r@ == spec_u32_to_be(x),
{
    let mut r: Vec<u8> = Vec::new();
    r.push(((x >> 24) & 0xff) as u8);
    r.push(((x >> 16) & 0xff) as u8);
    r.push(((x >> 8) & 0xff) as u8);
    r.push((x & 0xff) as u8);
    proof {
        assert(r@ =~= spec_u32_to_be(x));
    }
    r
}

/// The CRC-32/IEEE digest of a byte sequence. Its value is fixed by the
/// checksum algorithm alone; the library never states what it is on given
/// bytes, only where two of its applications must agree.
pub uninterp spec fn crc32_ieee(data: Seq<u8>) -> u32;

/// Relies on crc::crc32::checksum_ieee: the CRC-32/IEEE digest of the bytes,
/// a function of the bytes alone.
#[verifier::external_body]
fn crc32_checksum(data: &[u8]) -> (r: u32)
    ensures
        r == crc32_ieee(data@),
{
    crc::crc32::checksum_ieee(data)
}

/// Relies on core::str::from_utf8: it succeeds exactly on valid UTF-8 and
/// yields the decoded characters; the bytes alone decide both.
#[verifier::external_body]
fn utf8_to_string(data: &[u8]) -> (r: Option<String>)
    ensures
        r is Some <==> valid_utf8(data@),
        r matches Some(s) ==> s@ == decode_utf8(data@),
{
    match core::str::from_utf8(data) {
        Ok(s) => Some(s.to_owned()),
        Err(_) => None,
    }
}

/// The mathematical value of a chunk: what its bytes mean, free of any
/// representation choice.
#[verifier::ext_equal]
pub struct ChunkModel {
    pub type_bytes: Seq<u8>,
    pub payload: Seq<u8>,
    pub length: u32,
    pub crc: u32,
}

/// The declared length and the type code's four bytes describe the payload.
pub open spec fn spec_chunk_sized(m: ChunkModel) -> bool {
    m.type_bytes.len() == 4 && m.payload.len() == m.length
}

/// The stored checksum is the digest of type code and payload.
pub open spec fn spec_chunk_checksummed(m: ChunkModel) -> bool {
    m.crc == crc32_ieee(m.type_bytes + m.payload)
}

/// A chunk whose stored length and checksum agree with its payload.
pub open spec fn spec_chunk_wf(m: ChunkModel) -> bool {
    spec_chunk_sized(m) && spec_chunk_checksummed(m)
}

/// The serialized bytes of a chunk.
pub open spec fn spec_chunk_ser(m: ChunkModel) -> Seq<u8> {
    spec_u32_to_be(m.length) + m.type_bytes + m.payload + spec_u32_to_be(m.crc)
}

/// The length field at the front of a chunk record.
pub open spec fn spec_chunk_declared(b: Seq<u8>) -> u32
    recommends
        b.len() >= 4,
{
    spec_u32_from_be(b[0], b[1], b[2], b[3])
}

/// The checksummed region: type code followed by payload.
pub open spec fn spec_chunk_body(b: Seq<u8>) -> Seq<u8>
    recommends
        b.len() >= 12 + spec_chunk_declared(b),
{
    b.subrange(4, 8 + spec_chunk_declared(b) as int)
}

/// The checksum stored after the payload.
pub open spec fn spec_chunk_stored_crc(b: Seq<u8>) -> u32
    recommends
        b.len() >= 12 + spec_chunk_declared(b),
{
    let l = spec_chunk_declared(b) as int;
    spec_u32_from_be(b[8 + l], b[9 + l], b[10 + l], b[11 + l])
}

/// Rejected chunk constructions and interpretations.
#[derive(Debug)]
pub enum ChunkError {
    InvalidCrc(u32),
    InvalidLength(u32),
    InvalidChunkType(String),
    InvalidUtf8,
}

/// The mathematical value of a `ChunkError`.
pub enum ChunkErrorModel {
    InvalidCrc(u32),
    InvalidLength(u32),
    InvalidChunkType(Seq<char>),
    InvalidUtf8,
}

impl View for ChunkError {
    type V = ChunkErrorModel;

    open spec fn view(&self) -> ChunkErrorModel {
        match self {
            ChunkError::InvalidCrc(c) => ChunkErrorModel::InvalidCrc(*c),
            ChunkError::InvalidLength(l) => ChunkErrorModel::InvalidLength(*l),
            ChunkError::InvalidChunkType(t) => ChunkErrorModel::InvalidChunkType(t@),
            ChunkError::InvalidUtf8 => ChunkErrorModel::InvalidUtf8,
        }
    }
}

/// What a buffer that starts at a chunk record boundary means. Bytes past the
/// record are ignored. A buffer too short for its declared payload is a
/// length error; then the stored checksum must match the computed one; then
/// the type code must pass its validity test.
pub open spec fn spec_parse_chunk(b: Seq<u8>) -> Result<ChunkModel, ChunkErrorModel> {
    if b.len() < 4 {
        Err(ChunkErrorModel::InvalidLength(b.len() as u32))
    } else {
        let l = spec_chunk_declared(b);
        if b.len() < 12 + l {
            Err(ChunkErrorModel::InvalidLength(l))
        } else {
            let computed = crc32_ieee(spec_chunk_body(b));
            if computed != spec_chunk_stored_crc(b) {
                Err(ChunkErrorModel::InvalidCrc(computed))
            } else if !spec_type_is_valid(b.subrange(4, 8)) {
                Err(ChunkErrorModel::InvalidChunkType(spec_type_chars(b.subrange(4, 8))))
            } else {
                Ok(
                    ChunkModel {
                        type_bytes: b.subrange(4, 8),
                        payload: b.subrange(8, 8 + l as int),
                        length: l,
                        crc: spec_chunk_stored_crc(b),
                    },
                )
            }
        }
    }
}

/// One record: type code, payload, and the stored length and checksum.
#[derive(Debug)]
pub struct Chunk {
    pub chunk_type: ChunkType,
    pub data: Vec<u8>,
    pub length: u32,
    pub crc: u32,
}

impl View for Chunk {
    type V = ChunkModel;

    open spec fn view(&self) -> ChunkModel {
        ChunkModel {
            type_bytes: self.chunk_type@,
            payload: self.data@,
            length: self.length,
            crc: self.crc,
        }
    }
}

impl Chunk {
    /// Builds a chunk from a type code and a payload; the length and the
    /// checksum are computed, so the result is always internally consistent.
    pub fn new(chunk_type: ChunkType, data: Vec<u8>) -> (r: Chunk)
        requires
            data@.len() <= u32::MAX,
        ensures
            r@.type_bytes == chunk_type@,
            r@.payload == data@,
            r@.length == data@.len(),
            r@.crc == crc32_ieee(chunk_type@ + data@),
            spec_chunk_wf(r@),
    {
        let length = data.len() as u32;
        let mut joined: Vec<u8> = Vec::new();
        joined.push(chunk_type.bytes[0]);
        joined.push(chunk_type.bytes[1]);
        joined.push(chunk_type.bytes[2]);
        joined.push(chunk_type.bytes[3]);
        let mut i: usize = 0;
        while i < data.len()
            invariant
                0 <= i <= data@.len(),
                joined@ == chunk_type@ + data@.take(i as int),
            decreases data@.len() - i,
        {
            joined.push(data[i]);
            proof {
                assert(joined@ =~= chunk_type@ + data@.take(i + 1));
            }
            i = i + 1;
        }
        proof {
            assert(chunk_type@ + data@.take(data@.len() as int) =~= chunk_type@ + data@);
        }
        let crc = crc32_checksum(joined.as_slice());
        Chunk { chunk_type, data, length, crc }
    }

    /// The declared payload length.
    pub fn length(&self) -> (r: u32)
        ensures
            r == self@.length,
    {
        self.length
    }

    /// The chunk's type code.
    pub fn chunk_type(&self) -> (r: &ChunkType)
        ensures
            r@ == self@.type_bytes,
    {
        &self.chunk_type
    }

    /// The payload bytes.
    pub fn data(&self) -> (r: &[u8])
        ensures
            r@ == self@.payload,
    {
        self.data.as_slice()
    }

    /// The stored checksum.
    pub fn crc(&self) -> (r: u32)
        ensures
            r == self@.crc,
    {
        self.crc
    }

    /// Parses one chunk record from the front of `value`; bytes past the
    /// record are ignored. The result, success or the exact error, is what
    /// `spec_parse_chunk` assigns to the bytes.
    pub fn try_from(value: &[u8]) -> (r: Result<Chunk, ChunkError>)
        ensures
            r matches Ok(c) ==> spec_parse_chunk(value@) == Ok::<ChunkModel, ChunkErrorModel>(c@),
            r matches Err(e) ==> spec_parse_chunk(value@) == Err::<ChunkModel, ChunkErrorModel>(
                e@,
            ),
    {
        let n = value.len();
        if n < 4 {
            return Err(ChunkError::InvalidLength(n as u32));
        }
        let length = u32_from_be(
            *vstd::slice::slice_index_get(value, 0),
            *vstd::slice::slice_index_get(value, 1),
            *vstd::slice::slice_index_get(value, 2),
            *vstd::slice::slice_index_get(value, 3),
        );
        let l = length as usize;
        if n < 12 || n - 12 < l {
            return Err(ChunkError::InvalidLength(length));
        }
        let body = vstd::slice::slice_subrange(value, 4, 8 + l);
        let computed = crc32_checksum(body);
        let stored = u32_from_be(
            *vstd::slice::slice_index_get(value, 8 + l),
            *vstd::slice::slice_index_get(value, 9 + l),
            *vstd::slice::slice_index_get(value, 10 + l),
            *vstd::slice::slice_index_get(value, 11 + l),
        );
        if computed != stored {
            return Err(ChunkError::InvalidCrc(computed));
        }
        let chunk_type = ChunkType {
            bytes: [
                *vstd::slice::slice_index_get(value, 4),
                *vstd::slice::slice_index_get(value, 5),
                *vstd::slice::slice_index_get(value, 6),
                *vstd::slice::slice_index_get(value, 7),
            ],
        };
        proof {
            assert(chunk_type@ =~= value@.subrange(4, 8));
        }
        if !chunk_type.is_valid() {
            return Err(ChunkError::InvalidChunkType(chunk_type.to_text()));
        }
        let data = vstd::slice::slice_to_vec(vstd::slice::slice_subrange(value, 8, 8 + l));
        let c = Chunk { chunk_type, data, length, crc: stored };
        proof {
            assert(spec_parse_chunk(value@) == Ok::<ChunkModel, ChunkErrorModel>(c@));
        }
        Ok(c)
    }

    /// Serializes the chunk: length, type code, payload, checksum. For a
    /// well-formed chunk with a valid type code, parsing these bytes yields
    /// the chunk back.
    pub fn as_bytes(&self) -> (r: Vec<u8>)
        ensures
            r@ == spec_chunk_ser(self@),
            spec_chunk_wf(self@) && spec_type_is_valid(self@.type_bytes) ==> spec_parse_chunk(r@)
                == Ok::<ChunkModel, ChunkErrorModel>(self@),
    {
        let mut r = u32_to_be(self.length);
        r.push(self.chunk_type.bytes[0]);
        r.push(self.chunk_type.bytes[1]);
        r.push(self.chunk_type.bytes[2]);
        r.push(self.chunk_type.bytes[3]);
        let mut i: usize = 0;
        while i < self.data.len()
            invariant
                0 <= i <= self.data@.len(),
                r@ == spec_u32_to_be(self.length) + self.chunk_type@ + self.data@.take(i as int),
            decreases self.data@.len() - i,
        {
            r.push(self.data[i]);
            proof {
                assert(r@ =~= spec_u32_to_be(self.length) + self.chunk_type@ + self.data@.take(
                    i + 1,
                ));
            }
            i = i + 1;
        }
        let mut crc_bytes = u32_to_be(self.crc);
        r.append(&mut crc_bytes);
        proof {
            assert(r@ =~= spec_chunk_ser(self@));
            if spec_chunk_sized(self@) {
                lemma_chunk_parse_of_ser(self@, Seq::empty());
                assert(spec_chunk_ser(self@) + Seq::<u8>::empty() =~= spec_chunk_ser(self@));
            }
        }
        r
    }

    /// Interprets the payload as UTF-8 text; bytes that are not valid UTF-8
    /// are a decoding error.
    pub fn data_as_string(&self) -> (r: Result<String, ChunkError>)
        ensures
            r is Ok <==> valid_utf8(self@.payload),
            r matches Ok(s) ==> s@ == decode_utf8(self@.payload),
            r matches Err(e) ==> e is InvalidUtf8,
    {
        match utf8_to_string(self.data.as_slice()) {
            Some(s) => Ok(s),
            None => Err(ChunkError::InvalidUtf8),
        }
    }
}

/// Round trip, and the checksum and type checks, for a serialized chunk followed
/// by any further bytes. A chunk whose stored length matches its payload
/// parses back exactly when its checksum is the digest of type and payload
/// and its type code is valid; a wrong checksum is a checksum mismatch, and
/// a wrong type code with a right checksum is a type error.
pub proof fn lemma_chunk_parse_of_ser(m: ChunkModel, rest: Seq<u8>)
    requires
        spec_chunk_sized(m),
    ensures
        spec_chunk_checksummed(m) && spec_type_is_valid(m.type_bytes) ==> spec_parse_chunk(
            spec_chunk_ser(m) + rest,
        ) == Ok::<ChunkModel, ChunkErrorModel>(m),
        !spec_chunk_checksummed(m) ==> spec_parse_chunk(spec_chunk_ser(m) + rest)
            == Err::<ChunkModel, ChunkErrorModel>(
            ChunkErrorModel::InvalidCrc(crc32_ieee(m.type_bytes + m.payload)),
        ),
        spec_chunk_checksummed(m) && !spec_type_is_valid(m.type_bytes) ==> spec_parse_chunk(
            spec_chunk_ser(m) + rest,
        ) == Err::<ChunkModel, ChunkErrorModel>(
            ChunkErrorModel::InvalidChunkType(spec_type_chars(m.type_bytes)),
        ),
{
    let b = spec_chunk_ser(m) + rest;
    let l = m.length as int;
    assert(b.len() == 12 + l + rest.len());
    assert(b[0] == spec_u32_to_be(m.length)[0]);
    assert(b[1] == spec_u32_to_be(m.length)[1]);
    assert(b[2] == spec_u32_to_be(m.length)[2]);
    assert(b[3] == spec_u32_to_be(m.length)[3]);
    lemma_u32_be_round_trip(m.length);
    assert(spec_chunk_declared(b) == m.length);
    assert(spec_chunk_body(b) =~= m.type_bytes + m.payload);
    assert(b[8 + l] == spec_u32_to_be(m.crc)[0]);
    assert(b[9 + l] == spec_u32_to_be(m.crc)[1]);
    assert(b[10 + l] == spec_u32_to_be(m.crc)[2]);
    assert(b[11 + l] == spec_u32_to_be(m.crc)[3]);
    lemma_u32_be_round_trip(m.crc);
    assert(spec_chunk_stored_crc(b) == m.crc);
    assert(b.subrange(4, 8) =~= m.type_bytes);
    if spec_chunk_checksummed(m) && spec_type_is_valid(m.type_bytes) {
        assert(b.subrange(8, 8 + l) =~= m.payload);
        assert(spec_parse_chunk(b) == Ok::<ChunkModel, ChunkErrorModel>(m)) by {
            assert(spec_parse_chunk(b)->Ok_0 =~= m);
        }
    }
}

/// A buffer too short for the payload its length field declares is rejected
/// as a length mismatch.
pub proof fn lemma_truncated_chunk_rejected(b: Seq<u8>)
    ensures
        b.len() < 4 ==> spec_parse_chunk(b) == Err::<ChunkModel, ChunkErrorModel>(
            ChunkErrorModel::InvalidLength(b.len() as u32),
        ),
        b.len() >= 4 && b.len() < 12 + spec_chunk_declared(b) ==> spec_parse_chunk(b)
            == Err::<ChunkModel, ChunkErrorModel>(
            ChunkErrorModel::InvalidLength(spec_chunk_declared(b)),
        ),
{
}

/// A record whose stored checksum differs from the digest of its type and
/// payload region is rejected as a checksum mismatch, whatever else it holds.
pub proof fn lemma_checksum_mismatch_rejected(b: Seq<u8>)
    requires
        b.len() >= 4,
        b.len() >= 12 + spec_chunk_declared(b),
    ensures
        crc32_ieee(spec_chunk_body(b)) != spec_chunk_stored_crc(b) ==> spec_parse_chunk(b)
            == Err::<ChunkModel, ChunkErrorModel>(
            ChunkErrorModel::InvalidCrc(crc32_ieee(spec_chunk_body(b))),
        ),
{
}

} // verus!
