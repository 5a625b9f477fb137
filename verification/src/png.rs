//! The container: a fixed eight-byte signature followed by an ordered
//! sequence of chunks, with parse, append, lookup, removal and
//! serialization.
use crate::chunk::{
    spec_chunk_declared, spec_chunk_ser, spec_chunk_wf, spec_parse_chunk, Chunk,
    ChunkError, ChunkErrorModel, ChunkModel,
};
use crate::chunk_type::{spec_type_is_valid, ChunkType};
use vstd::prelude::*;
use vstd::string::StringSliceAdditionalSpecFns;

verus! {

/// The fixed marker that every container's bytes must start with.
pub open spec fn spec_signature() -> Seq<u8> {
    seq![137u8, 80u8, 78u8, 71u8, 13u8, 10u8, 26u8, 10u8]
}

/// The mathematical values of a sequence of chunks.
pub open spec fn spec_models(chunks: Seq<Chunk>) -> Seq<ChunkModel> {
    chunks.map_values(|c: Chunk| c@)
}

/// Every chunk is well formed and carries a valid type code, as parsing
/// guarantees of each chunk it accepts.
pub open spec fn spec_chunks_wf(ms: Seq<ChunkModel>) -> bool {
    forall|i: int|
        0 <= i < ms.len() ==> spec_chunk_wf(#[trigger] ms[i]) && spec_type_is_valid(
            ms[i].type_bytes,
        )
}

/// What a run of chunk records means: chunks parsed one after the other,
/// each advancing by its serialized size, until the bytes are exhausted.
/// The first failing chunk's error is the whole run's error.
#[verifier::opaque]
pub open spec fn spec_parse_chunk_stream(b: Seq<u8>) -> Result<Seq<ChunkModel>, ChunkErrorModel>
    decreases b.len(),
{
    if b.len() == 0 {
        Ok(Seq::empty())
    } else {
        match spec_parse_chunk(b) {
            Err(e) => Err(e),
            Ok(m) => {
                if 12 + m.payload.len() <= b.len() {
                    match spec_parse_chunk_stream(b.skip(12 + m.payload.len() as int)) {
                        Ok(ms) => Ok(seq![m] + ms),
                        Err(e) => Err(e),
                    }
                } else {
                    // never reached: an accepted chunk lies within its buffer
                    Err(ChunkErrorModel::InvalidLength(m.length))
                }
            },
        }
    }
}

/// A chunk that parsing accepts lies within its buffer, is well formed, and
/// carries a valid type code.
pub proof fn lemma_parse_chunk_fits(b: Seq<u8>)
    ensures
        spec_parse_chunk(b) matches Ok(m) ==> 12 + m.payload.len() <= b.len()
            && m.payload.len() == m.length && spec_chunk_wf(m) && spec_type_is_valid(m.type_bytes),
{
    match spec_parse_chunk(b) {
        Ok(m) => {
            let l = spec_chunk_declared(b) as int;
            assert(m.type_bytes + m.payload =~= b.subrange(4, 8 + l));
        },
        Err(_) => {},
    }
}

/// The bytes of a sequence of chunks, first chunk first.
pub open spec fn spec_ser_chunks(ms: Seq<ChunkModel>) -> Seq<u8>
    decreases ms.len(),
{
    if ms.len() == 0 {
        Seq::empty()
    } else {
        spec_chunk_ser(ms[0]) + spec_ser_chunks(ms.skip(1))
    }
}

/// Serializing one more chunk appends its bytes.
pub proof fn lemma_ser_chunks_push(ms: Seq<ChunkModel>, m: ChunkModel)
    ensures
        spec_ser_chunks(ms.push(m)) == spec_ser_chunks(ms) + spec_chunk_ser(m),
    decreases ms.len(),
{
    if ms.len() == 0 {
        reveal_with_fuel(spec_ser_chunks, 2);
        assert(ms.push(m)[0] == m);
        assert(ms.push(m).skip(1) =~= Seq::<ChunkModel>::empty());
        assert(spec_ser_chunks(ms.push(m)) =~= spec_ser_chunks(ms) + spec_chunk_ser(m));
    } else {
        assert(ms.push(m).skip(1) =~= ms.skip(1).push(m));
        lemma_ser_chunks_push(ms.skip(1), m);
        assert(ms.push(m)[0] == ms[0]);
        assert(spec_chunk_ser(ms[0]) + (spec_ser_chunks(ms.skip(1)) + spec_chunk_ser(m)) =~= (
        spec_chunk_ser(ms[0]) + spec_ser_chunks(ms.skip(1))) + spec_chunk_ser(m));
    }
}

/// One step of stream parsing: a well-formed, valid-typed chunk's bytes at
/// the front parse off, and the rest of the stream follows.
#[verifier::spinoff_prover]
proof fn lemma_stream_step(m: ChunkModel, rest: Seq<u8>, tail: Seq<ChunkModel>)
    requires
        spec_chunk_wf(m),
        spec_type_is_valid(m.type_bytes),
        spec_parse_chunk_stream(rest) == Ok::<Seq<ChunkModel>, ChunkErrorModel>(tail),
    ensures
        spec_parse_chunk_stream(spec_chunk_ser(m) + rest) == Ok::<Seq<ChunkModel>, ChunkErrorModel>(
            seq![m] + tail,
        ),
{
    let b = spec_chunk_ser(m) + rest;
    let sz = 12 + m.payload.len() as int;
    assert(b.len() == sz + rest.len() && b.skip(sz) == rest) by {
        assert(spec_chunk_ser(m).len() == sz);
        assert(b.skip(sz) =~= rest);
    };
    crate::chunk::lemma_chunk_parse_of_ser(m, rest);
    assert(spec_parse_chunk(b) == Ok::<ChunkModel, ChunkErrorModel>(m));
    reveal(spec_parse_chunk_stream);
}

#[verifier::spinoff_prover]
proof fn lemma_stream_round_trip_rec(ms: Seq<ChunkModel>)
    requires
        spec_chunks_wf(ms),
    ensures
        spec_parse_chunk_stream(spec_ser_chunks(ms)) == Ok::<Seq<ChunkModel>, ChunkErrorModel>(ms),
    decreases ms.len(),
{
    if ms.len() == 0 {
        reveal(spec_parse_chunk_stream);
        assert(ms =~= Seq::<ChunkModel>::empty());
    } else {
        let m = ms[0];
        let rest = spec_ser_chunks(ms.skip(1));
        assert(spec_ser_chunks(ms) == spec_chunk_ser(m) + rest);
        assert(spec_chunk_wf(m) && spec_type_is_valid(m.type_bytes));
        assert(spec_chunks_wf(ms.skip(1))) by {
            assert(forall|i: int|
                0 <= i < ms.len() - 1 ==> (#[trigger] ms.skip(1)[i]) == ms[i + 1]);
        }
        lemma_stream_round_trip_rec(ms.skip(1));
        lemma_stream_step(m, rest, ms.skip(1));
        assert(seq![m] + ms.skip(1) =~= ms);
    }
}

/// Container round trip: parsing the serialization of any sequence of
/// well-formed, valid-typed chunks yields exactly that sequence back.
pub proof fn lemma_stream_round_trip(ms: Seq<ChunkModel>)
    ensures
        spec_chunks_wf(ms) ==> spec_parse_chunk_stream(spec_ser_chunks(ms)) == Ok::<
            Seq<ChunkModel>,
            ChunkErrorModel,
        >(ms),
{
    if spec_chunks_wf(ms) {
        lemma_stream_round_trip_rec(ms);
    }
}

/// A run of records that parses in full holds only well-formed, valid-typed
/// chunks: corrupt or malformed input never yields a container.
pub proof fn lemma_stream_chunks_wf(b: Seq<u8>)
    ensures
        spec_parse_chunk_stream(b) matches Ok(ms) ==> spec_chunks_wf(ms),
    decreases b.len(),
{
    reveal(spec_parse_chunk_stream);
    if b.len() != 0 {
        lemma_parse_chunk_fits(b);
        match spec_parse_chunk(b) {
            Ok(m) => {
                lemma_stream_chunks_wf(b.skip(12 + m.payload.len() as int));
            },
            Err(_) => {},
        }
    }
}

/// Rejected container parses: a bad signature, or a chunk that failed.
#[derive(Debug)]
pub enum PngError {
    InvalidSignature,
    InvalidChunk(ChunkError),
}

/// The container: its fixed signature is implicit; it owns its chunks in
/// order, and order is significant for lookup and serialization.
pub struct Png {
    pub chunks: Vec<Chunk>,
}

impl View for Png {
    type V = Seq<ChunkModel>;

    open spec fn view(&self) -> Seq<ChunkModel> {
        spec_models(self.chunks@)
    }
}

/// True iff the type code's bytes equal `key`.
fn type_matches(t: &ChunkType, key: &[u8]) -> (r: bool)
    ensures
        r == (t@ == key@),
{
    if key.len() != 4 {
        return false;
    }
    let r = t.bytes[0] == *vstd::slice::slice_index_get(key, 0) && t.bytes[1]
        == *vstd::slice::slice_index_get(key, 1) && t.bytes[2] == *vstd::slice::slice_index_get(
        key,
        2,
    ) && t.bytes[3] == *vstd::slice::slice_index_get(key, 3);
    proof {
        if r {
            assert(t@ =~= key@);
        }
    }
    r
}

/// Chunks already taken off the front of a stream, followed by whatever the
/// remaining bytes yield.
pub open spec fn spec_stream_prefixed(
    prefix: Seq<ChunkModel>,
    rest: Result<Seq<ChunkModel>, ChunkErrorModel>,
) -> Result<Seq<ChunkModel>, ChunkErrorModel> {
    match rest {
        Ok(ms) => Ok(prefix + ms),
        Err(e) => Err(e),
    }
}

impl Png {
    /// Parses a whole buffer: the eight signature bytes, then chunk records
    /// until the input is exhausted. A wrong signature, or any failing
    /// chunk, rejects the whole buffer.
    pub fn try_from(value: &[u8]) -> (r: Result<Png, PngError>)
        ensures
            (value@.len() < 8 || value@.subrange(0, 8) != spec_signature()) <==> (r matches Err(
                PngError::InvalidSignature,
            )),
            value@.len() >= 8 && value@.subrange(0, 8) == spec_signature() ==> (match
                spec_parse_chunk_stream(value@.skip(8)) {
                Ok(ms) => (r matches Ok(p) && p@ == ms),
                Err(e) => (r matches Err(PngError::InvalidChunk(ce)) && ce@ == e),
            }),
            r matches Ok(p) ==> spec_chunks_wf(p@),
    {
        let n = value.len();
        if n < 8 {
            return Err(PngError::InvalidSignature);
        }
        let s0 = *vstd::slice::slice_index_get(value, 0);
        let s1 = *vstd::slice::slice_index_get(value, 1);
        let s2 = *vstd::slice::slice_index_get(value, 2);
        let s3 = *vstd::slice::slice_index_get(value, 3);
        let s4 = *vstd::slice::slice_index_get(value, 4);
        let s5 = *vstd::slice::slice_index_get(value, 5);
        let s6 = *vstd::slice::slice_index_get(value, 6);
        let s7 = *vstd::slice::slice_index_get(value, 7);
        let sig_ok = s0 == 137 && s1 == 80 && s2 == 78 && s3 == 71 && s4 == 13 && s5 == 10 && s6
            == 26 && s7 == 10;
        proof {
            let s = value@.subrange(0, 8);
            assert(s[0] == value@[0] && s[1] == value@[1] && s[2] == value@[2] && s[3] == value@[3]
                && s[4] == value@[4] && s[5] == value@[5] && s[6] == value@[6] && s[7]
                == value@[7]);
            if sig_ok {
                assert(s =~= spec_signature());
            } else {
                assert(s != spec_signature());
            }
        }
        if !sig_ok {
            return Err(PngError::InvalidSignature);
        }
        let mut chunks: Vec<Chunk> = Vec::new();
        let mut pos: usize = 8;
        while pos < n
            invariant
                8 <= pos <= n,
                n == value@.len(),
                value@.subrange(0, 8) == spec_signature(),
                spec_parse_chunk_stream(value@.skip(8)) == spec_stream_prefixed(
                    spec_models(chunks@),
                    spec_parse_chunk_stream(value@.subrange(pos as int, n as int)),
                ),
            decreases n - pos,
        {
            let ghost rem = value@.subrange(pos as int, n as int);
            let ghost prefix = spec_models(chunks@);
            match Chunk::try_from(vstd::slice::slice_subrange(value, pos, n)) {
                Err(e) => {
                    proof {
                        reveal(spec_parse_chunk_stream);
                        assert(spec_parse_chunk_stream(rem) == Err::<
                            Seq<ChunkModel>,
                            ChunkErrorModel,
                        >(e@));
                    }
                    return Err(PngError::InvalidChunk(e));
                },
                Ok(c) => {
                    let ghost m = c@;
                    let step = c.length as usize;
                    proof {
                        reveal(spec_parse_chunk_stream);
                        lemma_parse_chunk_fits(rem);
                        assert(12 + m.payload.len() <= rem.len());
                        assert(rem.skip(12 + m.payload.len() as int) =~= value@.subrange(
                            pos + 12 + step,
                            n as int,
                        ));
                        assert(spec_models(chunks@.push(c)) =~= prefix.push(m));
                        match spec_parse_chunk_stream(
                            value@.subrange(pos + 12 + step, n as int),
                        ) {
                            Ok(t) => {
                                assert(prefix + (seq![m] + t) =~= prefix.push(m) + t);
                            },
                            Err(_) => {},
                        }
                    }
                    chunks.push(c);
                    pos = pos + 12 + step;
                },
            }
        }
        proof {
            reveal(spec_parse_chunk_stream);
            assert(value@.subrange(pos as int, n as int) =~= Seq::<u8>::empty());
            assert(spec_parse_chunk_stream(Seq::<u8>::empty()) == Ok::<
                Seq<ChunkModel>,
                ChunkErrorModel,
            >(Seq::empty()));
            assert(spec_models(chunks@) + Seq::<ChunkModel>::empty() =~= spec_models(chunks@));
            lemma_stream_chunks_wf(value@.skip(8));
        }
        Ok(Png { chunks })
    }

    /// Appends the chunk at the end of the sequence; chunks of the same type
    /// may coexist.
    pub fn append_chunk(&mut self, chunk: Chunk)
        ensures
            final(self)@ == old(self)@.push(chunk@),
    {
        let ghost m = chunk@;
        self.chunks.push(chunk);
        proof {
            assert(spec_models(self.chunks@) =~= spec_models(old(self).chunks@).push(m));
        }
    }

    /// The first chunk, in sequence order, whose type code's bytes are the
    /// given text's bytes; nothing if none matches.
    pub fn chunk_by_type(&self, chunk_type: &str) -> (r: Option<&Chunk>)
        ensures
            match spec_find_chunk(self@, chunk_type.spec_bytes()) {
                Some(i) => (r matches Some(c) && 0 <= i < self@.len() && c@ == self@[i]),
                None => r is None,
            },
    {
        let key: &[u8] = chunk_type.as_bytes();
        let n = self.chunks.len();
        let mut idx: usize = 0;
        while idx < n
            invariant
                0 <= idx <= n,
                n == self.chunks@.len(),
                key@ == chunk_type.spec_bytes(),
                forall|j: int| 0 <= j < idx ==> (#[trigger] self@[j]).type_bytes != key@,
            decreases n - idx,
        {
            let c = &self.chunks[idx];
            if type_matches(&c.chunk_type, key) {
                proof {
                    lemma_find_chunk_characterization(self@, key@, idx as int);
                }
                return Some(c);
            }
            idx = idx + 1;
        }
        proof {
            lemma_find_chunk_characterization(self@, key@, 0);
        }
        None
    }

    /// Removes and returns the first chunk matching the given text, keeping
    /// the order of the others; nothing if none matches, and the container
    /// is then unchanged.
    pub fn remove_chunk(&mut self, chunk_type: &str) -> (r: Option<Chunk>)
        ensures
            match spec_find_chunk(old(self)@, chunk_type.spec_bytes()) {
                Some(i) => (r matches Some(c) && 0 <= i < old(self)@.len() && c@ == old(self)@[i]
                    && final(self)@ == old(self)@.remove(i)),
                None => r is None && final(self)@ == old(self)@,
            },
    {
        let key: &[u8] = chunk_type.as_bytes();
        let n = self.chunks.len();
        let mut idx: usize = 0;
        while idx < n
            invariant
                0 <= idx <= n,
                n == self.chunks@.len(),
                *self == *old(self),
                key@ == chunk_type.spec_bytes(),
                forall|j: int| 0 <= j < idx ==> (#[trigger] self@[j]).type_bytes != key@,
            decreases n - idx,
        {
            if type_matches(&self.chunks[idx].chunk_type, key) {
                proof {
                    lemma_find_chunk_characterization(self@, key@, idx as int);
                }
                let c = self.chunks.remove(idx);
                proof {
                    assert(spec_models(self.chunks@) =~= spec_models(old(self).chunks@).remove(
                        idx as int,
                    ));
                }
                return Some(c);
            }
            idx = idx + 1;
        }
        proof {
            lemma_find_chunk_characterization(self@, key@, 0);
        }
        None
    }

    /// Serializes the container: the signature, then each chunk's bytes in
    /// sequence order. When every chunk is well formed with a valid type
    /// code, parsing these bytes reproduces the same chunk sequence.
    pub fn as_bytes(&self) -> (r: Vec<u8>)
        ensures
            r@ == spec_signature() + spec_ser_chunks(self@),
            spec_chunks_wf(self@) ==> spec_parse_chunk_stream(r@.skip(8)) == Ok::<
                Seq<ChunkModel>,
                ChunkErrorModel,
            >(self@),
    {
        let mut r: Vec<u8> = Vec::new();
        r.push(137);
        r.push(80);
        r.push(78);
        r.push(71);
        r.push(13);
        r.push(10);
        r.push(26);
        r.push(10);
        proof {
            assert(r@ =~= spec_signature());
            assert(spec_ser_chunks(self@.take(0)) =~= Seq::<u8>::empty()) by {
                assert(self@.take(0).len() == 0);
            }
            assert(r@ =~= spec_signature() + spec_ser_chunks(self@.take(0)));
        }
        let n = self.chunks.len();
        let mut i: usize = 0;
        while i < n
            invariant
                0 <= i <= n,
                n == self.chunks@.len(),
                r@ == spec_signature() + spec_ser_chunks(self@.take(i as int)),
            decreases n - i,
        {
            let mut cb = self.chunks[i].as_bytes();
            proof {
                lemma_ser_chunks_push(self@.take(i as int), self@[i as int]);
                assert(self@.take(i as int).push(self@[i as int]) =~= self@.take(i + 1));
                assert(spec_signature() + (spec_ser_chunks(self@.take(i as int)) + spec_chunk_ser(
                    self@[i as int],
                )) =~= (spec_signature() + spec_ser_chunks(self@.take(i as int))) + spec_chunk_ser(
                    self@[i as int],
                ));
            }
            r.append(&mut cb);
            i = i + 1;
        }
        proof {
            assert(self@.take(n as int) =~= self@);
            lemma_stream_round_trip(self@);
            assert((spec_signature() + spec_ser_chunks(self@)).skip(8) =~= spec_ser_chunks(self@));
        }
        r
    }
}

/// The index of the first chunk whose type code's bytes equal `key`.
pub open spec fn spec_find_chunk(ms: Seq<ChunkModel>, key: Seq<u8>) -> Option<int>
    decreases ms.len(),
{
    if ms.len() == 0 {
        None
    } else if ms[0].type_bytes == key {
        Some(0)
    } else {
        match spec_find_chunk(ms.skip(1), key) {
            Some(i) => Some(i + 1),
            None => None,
        }
    }
}

/// Lookup finds the first match and nothing else: it yields index `i`
/// exactly when chunk `i` matches and no earlier one does, and nothing
/// exactly when no chunk matches.
pub proof fn lemma_find_chunk_characterization(ms: Seq<ChunkModel>, key: Seq<u8>, i: int)
    ensures
        spec_find_chunk(ms, key) == Some(i) <==> (0 <= i < ms.len() && ms[i].type_bytes == key
            && (forall|j: int| 0 <= j < i ==> (#[trigger] ms[j]).type_bytes != key)),
        spec_find_chunk(ms, key) is None <==> (forall|j: int|
            0 <= j < ms.len() ==> (#[trigger] ms[j]).type_bytes != key),
    decreases ms.len(),
{
    if ms.len() == 0 {
    } else if ms[0].type_bytes == key {
    } else {
        lemma_find_chunk_characterization(ms.skip(1), key, i - 1);
        assert(forall|j: int| 0 <= j < ms.len() - 1 ==> (#[trigger] ms.skip(1)[j]) == ms[j + 1]);
        if spec_find_chunk(ms, key) == Some(i) {
            assert(spec_find_chunk(ms.skip(1), key) == Some(i - 1));
            assert(ms[i] == ms.skip(1)[i - 1]);
            assert forall|j: int| 0 <= j < i implies (#[trigger] ms[j]).type_bytes != key by {
                if j > 0 {
                    assert(ms[j] == ms.skip(1)[j - 1]);
                }
            }
        }
        if 0 <= i < ms.len() && ms[i].type_bytes == key && (forall|j: int|
            0 <= j < i ==> (#[trigger] ms[j]).type_bytes != key) {
            assert(i != 0);
            assert(ms.skip(1)[i - 1].type_bytes == key);
            assert(forall|j: int| 0 <= j < i - 1 ==> (#[trigger] ms.skip(1)[j]).type_bytes != key);
            assert(spec_find_chunk(ms.skip(1), key) == Some(i - 1));
        }
        if spec_find_chunk(ms, key) is None {
            assert(spec_find_chunk(ms.skip(1), key) is None);
            assert forall|j: int| 0 <= j < ms.len() implies (#[trigger] ms[j]).type_bytes != key by {
                if j > 0 {
                    assert(ms[j] == ms.skip(1)[j - 1]);
                }
            }
        }
        if forall|j: int| 0 <= j < ms.len() ==> (#[trigger] ms[j]).type_bytes != key {
            assert(forall|j: int|
                0 <= j < ms.skip(1).len() ==> (#[trigger] ms.skip(1)[j]).type_bytes != key);
            assert(spec_find_chunk(ms.skip(1), key) is None);
        }
    }
}

} // verus!
