use vstd::prelude::*;
use vstd::utf8::{valid_utf8, decode_utf8};
use crate::chunk_type::ChunkType;
use crate::crc32::{crc32, crc32_of};
use crate::error::PngError;
use crate::chunk_type::tag_chars;
use crate::text::{utf8_to_string, chars_to_string, decimal, push_decimal};
use crate::wire::{be_u32, u32_be, lemma_be_round_trip, read_be_u32, push_be_u32};

verus! {

/// What a chunk is: its four tag bytes and its payload.
pub struct ChunkModel {
    pub kind: Seq<u8>,
    pub data: Seq<u8>,
}

/// A chunk model that a `Chunk` can hold: a four-byte tag and a payload
/// whose length fits the length field.
pub open spec fn chunk_valid(m: ChunkModel) -> bool {
    m.kind.len() == 4 && m.data.len() <= u32::MAX
}

/// The CRC-32 of a chunk, taken over its tag followed by its payload.
pub open spec fn chunk_crc(m: ChunkModel) -> u32 {
    crc32_of(m.kind + m.data)
}

/// The wire form of a chunk: big-endian length, tag, payload, big-endian CRC.
pub open spec fn chunk_bytes(m: ChunkModel) -> Seq<u8> {
    u32_be(m.data.len() as u32) + m.kind + m.data + u32_be(chunk_crc(m))
}

/// The length that the first four bytes declare.
pub open spec fn declared_len(s: Seq<u8>) -> int {
    be_u32(s.subrange(0, 4)) as int
}

/// What parsing one chunk from the front of `s` gives. Bytes after the
/// chunk's CRC field are left alone.
pub open spec fn chunk_parse(s: Seq<u8>) -> Result<ChunkModel, PngError> {
    if s.len() < 8 {
        Err(PngError::TruncatedInput)
    } else {
        let n = declared_len(s);
        if s.len() < n + 12 {
            Err(PngError::TruncatedInput)
        } else {
            let m = ChunkModel { kind: s.subrange(4, 8), data: s.subrange(8, 8 + n) };
            if be_u32(s.subrange(8 + n, 12 + n)) != chunk_crc(m) {
                Err(PngError::Checksum)
            } else {
                Ok(m)
            }
        }
    }
}

/// A typed payload, as it stands in a container.
#[derive(Debug)]
pub struct Chunk {
    chunk_type: ChunkType,
    data: Vec<u8>,
}

impl View for Chunk {
    type V = ChunkModel;

    closed spec fn view(&self) -> ChunkModel {
        ChunkModel { kind: self.chunk_type@, data: self.data@ }
    }
}

/// The text form of a chunk whose payload is text: length, type, text and
/// CRC, each after the last with a comma and a space between.
pub open spec fn chunk_text(m: ChunkModel) -> Seq<char> {
    decimal(m.data.len()) + seq![',', ' '] + tag_chars(m.kind) + seq![',', ' ']
        + decode_utf8(m.data) + seq![',', ' '] + decimal(chunk_crc(m) as nat)
}

/// What a parse gives, seen through the views.
pub open spec fn parse_view(r: Result<Chunk, PngError>) -> Result<ChunkModel, PngError> {
    match r {
        Ok(c) => Ok(c@),
        Err(e) => Err(e),
    }
}

impl Chunk {
    /// A payload's length always fits the four-byte length field.
    #[verifier::type_invariant]
    closed spec fn length_fits(&self) -> bool {
        self.data@.len() <= u32::MAX
    }

    /// A chunk of the given type holding `data`.
    pub fn new(chunk_type: ChunkType, data: Vec<u8>) -> (r: Chunk)
        requires
            data@.len() <= u32::MAX,
        ensures
            r@ == (ChunkModel { kind: chunk_type@, data: data@ }),
    {
        Chunk { chunk_type, data }
    }

    /// The payload's length in bytes.
    pub fn length(&self) -> (r: u32)
        ensures
            r as int == self@.data.len(),
    {
        proof {
            use_type_invariant(self);
        }
        self.data.len() as u32
    }

    /// The chunk's type.
    pub fn chunk_type(&self) -> (r: &ChunkType)
        ensures
            r@ == self@.kind,
    {
        &self.chunk_type
    }

    /// The payload.
    pub fn data(&self) -> (r: &[u8])
        ensures
            r@ == self@.data,
    {
        self.data.as_slice()
    }

    /// The CRC-32 over the type's bytes followed by the payload.
    pub fn crc(&self) -> (r: u32)
        ensures
            r == chunk_crc(self@),
    {
        let tag = self.chunk_type.bytes();
        let mut bytes: Vec<u8> = Vec::new();
        let mut i: usize = 0;
        while i < 4
            invariant
                i <= 4,
                tag@ == self@.kind,
                bytes@ == tag@.subrange(0, i as int),
            decreases 4 - i,
        {
            bytes.push(tag[i]);
            i = i + 1;
            assert(bytes@ =~= tag@.subrange(0, i as int));
        }
        let mut j: usize = 0;
        while j < self.data.len()
            invariant
                j <= self.data@.len(),
                tag@ == self@.kind,
                bytes@ == tag@ + self.data@.subrange(0, j as int),
            decreases self.data@.len() - j,
        {
            bytes.push(self.data[j]);
            j = j + 1;
            assert(bytes@ =~= tag@ + self.data@.subrange(0, j as int));
        }
        assert(bytes@ =~= self@.kind + self@.data);
        crc32(bytes.as_slice())
    }

    /// The payload as text; an encoding error where it is not valid UTF-8.
    pub fn data_as_string(&self) -> (r: Result<String, PngError>)
        ensures
            r is Ok <==> valid_utf8(self@.data),
            r is Ok ==> r->Ok_0@ == decode_utf8(self@.data),
            r is Err ==> r->Err_0 == PngError::Encoding,
    {
        let copy = self.data.clone();
        assert(copy@ =~= self.data@);
        match utf8_to_string(copy) {
            Some(s) => Ok(s),
            None => Err(PngError::Encoding),
        }
    }

    /// The text form; an encoding error where the payload is not text.
    pub fn to_string(&self) -> (r: Result<String, PngError>)
        ensures
            r is Ok <==> valid_utf8(self@.data),
            r is Ok ==> r->Ok_0@ == chunk_text(self@),
            r is Err ==> r->Err_0 == PngError::Encoding,
    {
        let text = match self.data_as_string() {
            Ok(t) => t,
            Err(e) => return Err(e),
        };
        let mut head: Vec<char> = Vec::new();
        push_decimal(&mut head, self.length());
        head.push(',');
        head.push(' ');
        let tag = self.chunk_type.to_string();
        let mut tail: Vec<char> = Vec::new();
        tail.push(',');
        tail.push(' ');
        push_decimal(&mut tail, self.crc());
        let mut out = chars_to_string(&head);
        out.append(tag.as_str());
        out.append(", ");
        out.append(text.as_str());
        out.append(chars_to_string(&tail).as_str());
        proof {
            reveal_strlit(", ");
        }
        assert(out@ =~= chunk_text(self@));
        Ok(out)
    }

    /// The wire form: length, type, payload and CRC.
    pub fn as_bytes(&self) -> (r: Vec<u8>)
        ensures
            r@ == chunk_bytes(self@),
            self@.data.len() <= u32::MAX,
    {
        let mut out: Vec<u8> = Vec::new();
        self.write_to(&mut out);
        assert(out@ =~= chunk_bytes(self@));
        out
    }

    /// Appends the wire form to `out`.
    pub fn write_to(&self, out: &mut Vec<u8>)
        ensures
            final(out)@ == old(out)@ + chunk_bytes(self@),
            self@.data.len() <= u32::MAX,
    {
        proof {
            use_type_invariant(self);
        }
        let ghost start = out@;
        push_be_u32(out, self.length());
        let tag = self.chunk_type.bytes();
        let mut i: usize = 0;
        while i < 4
            invariant
                i <= 4,
                tag@ == self@.kind,
                out@ == start + u32_be(self@.data.len() as u32) + tag@.subrange(0, i as int),
            decreases 4 - i,
        {
            out.push(tag[i]);
            i = i + 1;
            assert(out@ =~= start + u32_be(self@.data.len() as u32) + tag@.subrange(0, i as int));
        }
        let mut j: usize = 0;
        while j < self.data.len()
            invariant
                j <= self.data@.len(),
                tag@ == self@.kind,
                out@ == start + u32_be(self@.data.len() as u32) + tag@ + self.data@.subrange(0, j as int),
            decreases self.data@.len() - j,
        {
            out.push(self.data[j]);
            j = j + 1;
            assert(out@ =~= start + u32_be(self@.data.len() as u32) + tag@ + self.data@.subrange(0, j as int));
        }
        assert(self.data@.subrange(0, j as int) =~= self.data@);
        push_be_u32(out, self.crc());
        assert(out@ =~= start + chunk_bytes(self@));
    }

    /// Parses one chunk from the front of `bytes`, leaving any bytes after
    /// its CRC field alone.
    pub fn parse(bytes: &[u8]) -> (r: Result<Chunk, PngError>)
        ensures
            parse_view(r) == chunk_parse(bytes@),
    {
        let r = Chunk::parse_at(bytes, 0);
        assert(bytes@.skip(0) =~= bytes@);
        r
    }

    /// Parses one chunk from `bytes` starting at `start`.
    pub fn parse_at(bytes: &[u8], start: usize) -> (r: Result<Chunk, PngError>)
        requires
            start <= bytes@.len(),
        ensures
            parse_view(r) == chunk_parse(bytes@.skip(start as int)),
    {
        let ghost s = bytes@.skip(start as int);
        let rest = bytes.len() - start;
        if rest < 8 {
            return Err(PngError::TruncatedInput);
        }
        let n = read_be_u32(bytes, start);
        assert(bytes@.subrange(start as int, start + 4) =~= s.subrange(0, 4));
        if ((rest - 8) as u64) < n as u64 || rest - 8 - (n as usize) < 4 {
            return Err(PngError::TruncatedInput);
        }
        let len = n as usize;
        let tag = [bytes[start + 4], bytes[start + 5], bytes[start + 6], bytes[start + 7]];
        let chunk_type = ChunkType::from_bytes(tag);
        assert(tag@ =~= s.subrange(4, 8));
        let mut data: Vec<u8> = Vec::new();
        let mut j: usize = 0;
        while j < len
            invariant
                j <= len,
                start + 8 + len + 4 <= bytes@.len() <= usize::MAX,
                s == bytes@.skip(start as int),
                data@ == s.subrange(8, 8 + j),
            decreases len - j,
        {
            data.push(bytes[start + 8 + j]);
            j = j + 1;
            assert(data@ =~= s.subrange(8, 8 + j));
        }
        let chunk = Chunk::new(chunk_type, data);
        let stored = read_be_u32(bytes, start + 8 + len);
        assert(bytes@.subrange(start + 8 + len, start + 8 + len + 4) =~= s.subrange(8 + len, 12 + len));
        if chunk.crc() != stored {
            return Err(PngError::Checksum);
        }
        Ok(chunk)
    }
}

impl Clone for Chunk {
    fn clone(&self) -> (r: Chunk)
        ensures
            r@ == self@,
    {
        proof {
            use_type_invariant(self);
        }
        let data = self.data.clone();
        assert(data@ =~= self.data@);
        Chunk { chunk_type: self.chunk_type, data }
    }
}

impl PartialEq for Chunk {
    fn eq(&self, other: &Chunk) -> (r: bool) {
        let a = self.chunk_type.bytes();
        let b = other.chunk_type.bytes();
        if a[0] != b[0] || a[1] != b[1] || a[2] != b[2] || a[3] != b[3] {
            return false;
        }
        assert(a@ =~= b@);
        if self.data.len() != other.data.len() {
            return false;
        }
        let mut i: usize = 0;
        while i < self.data.len()
            invariant
                i <= self.data@.len() == other.data@.len(),
                self.chunk_type@ == other.chunk_type@,
                self.data@.subrange(0, i as int) == other.data@.subrange(0, i as int),
            decreases self.data@.len() - i,
        {
            if self.data[i] != other.data[i] {
                return false;
            }
            assert(self.data@.subrange(0, i + 1) =~= self.data@.subrange(0, i as int).push(self.data@[i as int]));
            assert(other.data@.subrange(0, i + 1) =~= other.data@.subrange(0, i as int).push(other.data@[i as int]));
            i = i + 1;
        }
        assert(self.data@ =~= self.data@.subrange(0, i as int));
        assert(other.data@ =~= other.data@.subrange(0, i as int));
        true
    }
}

impl vstd::std_specs::cmp::PartialEqSpecImpl for Chunk {
    open spec fn obeys_eq_spec() -> bool {
        true
    }

    /// Chunks are equal when their types and payloads are.
    open spec fn eq_spec(&self, other: &Chunk) -> bool {
        self@ == other@
    }
}

impl Eq for Chunk {
}

impl<'a> TryFrom<&'a [u8]> for Chunk {
    type Error = PngError;

    /// Parses one chunk from the front of `bytes`, as `Chunk::parse` does.
    fn try_from(bytes: &'a [u8]) -> (r: Result<Chunk, PngError>)
        ensures
            parse_view(r) == chunk_parse(bytes@),
    {
        Chunk::parse(bytes)
    }
}

impl<'a> vstd::std_specs::convert::TryFromSpecImpl<&'a [u8]> for Chunk {
    /// The result is stated over views by the `ensures` of `try_from`.
    open spec fn obeys_try_from_spec() -> bool {
        false
    }

    open spec fn try_from_spec(bytes: &'a [u8]) -> Result<Chunk, PngError> {
        arbitrary()
    }
}

/// Serialising a chunk and parsing the bytes gives the chunk back, whatever
/// follows it.
pub proof fn lemma_chunk_round_trip(m: ChunkModel, rest: Seq<u8>)
    requires
        chunk_valid(m),
    ensures
        chunk_parse(chunk_bytes(m) + rest) == Ok::<ChunkModel, PngError>(m),
{
    broadcast use lemma_be_round_trip;

    let s = chunk_bytes(m) + rest;
    let n = m.data.len() as int;
    assert(s.subrange(0, 4) =~= u32_be(n as u32));
    assert(declared_len(s) == n);
    assert(s.subrange(4, 8) =~= m.kind);
    assert(s.subrange(8, 8 + n) =~= m.data);
    assert(s.subrange(8 + n, 12 + n) =~= u32_be(chunk_crc(m)));
}

/// Changing any byte of a serialised chunk's type or payload field (one
/// flipped bit, say) makes parsing fail with a checksum error, whenever the
/// CRC-32 over the changed type and payload differs from the one stored.
pub proof fn lemma_corruption_detected(m: ChunkModel, i: int, v: u8)
    requires
        chunk_valid(m),
        4 <= i < 8 + m.data.len(),
        chunk_crc(corrupted(m, i, v)) != chunk_crc(m),
    ensures
        chunk_parse(chunk_bytes(m).update(i, v)) == Err::<ChunkModel, PngError>(PngError::Checksum),
{
    broadcast use lemma_be_round_trip;

    let s = chunk_bytes(m).update(i, v);
    let n = m.data.len() as int;
    assert(s.subrange(0, 4) =~= u32_be(n as u32));
    assert(s.subrange(4, 8) =~= corrupted(m, i, v).kind);
    assert(s.subrange(8, 8 + n) =~= corrupted(m, i, v).data);
    assert(s.subrange(8 + n, 12 + n) =~= u32_be(chunk_crc(m)));
}

/// The chunk that byte `i` of `m`'s wire form, set to `v`, reads as.
pub open spec fn corrupted(m: ChunkModel, i: int, v: u8) -> ChunkModel {
    let s = chunk_bytes(m).update(i, v);
    ChunkModel { kind: s.subrange(4, 8), data: s.subrange(8, 8 + m.data.len() as int) }
}

/// Input shorter than its declared length plus twelve bytes fails as
/// truncated.
pub proof fn lemma_short_input_truncated(s: Seq<u8>)
    requires
        4 <= s.len() < declared_len(s) + 12,
    ensures
        chunk_parse(s) == Err::<ChunkModel, PngError>(PngError::TruncatedInput),
{
}

} // verus!
