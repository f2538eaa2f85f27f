use vstd::prelude::*;
use crate::chunk::{Chunk, ChunkModel, chunk_bytes, chunk_parse, chunk_valid, lemma_chunk_round_trip};
use crate::chunk_type::tag_chars;
use crate::error::PngError;
use vstd::utf8::valid_utf8;

verus! {

/// The eight bytes that open every container.
pub open spec fn signature() -> Seq<u8> {
    seq![137, 80, 78, 71, 13, 10, 26, 10]
}

/// The wire form of a sequence of chunks: their wire forms, in order.
pub open spec fn chunks_bytes(cs: Seq<ChunkModel>) -> Seq<u8>
    decreases cs.len(),
{
    if cs.len() == 0 {
        Seq::empty()
    } else {
        chunks_bytes(cs.drop_last()) + chunk_bytes(cs.last())
    }
}

/// The wire form of a container: the signature, then its chunks.
pub open spec fn png_bytes(cs: Seq<ChunkModel>) -> Seq<u8> {
    signature() + chunks_bytes(cs)
}

/// What parsing chunks one after another until the input is used up gives:
/// the chunks in order, or the error of the first that fails.
pub open spec fn chunks_parse(s: Seq<u8>) -> Result<Seq<ChunkModel>, PngError>
    decreases s.len(),
{
    if s.len() == 0 {
        Ok(Seq::empty())
    } else {
        match chunk_parse(s) {
            Err(e) => Err(e),
            Ok(m) => match chunks_parse(s.skip(m.data.len() + 12int)) {
                Err(e) => Err(e),
                Ok(rest) => Ok(seq![m] + rest),
            },
        }
    }
}

/// What parsing a container gives: a format error without the signature,
/// else what parsing the bytes after it as chunks gives.
pub open spec fn png_parse(s: Seq<u8>) -> Result<Seq<ChunkModel>, PngError> {
    if s.len() < 8 || s.subrange(0, 8) != signature() {
        Err(PngError::Format)
    } else {
        chunks_parse(s.skip(8))
    }
}

/// `rest` with `prefix` in front of what it holds, or its error.
pub open spec fn prepend(prefix: Seq<ChunkModel>, rest: Result<Seq<ChunkModel>, PngError>)
    -> Result<Seq<ChunkModel>, PngError>
{
    match rest {
        Ok(cs) => Ok(prefix + cs),
        Err(e) => Err(e),
    }
}

/// Whether index `i` holds the first chunk whose type reads as `t`.
pub open spec fn is_first_of_type(cs: Seq<ChunkModel>, t: Seq<char>, i: int) -> bool {
    &&& 0 <= i < cs.len()
    &&& tag_chars(cs[i].kind) == t
    &&& forall|j: int| 0 <= j < i ==> tag_chars(#[trigger] cs[j].kind) != t
}

/// Whether some chunk's type reads as `t`.
pub open spec fn has_type(cs: Seq<ChunkModel>, t: Seq<char>) -> bool {
    exists|i: int| 0 <= i < cs.len() && tag_chars(#[trigger] cs[i].kind) == t
}

/// The models of a sequence of chunks.
pub open spec fn models(cs: Seq<Chunk>) -> Seq<ChunkModel> {
    cs.map_values(|c: Chunk| c@)
}

/// Whether a chunk carries a message: its payload is text and its type is
/// neither `sBIT` nor `IEND`.
pub open spec fn is_message(m: ChunkModel) -> bool {
    &&& valid_utf8(m.data)
    &&& tag_chars(m.kind) != "sBIT"@
    &&& tag_chars(m.kind) != "IEND"@
}

/// The chunks that carry messages, in order.
pub open spec fn messages(cs: Seq<ChunkModel>) -> Seq<ChunkModel> {
    cs.filter(|m: ChunkModel| is_message(m))
}

/// A container: the signature followed by an ordered sequence of chunks.
#[derive(Debug)]
pub struct Png {
    chunks: Vec<Chunk>,
}

impl View for Png {
    type V = Seq<ChunkModel>;

    closed spec fn view(&self) -> Seq<ChunkModel> {
        models(self.chunks@)
    }
}

/// What a container parse gives, seen through the views.
pub open spec fn png_parse_view(r: Result<Png, PngError>) -> Result<Seq<ChunkModel>, PngError> {
    match r {
        Ok(p) => Ok(p@),
        Err(e) => Err(e),
    }
}

impl Png {
    /// The eight signature bytes.
    pub fn standard_header() -> (r: [u8; 8])
        ensures
            r@ == signature(),
    {
        let r: [u8; 8] = [137, 80, 78, 71, 13, 10, 26, 10];
        assert(r@ =~= signature());
        r
    }

    /// A container holding these chunks, in order.
    pub fn from_chunks(chunks: Vec<Chunk>) -> (r: Png)
        ensures
            r@ == models(chunks@),
    {
        Png { chunks }
    }

    /// Adds a chunk at the end.
    pub fn append_chunk(&mut self, chunk: Chunk)
        ensures
            final(self)@ == old(self)@.push(chunk@),
    {
        self.chunks.push(chunk);
        assert(models(self.chunks@) =~= models(old(self).chunks@).push(chunk@));
    }

    /// The chunks, in order.
    pub fn chunks(&self) -> (r: &[Chunk])
        ensures
            models(r@) == self@,
    {
        self.chunks.as_slice()
    }

    /// The index of the first chunk whose type reads as `t`, if any.
    fn position_of_type(&self, chunk_type: &str) -> (r: Option<usize>)
        ensures
            r is None <==> !has_type(self@, chunk_type@),
            r is Some ==> is_first_of_type(self@, chunk_type@, r->Some_0 as int),
    {
        let target = chunk_type.to_owned();
        let mut i: usize = 0;
        while i < self.chunks.len()
            invariant
                i <= self.chunks@.len(),
                target@ == chunk_type@,
                forall|j: int| 0 <= j < i ==> tag_chars(#[trigger] self@[j].kind) != chunk_type@,
            decreases self.chunks@.len() - i,
        {
            let name = self.chunks[i].chunk_type().to_string();
            assert(self@[i as int] == self.chunks@[i as int]@);
            if name == target {
                assert(tag_chars(self@[i as int].kind) == chunk_type@);
                return Some(i);
            }
            i = i + 1;
        }
        None
    }

    /// The first chunk whose type reads as `chunk_type`, if any.
    pub fn chunk_by_type(&self, chunk_type: &str) -> (r: Option<&Chunk>)
        ensures
            r is None <==> !has_type(self@, chunk_type@),
            r is Some ==> exists|i: int|
                is_first_of_type(self@, chunk_type@, i) && (#[trigger] self@[i]) == r->Some_0@,
    {
        match self.position_of_type(chunk_type) {
            Some(i) => Some(&self.chunks[i]),
            None => None,
        }
    }

    /// Takes out the first chunk whose type reads as `chunk_type`; a
    /// not-found error, with the container unchanged, where there is none.
    pub fn remove_chunk(&mut self, chunk_type: &str) -> (r: Result<Chunk, PngError>)
        ensures
            r is Err <==> !has_type(old(self)@, chunk_type@),
            r is Err ==> r->Err_0 == PngError::NotFound && final(self)@ == old(self)@,
            r is Ok ==> exists|i: int|
                is_first_of_type(old(self)@, chunk_type@, i) && (#[trigger] old(self)@[i])
                    == r->Ok_0@ && final(self)@ == old(self)@.remove(i),
    {
        match self.position_of_type(chunk_type) {
            Some(i) => {
                let c = self.chunks.remove(i);
                assert(models(self.chunks@) =~= models(old(self).chunks@).remove(i as int));
                Ok(c)
            },
            None => Err(PngError::NotFound),
        }
    }

    /// Parses a container: the signature, then chunks one after another
    /// until the input is used up. Fails with a format error where the
    /// signature is missing or wrong, else with the first chunk's error.
    pub fn parse(bytes: &[u8]) -> (r: Result<Png, PngError>)
        ensures
            png_parse_view(r) == png_parse(bytes@),
    {
        let header = Png::standard_header();
        if bytes.len() < 8 {
            return Err(PngError::Format);
        }
        let mut k: usize = 0;
        while k < 8
            invariant
                k <= 8 <= bytes@.len(),
                header@ == signature(),
                forall|j: int| 0 <= j < k ==> bytes@[j] == #[trigger] signature()[j],
            decreases 8 - k,
        {
            if bytes[k] != header[k] {
                assert(bytes@.subrange(0, 8)[k as int] != signature()[k as int]);
                return Err(PngError::Format);
            }
            k = k + 1;
        }
        assert(bytes@.subrange(0, 8) =~= signature());
        let mut chunks: Vec<Chunk> = Vec::new();
        let mut off: usize = 8;
        assert(models(chunks@) =~= Seq::<ChunkModel>::empty());
        assert(prepend(Seq::empty(), chunks_parse(bytes@.skip(8))) =~= chunks_parse(bytes@.skip(8)));
        while off < bytes.len()
            invariant
                8 <= off <= bytes@.len(),
                png_parse(bytes@) == chunks_parse(bytes@.skip(8)),
                chunks_parse(bytes@.skip(8)) == prepend(models(chunks@), chunks_parse(bytes@.skip(off as int))),
            decreases bytes@.len() - off,
        {
            let ghost s = bytes@.skip(off as int);
            match Chunk::parse_at(bytes, off) {
                Err(e) => {
                    assert(chunks_parse(s) == Err::<Seq<ChunkModel>, PngError>(e));
                    return Err(e);
                },
                Ok(c) => {
                    let ghost m = c@;
                    let size = c.length() as usize + 12;
                    let ghost rest = chunks_parse(bytes@.skip(off + size));
                    assert(s.skip(size as int) =~= bytes@.skip(off + size));
                    assert(chunks_parse(s) == prepend(seq![m], rest));
                    let ghost before = models(chunks@);
                    chunks.push(c);
                    assert(models(chunks@) =~= before + seq![m]);
                    proof {
                        if rest is Ok {
                            let t = rest->Ok_0;
                            assert(before + (seq![m] + t) =~= (before + seq![m]) + t);
                        }
                    }
                    off = off + size;
                },
            }
        }
        assert(bytes@.skip(off as int) =~= Seq::<u8>::empty());
        assert(models(chunks@) + Seq::<ChunkModel>::empty() =~= models(chunks@));
        Ok(Png { chunks })
    }

    /// Copies of the chunks that carry messages, in order.
    pub fn message_chunks(&self) -> (r: Vec<Chunk>)
        ensures
            models(r@) == messages(self@),
    {
        let sbit = "sBIT".to_owned();
        let iend = "IEND".to_owned();
        let mut out: Vec<Chunk> = Vec::new();
        let mut i: usize = 0;
        assert(self@.subrange(0, 0) =~= Seq::<ChunkModel>::empty());
        proof {
            reveal(Seq::filter);
        }
        assert(models(out@) =~= messages(self@.subrange(0, 0)));
        while i < self.chunks.len()
            invariant
                i <= self.chunks@.len(),
                sbit@ == "sBIT"@,
                iend@ == "IEND"@,
                models(out@) == messages(self@.subrange(0, i as int)),
            decreases self.chunks@.len() - i,
        {
            let c = &self.chunks[i];
            let name = c.chunk_type().to_string();
            let text = c.data_as_string().is_ok();
            let ghost before = out@;
            proof {
                reveal(Seq::filter);
                assert(self@.subrange(0, i + 1).drop_last() =~= self@.subrange(0, i as int));
                assert(self@.subrange(0, i + 1).last() == c@);
            }
            if text && !(name == sbit) && !(name == iend) {
                out.push(c.clone());
                assert(models(out@) =~= models(before).push(c@));
            }
            i = i + 1;
        }
        assert(self@.subrange(0, i as int) =~= self@);
        out
    }

    /// The wire form: the signature, then each chunk's wire form in order.
    pub fn as_bytes(&self) -> (r: Vec<u8>)
        ensures
            r@ == png_bytes(self@),
    {
        let header = Png::standard_header();
        let mut out: Vec<u8> = Vec::new();
        let mut k: usize = 0;
        while k < 8
            invariant
                k <= 8,
                header@ == signature(),
                out@ == signature().subrange(0, k as int),
            decreases 8 - k,
        {
            out.push(header[k]);
            k = k + 1;
            assert(out@ =~= signature().subrange(0, k as int));
        }
        let mut i: usize = 0;
        while i < self.chunks.len()
            invariant
                i <= self.chunks@.len(),
                out@ == signature() + chunks_bytes(self@.subrange(0, i as int)),
            decreases self.chunks@.len() - i,
        {
            self.chunks[i].write_to(&mut out);
            assert(self@.subrange(0, i + 1).drop_last() =~= self@.subrange(0, i as int));
            i = i + 1;
        }
        assert(self@.subrange(0, i as int) =~= self@);
        out
    }
}

/// A chunk's wire form is its length plus twelve bytes.
proof fn lemma_chunk_bytes_len(m: ChunkModel)
    requires
        chunk_valid(m),
    ensures
        chunk_bytes(m).len() == m.data.len() + 12,
{
}

/// The wire form of a nonempty sequence starts with its first chunk's.
proof fn lemma_chunks_bytes_front(cs: Seq<ChunkModel>)
    requires
        cs.len() > 0,
    ensures
        chunks_bytes(cs) == chunk_bytes(cs[0]) + chunks_bytes(cs.drop_first()),
    decreases cs.len(),
{
    if cs.len() == 1 {
        assert(cs.drop_last() =~= Seq::<ChunkModel>::empty());
        assert(cs.drop_first() =~= Seq::<ChunkModel>::empty());
        assert(chunks_bytes(cs) =~= chunk_bytes(cs[0]) + chunks_bytes(cs.drop_first()));
    } else {
        lemma_chunks_bytes_front(cs.drop_last());
        assert(cs.drop_last().drop_first() =~= cs.drop_first().drop_last());
        assert(cs.drop_first().last() == cs.last());
        assert(chunks_bytes(cs) =~= chunk_bytes(cs[0]) + chunks_bytes(cs.drop_first()));
    }
}

/// One step of parsing chunks: the first chunk, then the rest.
proof fn lemma_chunks_parse_step(s: Seq<u8>, m: ChunkModel)
    requires
        s.len() > 0,
        chunk_parse(s) == Ok::<ChunkModel, PngError>(m),
    ensures
        chunks_parse(s) == prepend(seq![m], chunks_parse(s.skip(m.data.len() + 12int))),
{
}

/// Parsing the wire form of valid chunks gives them back.
#[verifier::spinoff_prover]
#[verifier::rlimit(30)]
proof fn lemma_chunks_round_trip(cs: Seq<ChunkModel>)
    requires
        forall|i: int| 0 <= i < cs.len() ==> chunk_valid(#[trigger] cs[i]),
    ensures
        chunks_parse(chunks_bytes(cs)) == Ok::<Seq<ChunkModel>, PngError>(cs),
    decreases cs.len(),
{
    if cs.len() > 0 {
        let m = cs[0];
        let tail = cs.drop_first();
        let rest = chunks_bytes(tail);
        let s = chunk_bytes(m) + rest;
        assert(chunk_valid(m));
        assert forall|i: int| 0 <= i < tail.len() implies chunk_valid(#[trigger] tail[i]) by {
            assert(tail[i] == cs[i + 1]);
        }
        lemma_chunks_round_trip(tail);
        lemma_chunks_bytes_front(cs);
        lemma_chunk_round_trip(m, rest);
        lemma_chunk_bytes_len(m);
        assert(s.skip(m.data.len() + 12int) =~= rest);
        lemma_chunks_parse_step(s, m);
        assert(seq![m] + tail =~= cs);
    } else {
        assert(cs =~= Seq::<ChunkModel>::empty());
    }
}

/// Parsing a container's wire form gives back the same chunks in the same
/// order.
pub proof fn lemma_png_round_trip(cs: Seq<ChunkModel>)
    requires
        forall|i: int| 0 <= i < cs.len() ==> chunk_valid(#[trigger] cs[i]),
    ensures
        png_parse(png_bytes(cs)) == Ok::<Seq<ChunkModel>, PngError>(cs),
{
    let s = png_bytes(cs);
    assert(s.subrange(0, 8) =~= signature());
    assert(s.skip(8) =~= chunks_bytes(cs));
    lemma_chunks_round_trip(cs);
}

/// A chunk appended to a container with no chunk of its type is the first
/// of that type, and once it is removed again none of that type is left.
pub proof fn lemma_append_find_remove(cs: Seq<ChunkModel>, m: ChunkModel)
    requires
        !has_type(cs, tag_chars(m.kind)),
    ensures
        is_first_of_type(cs.push(m), tag_chars(m.kind), cs.len() as int),
        cs.push(m).remove(cs.len() as int) == cs,
        !has_type(cs.push(m).remove(cs.len() as int), tag_chars(m.kind)),
{
    let t = tag_chars(m.kind);
    let grown = cs.push(m);
    assert(grown[cs.len() as int] == m);
    assert forall|j: int| 0 <= j < cs.len() implies tag_chars(#[trigger] grown[j].kind) != t by {
        assert(grown[j] == cs[j]);
    }
    assert(grown.remove(cs.len() as int) =~= cs);
}

impl<'a> TryFrom<&'a [u8]> for Png {
    type Error = PngError;

    /// Parses a container, as `Png::parse` does.
    fn try_from(bytes: &'a [u8]) -> (r: Result<Png, PngError>)
        ensures
            png_parse_view(r) == png_parse(bytes@),
    {
        Png::parse(bytes)
    }
}

impl<'a> vstd::std_specs::convert::TryFromSpecImpl<&'a [u8]> for Png {
    /// The result is stated over views by the `ensures` of `try_from`.
    open spec fn obeys_try_from_spec() -> bool {
        false
    }

    open spec fn try_from_spec(bytes: &'a [u8]) -> Result<Png, PngError> {
        arbitrary()
    }
}

} // verus!
