use vstd::prelude::*;
use vstd::string::StringSliceAdditionalSpecFns;
use vstd::utf8::*;

use crate::chunk::{
    chunk_wire, lemma_parse_chunk_consumes, lemma_parse_chunk_wire, parse_chunk, well_formed_chunk,
    Chunk, ChunkError, ChunkView,
};

verus! {

/// The eight bytes that open every PNG file.
pub open spec fn png_signature() -> Seq<u8> {
    seq![137u8, 80u8, 78u8, 71u8, 13u8, 10u8, 26u8, 10u8]
}

/// The bytes of a sequence of chunks, one after another.
pub open spec fn chunks_wire(cs: Seq<ChunkView>) -> Seq<u8>
    decreases cs.len(),
{
    if cs.len() == 0 {
        Seq::empty()
    } else {
        chunk_wire(cs[0]) + chunks_wire(cs.drop_first())
    }
}

/// The bytes of a PNG file with the given chunks.
pub open spec fn png_wire(cs: Seq<ChunkView>) -> Seq<u8> {
    png_signature() + chunks_wire(cs)
}

/// Why a PNG file could not be read, or a chunk was not found in it.
#[derive(Debug, Clone, Copy, PartialEq, Eq, Structural)]
pub enum PngError {
    /// The bytes do not open with the PNG signature.
    BadSignature,
    /// A chunk could not be read.
    Chunk(ChunkError),
    /// No chunk has the requested type.
    NotFound,
}

/// The chunks of `b`, read one after another until the bytes are used up,
/// or the first chunk that could not be read.
pub open spec fn parse_chunks(b: Seq<u8>) -> Result<Seq<ChunkView>, ChunkError>
    decreases b.len(),
{
    if b.len() == 0 {
        Ok(Seq::empty())
    } else {
        match parse_chunk(b) {
            Err(e) => Err(e),
            Ok(c) => {
                let k = 12 + c.data.len() as int;
                proof {
                    lemma_parse_chunk_consumes(b);
                }
                match parse_chunks(b.subrange(k, b.len() as int)) {
                    Ok(rest) => Ok(seq![c] + rest),
                    Err(e) => Err(e),
                }
            },
        }
    }
}

/// The outcome of reading a whole PNG file: signature, then chunks to the end.
pub open spec fn parse_png(b: Seq<u8>) -> Result<Seq<ChunkView>, PngError> {
    if b.len() < 8 || b.subrange(0, 8) != png_signature() {
        Err(PngError::BadSignature)
    } else {
        match parse_chunks(b.subrange(8, b.len() as int)) {
            Ok(cs) => Ok(cs),
            Err(e) => Err(PngError::Chunk(e)),
        }
    }
}

/// `i` is the position of the first chunk whose type code is `name`.
pub open spec fn is_first_with_type(cs: Seq<ChunkView>, name: Seq<u8>, i: int) -> bool {
    &&& 0 <= i < cs.len()
    &&& cs[i].chunk_type == name
    &&& forall|j: int| 0 <= j < i ==> cs[j].chunk_type != name
}

/// Some chunk has the type code `name`.
pub open spec fn has_type(cs: Seq<ChunkView>, name: Seq<u8>) -> bool {
    exists|i: int| 0 <= i < cs.len() && cs[i].chunk_type == name
}

/// The texts of the chunks whose payload is valid, non-empty UTF-8, in order.
pub open spec fn messages_of(cs: Seq<ChunkView>) -> Seq<Seq<char>>
    decreases cs.len(),
{
    if cs.len() == 0 {
        Seq::empty()
    } else {
        let prev = messages_of(cs.drop_last());
        let d = cs.last().data;
        if valid_utf8(d) && decode_utf8(d).len() > 0 {
            prev.push(decode_utf8(d))
        } else {
            prev
        }
    }
}

/// Chunks already read, put in front of the outcome of reading the rest.
pub open spec fn prepend_chunks(
    acc: Seq<ChunkView>,
    r: Result<Seq<ChunkView>, ChunkError>,
) -> Result<Seq<ChunkView>, ChunkError> {
    match r {
        Ok(rest) => Ok(acc + rest),
        Err(e) => Err(e),
    }
}

/// The bytes of chunks followed by one more chunk.
pub proof fn lemma_chunks_wire_push(cs: Seq<ChunkView>, c: ChunkView)
    ensures
        chunks_wire(cs.push(c)) == chunks_wire(cs) + chunk_wire(c),
    decreases cs.len(),
{
    if cs.len() == 0 {
        assert(cs.push(c).drop_first() =~= Seq::<ChunkView>::empty());
        assert(chunks_wire(Seq::<ChunkView>::empty()) == Seq::<u8>::empty());
        assert(cs.push(c)[0] == c);
        assert(chunks_wire(cs.push(c)) =~= chunks_wire(cs) + chunk_wire(c));
    } else {
        let d = cs.push(c);
        assert(d[0] == cs[0]);
        assert(d.drop_first() =~= cs.drop_first().push(c));
        lemma_chunks_wire_push(cs.drop_first(), c);
        assert(chunks_wire(d) == chunk_wire(cs[0]) + chunks_wire(cs.drop_first().push(c)));
        assert(chunks_wire(cs) == chunk_wire(cs[0]) + chunks_wire(cs.drop_first()));
        assert(chunks_wire(d) =~= chunks_wire(cs) + chunk_wire(c));
    }
}

/// Every chunk read from bytes is well formed.
pub proof fn lemma_parsed_chunks_well_formed(b: Seq<u8>)
    requires
        parse_chunks(b) is Ok,
    ensures
        forall|i: int|
            0 <= i < parse_chunks(b)->Ok_0.len() ==> well_formed_chunk(
                #[trigger] parse_chunks(b)->Ok_0[i],
            ),
    decreases b.len(),
{
    if b.len() > 0 {
        lemma_parse_chunk_consumes(b);
        let c = parse_chunk(b)->Ok_0;
        let k = 12 + c.data.len() as int;
        let rest = b.subrange(k, b.len() as int);
        lemma_parsed_chunks_well_formed(rest);
        let cs = parse_chunks(b)->Ok_0;
        assert forall|i: int| 0 <= i < cs.len() implies well_formed_chunk(#[trigger] cs[i]) by {
            if i > 0 {
                assert(cs[i] == parse_chunks(rest)->Ok_0[i - 1]);
            }
        }
    }
}

/// Reading the bytes of well-formed chunks gives those chunks back.
pub proof fn lemma_chunks_wire_parses(cs: Seq<ChunkView>)
    requires
        forall|i: int| 0 <= i < cs.len() ==> well_formed_chunk(#[trigger] cs[i]),
    ensures
        parse_chunks(chunks_wire(cs)) == Ok::<Seq<ChunkView>, ChunkError>(cs),
    decreases cs.len(),
{
    if cs.len() > 0 {
        let c = cs[0];
        let rest = cs.drop_first();
        assert(well_formed_chunk(c));
        assert forall|i: int| 0 <= i < rest.len() implies well_formed_chunk(#[trigger] rest[i]) by {
            assert(rest[i] == cs[i + 1]);
        }
        lemma_chunks_wire_parses(rest);
        let w = chunks_wire(cs);
        assert(w == chunk_wire(c) + chunks_wire(rest));
        lemma_parse_chunk_wire(c, chunks_wire(rest));
        assert(parse_chunk(w) == Ok::<ChunkView, ChunkError>(c));
        let k = 12 + c.data.len() as int;
        assert(chunk_wire(c).len() == k);
        assert(w.len() > 0);
        assert(w.subrange(k, w.len() as int) =~= chunks_wire(rest));
        assert(parse_chunks(w.subrange(k, w.len() as int)) == Ok::<Seq<ChunkView>, ChunkError>(
            rest,
        ));
        assert(seq![c] + rest =~= cs);
        assert(parse_chunks(w) == Ok::<Seq<ChunkView>, ChunkError>(seq![c] + rest));
    } else {
        assert(cs =~= Seq::<ChunkView>::empty());
    }
}

/// Any well-formed chunks, written out as a PNG file, read back as the same chunks.
pub proof fn lemma_png_wire_parses(cs: Seq<ChunkView>)
    requires
        forall|i: int| 0 <= i < cs.len() ==> well_formed_chunk(#[trigger] cs[i]),
    ensures
        parse_png(png_wire(cs)) == Ok::<Seq<ChunkView>, PngError>(cs),
{
    let w = png_wire(cs);
    assert(w.subrange(0, 8) =~= png_signature());
    assert(w.subrange(8, w.len() as int) =~= chunks_wire(cs));
    lemma_chunks_wire_parses(cs);
}

/// Container round trip: the chunks read from a PNG file, written out again,
/// read back as the same chunks after the same signature.
pub proof fn lemma_png_round_trip(b: Seq<u8>)
    requires
        parse_png(b) is Ok,
    ensures
        parse_png(png_wire(parse_png(b)->Ok_0)) == parse_png(b),
{
    lemma_parsed_chunks_well_formed(b.subrange(8, b.len() as int));
    lemma_png_wire_parses(parse_png(b)->Ok_0);
}

/// Lookup after appending chunks `x` then `y`: the first chunk of `x`'s type is
/// still the earlier one where there is one, and is `x` where there is none.
pub proof fn lemma_lookup_after_appends(cs: Seq<ChunkView>, x: ChunkView, y: ChunkView)
    ensures
        !has_type(cs, x.chunk_type) ==> is_first_with_type(
            cs.push(x).push(y),
            x.chunk_type,
            cs.len() as int,
        ),
        forall|i: int|
            is_first_with_type(cs, x.chunk_type, i) ==> #[trigger] is_first_with_type(
                cs.push(x).push(y),
                x.chunk_type,
                i,
            ),
{
    let all = cs.push(x).push(y);
    assert(all[cs.len() as int] == x);
    assert forall|j: int| 0 <= j < cs.len() implies all[j] == cs[j] by {}
}

/// A PNG file: the signature followed by an ordered sequence of chunks.
#[derive(Debug)]
pub struct Png {
    chunks: Vec<Chunk>,
}

impl View for Png {
    type V = Seq<ChunkView>;

    closed spec fn view(&self) -> Seq<ChunkView> {
        self.chunks@.map_values(|c: Chunk| c@)
    }
}

/// A PNG read from bytes, or why it could not be.
pub open spec fn png_result_view(r: Result<Png, PngError>) -> Result<Seq<ChunkView>, PngError> {
    match r {
        Ok(p) => Ok(p@),
        Err(e) => Err(e),
    }
}

/// The texts held by a sequence of strings.
pub open spec fn texts(v: Seq<String>) -> Seq<Seq<char>> {
    v.map_values(|s: String| s@)
}

impl Clone for Png {
    fn clone(&self) -> (r: Png)
        ensures
            r@ == self@,
    {
        let mut chunks: Vec<Chunk> = Vec::new();
        let mut i: usize = 0;
        while i < self.chunks.len()
            invariant
                i <= self.chunks@.len(),
                chunks@.map_values(|c: Chunk| c@) =~= self@.subrange(0, i as int),
            decreases self.chunks@.len() - i,
        {
            let c = self.chunks[i].clone();
            let ghost before = chunks@;
            chunks.push(c);
            assert(chunks@.map_values(|c: Chunk| c@) =~= before.map_values(|c: Chunk| c@).push(c@));
            assert(self@.subrange(0, i + 1) =~= self@.subrange(0, i as int).push(self@[i as int]));
            i = i + 1;
        }
        let r = Png { chunks };
        assert(r@ =~= self@);
        r
    }
}

impl Png {
    /// The PNG signature.
    pub fn signature() -> (r: [u8; 8])
        ensures
            r@ == png_signature(),
    {
        let r: [u8; 8] = [137, 80, 78, 71, 13, 10, 26, 10];
        assert(r@ =~= png_signature());
        r
    }

    /// A PNG holding the given chunks, in order.
    pub fn from_chunks(chunks: Vec<Chunk>) -> (r: Png)
        ensures
            r@ == chunks@.map_values(|c: Chunk| c@),
    {
        Png { chunks }
    }

    /// The chunks, in order.
    pub fn chunks(&self) -> (r: &[Chunk])
        ensures
            r@.map_values(|c: Chunk| c@) == self@,
    {
        self.chunks.as_slice()
    }

    /// Reads a PNG file: the signature, then chunks until the bytes are used
    /// up. Any chunk that cannot be read fails the whole file.
    pub fn try_from(bytes: &[u8]) -> (r: Result<Png, PngError>)
        ensures
            png_result_view(r) == parse_png(bytes@),
    {
        let total = bytes.len();
        if total < 8 {
            return Err(PngError::BadSignature);
        }
        let sig = Png::signature();
        let mut k: usize = 0;
        while k < 8
            invariant
                k <= 8,
                total == bytes@.len(),
                8 <= total,
                sig@ == png_signature(),
                forall|j: int| 0 <= j < k ==> bytes@[j] == png_signature()[j],
            decreases 8 - k,
        {
            if bytes[k] != sig[k] {
                assert(bytes@.subrange(0, 8)[k as int] != png_signature()[k as int]);
                return Err(PngError::BadSignature);
            }
            k = k + 1;
        }
        assert(bytes@.subrange(0, 8) =~= png_signature());
        let ghost all = bytes@.subrange(8, total as int);
        let mut chunks: Vec<Chunk> = Vec::new();
        let mut pos: usize = 8;
        assert(bytes@.subrange(pos as int, total as int) =~= all);
        assert(Seq::<ChunkView>::empty() + parse_chunks(all)->Ok_0 =~= parse_chunks(all)->Ok_0);
        while pos < total
            invariant
                8 <= pos <= total,
                total == bytes@.len(),
                bytes@.subrange(0, 8) == png_signature(),
                all == bytes@.subrange(8, total as int),
                parse_chunks(all) == prepend_chunks(
                    chunks@.map_values(|c: Chunk| c@),
                    parse_chunks(bytes@.subrange(pos as int, total as int)),
                ),
            decreases total - pos,
        {
            let ghost b = bytes@.subrange(pos as int, total as int);
            proof {
                lemma_parse_chunk_consumes(b);
            }
            match Chunk::parse_at(bytes, pos) {
                Err(e) => {
                    assert(parse_chunks(b) == Err::<Seq<ChunkView>, ChunkError>(e));
                    return Err(PngError::Chunk(e));
                },
                Ok(c) => {
                    let n = c.length() as usize;
                    let next = pos + 12 + n;
                    let ghost acc = chunks@.map_values(|c: Chunk| c@);
                    proof {
                        let rest = bytes@.subrange(next as int, total as int);
                        assert(b.subrange(12 + n, b.len() as int) =~= rest);
                        match parse_chunks(rest) {
                            Ok(tail) => {
                                assert(acc + (seq![c@] + tail) =~= acc.push(c@) + tail);
                            },
                            Err(_) => {},
                        }
                    }
                    chunks.push(c);
                    assert(chunks@.map_values(|c: Chunk| c@) =~= acc.push(c@));
                    pos = next;
                },
            }
        }
        assert(bytes@.subrange(pos as int, total as int) =~= Seq::<u8>::empty());
        let r = Png { chunks };
        assert(r@ + Seq::<ChunkView>::empty() =~= r@);
        Ok(r)
    }

    /// The bytes of the file: the signature, then each chunk's bytes in order.
    pub fn as_bytes(&self) -> (r: Vec<u8>)
        ensures
            r@ == png_wire(self@),
    {
        let sig = Png::signature();
        let mut out: Vec<u8> = Vec::new();
        let mut k: usize = 0;
        while k < 8
            invariant
                k <= 8,
                sig@ == png_signature(),
                out@ =~= png_signature().subrange(0, k as int),
            decreases 8 - k,
        {
            out.push(sig[k]);
            k = k + 1;
        }
        let mut i: usize = 0;
        assert(self@.subrange(0, 0) =~= Seq::<ChunkView>::empty());
        assert(out@ =~= png_signature() + chunks_wire(self@.subrange(0, 0)));
        while i < self.chunks.len()
            invariant
                i <= self.chunks@.len(),
                self@.len() == self.chunks@.len(),
                out@ == png_signature() + chunks_wire(self@.subrange(0, i as int)),
            decreases self.chunks@.len() - i,
        {
            self.chunks[i].write_to(&mut out);
            proof {
                assert(self@.subrange(0, i + 1) =~= self@.subrange(0, i as int).push(self@[i as int]));
                lemma_chunks_wire_push(self@.subrange(0, i as int), self@[i as int]);
            }
            i = i + 1;
        }
        assert(self@.subrange(0, i as int) =~= self@);
        out
    }

    fn first_position(&self, chunk_type: &str) -> (r: Option<usize>)
        ensures
            r is None <==> !has_type(self@, chunk_type.spec_bytes()),
            r matches Some(i) ==> is_first_with_type(self@, chunk_type.spec_bytes(), i as int),
    {
        let name = chunk_type.as_bytes();
        let mut i: usize = 0;
        while i < self.chunks.len()
            invariant
                i <= self.chunks@.len(),
                self@.len() == self.chunks@.len(),
                name@ == chunk_type.spec_bytes(),
                forall|j: int| 0 <= j < i ==> self@[j].chunk_type != name@,
            decreases self.chunks@.len() - i,
        {
            if same_code(self.chunks[i].chunk_type().bytes(), name) {
                assert(self@[i as int] == self.chunks@[i as int]@);
                assert(self@[i as int].chunk_type == name@);
                return Some(i);
            }
            i = i + 1;
        }
        None
    }

    /// The first chunk whose type code reads as `chunk_type`, if any.
    pub fn chunk_by_type(&self, chunk_type: &str) -> (r: Option<&Chunk>)
        ensures
            r is None <==> !has_type(self@, chunk_type.spec_bytes()),
            r matches Some(c) ==> exists|i: int|
                is_first_with_type(self@, chunk_type.spec_bytes(), i) && c@ == self@[i],
    {
        match self.first_position(chunk_type) {
            Some(i) => Some(&self.chunks[i]),
            None => None,
        }
    }

    /// Removes and returns the first chunk whose type code reads as
    /// `chunk_type`. When there is none, the PNG is left as it was.
    pub fn remove_chunk(&mut self, chunk_type: &str) -> (r: Result<Chunk, PngError>)
        ensures
            r is Err <==> !has_type(old(self)@, chunk_type.spec_bytes()),
            r matches Err(e) ==> e == PngError::NotFound && final(self)@ == old(self)@,
            r matches Ok(c) ==> exists|i: int|
                is_first_with_type(old(self)@, chunk_type.spec_bytes(), i) && c@ == old(self)@[i]
                    && final(self)@ == old(self)@.remove(i),
    {
        match self.first_position(chunk_type) {
            Some(i) => {
                let c = self.chunks.remove(i);
                assert(final(self)@ =~= old(self)@.remove(i as int));
                Ok(c)
            },
            None => Err(PngError::NotFound),
        }
    }

    /// The texts of the chunks whose payload is valid, non-empty UTF-8, in
    /// chunk order: the candidates for a hidden message.
    pub fn messages(&self) -> (r: Vec<String>)
        ensures
            texts(r@) == messages_of(self@),
    {
        let mut out: Vec<String> = Vec::new();
        let mut i: usize = 0;
        while i < self.chunks.len()
            invariant
                i <= self.chunks@.len(),
                self@.len() == self.chunks@.len(),
                texts(out@) == messages_of(self@.subrange(0, i as int)),
            decreases self.chunks@.len() - i,
        {
            let ghost prev = out@;
            proof {
                let sub = self@.subrange(0, i + 1);
                assert(sub.drop_last() =~= self@.subrange(0, i as int));
                assert(sub.last() == self@[i as int]);
            }
            match self.chunks[i].data_as_string() {
                Ok(text) => {
                    if !text.as_str().is_empty() {
                        out.push(text);
                        assert(texts(out@) =~= texts(prev).push(out@.last()@));
                    }
                },
                Err(_) => {},
            }
            i = i + 1;
        }
        assert(self@.subrange(0, i as int) =~= self@);
        out
    }

    /// Adds a chunk after all the others.
    pub fn append_chunk(&mut self, chunk: Chunk)
        ensures
            final(self)@ == old(self)@.push(chunk@),
    {
        self.chunks.push(chunk);
        assert(final(self)@ =~= old(self)@.push(chunk@));
    }
}

fn same_code(code: [u8; 4], name: &[u8]) -> (r: bool)
    ensures
        r == (code@ == name@),
{
    if name.len() != 4 {
        return false;
    }
    let r = code[0] == name[0] && code[1] == name[1] && code[2] == name[2] && code[3] == name[3];
    if r {
        assert(code@ =~= name@);
    }
    r
}

} // verus!
