use vstd::prelude::*;
use vstd::utf8::*;

use crate::chunk_type::{is_type_code, reserved_bit_valid, ChunkType, ChunkTypeError};
use crate::text::{lossy_text, text_from_utf8, text_from_utf8_lossy};

verus! {

/// The CRC-32/ISO-HDLC checksum (the zlib and Ethernet CRC-32) of a byte sequence.
pub uninterp spec fn crc32_iso_hdlc(bytes: Seq<u8>) -> u32;

/// Relies on `crc::Crc::<u32>::new(&crc::CRC_32_ISO_HDLC).checksum`: the
/// CRC-32/ISO-HDLC checksum of the bytes.
#[verifier::external_body]
fn crc32_checksum(bytes: &[u8]) -> (r: u32)
    ensures
        r == crc32_iso_hdlc(bytes@),
{
    crc::Crc::<u32>::new(&crc::CRC_32_ISO_HDLC).checksum(bytes)
}

/// The big-endian value of four bytes.
pub open spec fn be_u32(b: Seq<u8>) -> u32 {
    ((b[0] as u32) << 24u32) | ((b[1] as u32) << 16u32) | ((b[2] as u32) << 8u32) | (b[3] as u32)
}

/// The four big-endian bytes of a value.
pub open spec fn u32_be_bytes(n: u32) -> Seq<u8> {
    seq![(n >> 24u32) as u8, (n >> 16u32) as u8, (n >> 8u32) as u8, n as u8]
}

/// Reading back the big-endian bytes of a value gives the value.
pub proof fn lemma_be_round_trip(n: u32)
    ensures
        be_u32(u32_be_bytes(n)) == n,
{
    let b = u32_be_bytes(n);
    assert(((((n >> 24u32) as u8) as u32) << 24u32) | ((((n >> 16u32) as u8) as u32) << 16u32)
        | ((((n >> 8u32) as u8) as u32) << 8u32) | ((n as u8) as u32) == n) by (bit_vector);
}

/// A chunk as values: its type code and its payload.
pub struct ChunkView {
    pub chunk_type: Seq<u8>,
    pub data: Seq<u8>,
}

/// The checksum stored with a chunk: over the type code followed by the payload.
pub open spec fn chunk_checksum(chunk_type: Seq<u8>, data: Seq<u8>) -> u32 {
    crc32_iso_hdlc(chunk_type + data)
}

/// The bytes of a chunk: payload length, type code, payload and checksum, the
/// two numbers as big-endian `u32`s.
pub open spec fn chunk_wire(c: ChunkView) -> Seq<u8> {
    u32_be_bytes(c.data.len() as u32) + c.chunk_type + c.data + u32_be_bytes(
        chunk_checksum(c.chunk_type, c.data),
    )
}

/// Why a chunk could not be read, or its payload not taken as text.
#[derive(Debug, Clone, Copy, PartialEq, Eq, Structural)]
pub enum ChunkError {
    /// The bytes end before the chunk does.
    Truncated,
    /// The type code is not four ASCII letters, or its reserved bit is unset.
    BadType(ChunkTypeError),
    /// The stored checksum differs from the one computed over type and payload.
    ChecksumMismatch,
    /// The payload is not valid UTF-8.
    InvalidUtf8,
}

/// The outcome of reading one chunk from the start of `b`; bytes after the
/// chunk are ignored.
#[verifier::opaque]
pub open spec fn parse_chunk(b: Seq<u8>) -> Result<ChunkView, ChunkError> {
    if b.len() < 8 {
        Err(ChunkError::Truncated)
    } else if !is_type_code(b.subrange(4, 8)) {
        Err(ChunkError::BadType(ChunkTypeError::NotAlphabetic))
    } else if !reserved_bit_valid(b.subrange(4, 8)) {
        Err(ChunkError::BadType(ChunkTypeError::ReservedBitUnset))
    } else {
        let n = be_u32(b.subrange(0, 4)) as int;
        if b.len() < 12 + n {
            Err(ChunkError::Truncated)
        } else if be_u32(b.subrange(8 + n, 12 + n)) != crc32_iso_hdlc(b.subrange(4, 8 + n)) {
            Err(ChunkError::ChecksumMismatch)
        } else {
            Ok(ChunkView { chunk_type: b.subrange(4, 8), data: b.subrange(8, 8 + n) })
        }
    }
}

/// A chunk read from the start of `b` takes up its length plus twelve bytes of
/// `b`, and is well formed.
pub proof fn lemma_parse_chunk_consumes(b: Seq<u8>)
    ensures
        parse_chunk(b) matches Ok(c) ==> 12 + c.data.len() <= b.len() && well_formed_chunk(c),
{
    reveal(parse_chunk);
}

/// A chunk whose type code is four letters with the reserved bit set, and
/// whose payload length fits in a `u32`: one that reads back from its bytes.
pub open spec fn well_formed_chunk(c: ChunkView) -> bool {
    &&& is_type_code(c.chunk_type)
    &&& reserved_bit_valid(c.chunk_type)
    &&& c.data.len() <= u32::MAX
}

/// Reading a chunk from its own bytes, whatever follows them, gives the chunk back.
pub proof fn lemma_parse_chunk_wire(c: ChunkView, rest: Seq<u8>)
    requires
        well_formed_chunk(c),
    ensures
        parse_chunk(chunk_wire(c) + rest) == Ok::<ChunkView, ChunkError>(c),
{
    reveal(parse_chunk);
    let w = chunk_wire(c) + rest;
    let n = c.data.len() as int;
    assert(w.subrange(0, 4) =~= u32_be_bytes(c.data.len() as u32));
    lemma_be_round_trip(c.data.len() as u32);
    assert(w.subrange(4, 8) =~= c.chunk_type);
    assert(w.subrange(4, 8 + n) =~= c.chunk_type + c.data);
    assert(w.subrange(8, 8 + n) =~= c.data);
    assert(w.subrange(8 + n, 12 + n) =~= u32_be_bytes(chunk_checksum(c.chunk_type, c.data)));
    lemma_be_round_trip(chunk_checksum(c.chunk_type, c.data));
}

/// Round trip: a chunk built from a valid type and any payload that fits in a
/// `u32` length reads back, from the bytes it writes, as the same type and payload.
pub proof fn lemma_chunk_round_trip(c: ChunkView)
    requires
        well_formed_chunk(c),
    ensures
        parse_chunk(chunk_wire(c)) == Ok::<ChunkView, ChunkError>(c),
{
    lemma_parse_chunk_wire(c, Seq::empty());
    assert(chunk_wire(c) + Seq::<u8>::empty() =~= chunk_wire(c));
}

/// The checksum covers the type code and payload only, so a length field that
/// claims more payload than the bytes hold is caught as truncation, before
/// any checksum comparison.
pub proof fn lemma_overstated_length_is_truncation(c: ChunkView, n: u32)
    requires
        is_type_code(c.chunk_type),
        reserved_bit_valid(c.chunk_type),
        c.data.len() < n,
    ensures
        parse_chunk(
            u32_be_bytes(n) + c.chunk_type + c.data + u32_be_bytes(
                chunk_checksum(c.chunk_type, c.data),
            ),
        ) == Err::<ChunkView, ChunkError>(ChunkError::Truncated),
{
    reveal(parse_chunk);
    let w = u32_be_bytes(n) + c.chunk_type + c.data + u32_be_bytes(
        chunk_checksum(c.chunk_type, c.data),
    );
    assert(w.subrange(0, 4) =~= u32_be_bytes(n));
    lemma_be_round_trip(n);
    assert(w.subrange(4, 8) =~= c.chunk_type);
}

/// A length-prefixed, checksummed record: a type code and a payload.
#[derive(Debug)]
pub struct Chunk {
    chunk_type: ChunkType,
    data: Vec<u8>,
}

impl View for Chunk {
    type V = ChunkView;

    closed spec fn view(&self) -> ChunkView {
        ChunkView { chunk_type: self.chunk_type@, data: self.data@ }
    }
}

impl Clone for Chunk {
    fn clone(&self) -> (r: Chunk)
        ensures
            r@ == self@,
    {
        proof {
            use_type_invariant(self);
        }
        let data = self.data.clone();
        assert(data@ =~= self.data@);
        Chunk { chunk_type: self.chunk_type, data }
    }
}

/// A chunk read from bytes, or why it could not be.
pub open spec fn chunk_result_view(r: Result<Chunk, ChunkError>) -> Result<ChunkView, ChunkError> {
    match r {
        Ok(c) => Ok(c@),
        Err(e) => Err(e),
    }
}

impl Chunk {
    #[verifier::type_invariant]
    spec fn well_formed(self) -> bool {
        self.data@.len() <= u32::MAX
    }

    /// A chunk of the given type and payload; the payload length must fit in a `u32`.
    pub fn new(chunk_type: ChunkType, data: Vec<u8>) -> (r: Chunk)
        requires
            data@.len() <= u32::MAX,
        ensures
            r@ == (ChunkView { chunk_type: chunk_type@, data: data@ }),
    {
        Chunk { chunk_type, data }
    }

    /// The payload length, as stored in the length field.
    pub fn length(&self) -> (r: u32)
        ensures
            r == self@.data.len(),
    {
        proof {
            use_type_invariant(self);
        }
        self.data.len() as u32
    }

    /// The chunk's type code.
    pub fn chunk_type(&self) -> (r: &ChunkType)
        ensures
            r@ == self@.chunk_type,
    {
        &self.chunk_type
    }

    /// The payload.
    pub fn data(&self) -> (r: &[u8])
        ensures
            r@ == self@.data,
    {
        self.data.as_slice()
    }

    /// The checksum over the type code followed by the payload.
    pub fn crc(&self) -> (r: u32)
        ensures
            r == chunk_checksum(self@.chunk_type, self@.data),
    {
        let code = self.chunk_type.bytes();
        let mut bytes: Vec<u8> = Vec::new();
        bytes.push(code[0]);
        bytes.push(code[1]);
        bytes.push(code[2]);
        bytes.push(code[3]);
        let mut i: usize = 0;
        while i < self.data.len()
            invariant
                i <= self.data@.len(),
                bytes@ =~= code@ + self.data@.subrange(0, i as int),
            decreases self.data@.len() - i,
        {
            bytes.push(self.data[i]);
            i = i + 1;
        }
        assert(self.data@.subrange(0, self.data@.len() as int) =~= self.data@);
        crc32_checksum(bytes.as_slice())
    }

    /// The payload as text; fails when it is not valid UTF-8.
    pub fn data_as_string(&self) -> (r: Result<String, ChunkError>)
        ensures
            r is Ok <==> valid_utf8(self@.data),
            r matches Ok(s) ==> s@ == decode_utf8(self@.data),
            r matches Err(e) ==> e == ChunkError::InvalidUtf8,
    {
        match text_from_utf8(self.data.clone()) {
            Some(s) => Ok(s),
            None => Err(ChunkError::InvalidUtf8),
        }
    }

    /// The payload as text for display: invalid UTF-8 is shown with
    /// replacement characters rather than refused.
    pub fn to_string(&self) -> (r: String)
        ensures
            r@ == lossy_text(self@.data),
            valid_utf8(self@.data) ==> r@ == decode_utf8(self@.data),
    {
        text_from_utf8_lossy(self.data.as_slice())
    }

    /// The chunk's bytes: length, type code, payload and checksum.
    pub fn as_bytes(&self) -> (r: Vec<u8>)
        ensures
            r@ == chunk_wire(self@),
    {
        let mut out: Vec<u8> = Vec::new();
        self.write_to(&mut out);
        assert(out@ =~= chunk_wire(self@));
        out
    }

    /// Appends the chunk's bytes to `out`.
    pub fn write_to(&self, out: &mut Vec<u8>)
        ensures
            final(out)@ == old(out)@ + chunk_wire(self@),
    {
        proof {
            use_type_invariant(self);
        }
        let ghost start = out@;
        push_u32_be(out, self.data.len() as u32);
        let code = self.chunk_type.bytes();
        out.push(code[0]);
        out.push(code[1]);
        out.push(code[2]);
        out.push(code[3]);
        let mut i: usize = 0;
        while i < self.data.len()
            invariant
                i <= self.data@.len(),
                out@ =~= start + u32_be_bytes(self.data@.len() as u32) + code@
                    + self.data@.subrange(0, i as int),
            decreases self.data@.len() - i,
        {
            out.push(self.data[i]);
            i = i + 1;
        }
        assert(self.data@.subrange(0, self.data@.len() as int) =~= self.data@);
        let crc = self.crc();
        push_u32_be(out, crc);
        assert(final(out)@ =~= old(out)@ + chunk_wire(self@));
    }

    /// Reads a chunk from the start of `bytes`; bytes after it are ignored.
    pub fn try_from(bytes: &[u8]) -> (r: Result<Chunk, ChunkError>)
        ensures
            chunk_result_view(r) == parse_chunk(bytes@),
    {
        let r = Chunk::parse_at(bytes, 0);
        assert(bytes@.subrange(0, bytes@.len() as int) =~= bytes@);
        r
    }

    /// Reads a chunk from `bytes`, starting at `pos`.
    pub fn parse_at(bytes: &[u8], pos: usize) -> (r: Result<Chunk, ChunkError>)
        requires
            pos <= bytes@.len(),
        ensures
            chunk_result_view(r) == parse_chunk(bytes@.subrange(pos as int, bytes@.len() as int)),
    {
        reveal(parse_chunk);
        let ghost b = bytes@.subrange(pos as int, bytes@.len() as int);
        let total = bytes.len();
        let rest = total - pos;
        if rest < 8 {
            return Err(ChunkError::Truncated);
        }
        let length = read_u32_be(bytes, pos);
        assert(bytes@.subrange(pos as int, pos + 4) =~= b.subrange(0, 4));
        let code: [u8; 4] = [bytes[pos + 4], bytes[pos + 5], bytes[pos + 6], bytes[pos + 7]];
        assert(code@ =~= b.subrange(4, 8));
        let chunk_type = match ChunkType::try_from(code) {
            Ok(ct) => ct,
            Err(e) => {
                return Err(ChunkError::BadType(e));
            },
        };
        if !chunk_type.is_valid() {
            return Err(ChunkError::BadType(ChunkTypeError::ReservedBitUnset));
        }
        let n = length as usize;
        if rest - 8 < n || rest - 8 - n < 4 {
            return Err(ChunkError::Truncated);
        }
        let mut data: Vec<u8> = Vec::new();
        let mut i: usize = 0;
        while i < n
            invariant
                i <= n,
                total == bytes@.len(),
                pos + 8 + n <= bytes@.len(),
                data@ =~= bytes@.subrange(pos + 8, pos + 8 + i),
            decreases n - i,
        {
            data.push(bytes[pos + 8 + i]);
            i = i + 1;
        }
        assert(data@ =~= b.subrange(8, 8 + n));
        let stored = read_u32_be(bytes, pos + 8 + n);
        assert(bytes@.subrange(pos + 8 + n, pos + 12 + n) =~= b.subrange(8 + n, 12 + n));
        let chunk = Chunk { chunk_type, data };
        let computed = chunk.crc();
        assert(chunk_type@ + data@ =~= b.subrange(4, 8 + n));
        if computed != stored {
            return Err(ChunkError::ChecksumMismatch);
        }
        Ok(chunk)
    }
}

fn read_u32_be(bytes: &[u8], pos: usize) -> (r: u32)
    requires
        pos + 4 <= bytes@.len(),
    ensures
        r == be_u32(bytes@.subrange(pos as int, pos + 4)),
{
    ((bytes[pos] as u32) << 24u32) | ((bytes[pos + 1] as u32) << 16u32) | ((bytes[pos + 2] as u32)
        << 8u32) | (bytes[pos + 3] as u32)
}

fn push_u32_be(out: &mut Vec<u8>, n: u32)
    ensures
        final(out)@ == old(out)@ + u32_be_bytes(n),
{
    out.push((n >> 24u32) as u8);
    out.push((n >> 16u32) as u8);
    out.push((n >> 8u32) as u8);
    out.push(n as u8);
    assert(final(out)@ =~= old(out)@ + u32_be_bytes(n));
}

} // verus!
