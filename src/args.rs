use vstd::prelude::*;
use vstd::string::StringSliceAdditionalSpecFns;

use crate::chunk_type::{is_type_code, reserved_bit_valid, ChunkType, ChunkTypeError};
use crate::png::Png;

verus! {

/// The command given on the command line.
#[derive(Debug)]
pub struct PngArgs {
    pub command: Commands,
}

/// What to do with a PNG.
#[derive(Debug)]
pub enum Commands {
    /// Hide a message in a new chunk of the given type.
    Encode { input: Input, chunk_type: ChunkType, message: String, output_path: Option<String> },
    /// Show the message in the first chunk of the given type, or every chunk
    /// payload that reads as text when no type is given.
    Decode { input: Input, chunk_type: Option<ChunkType> },
    /// Remove the first chunk of the given type.
    Remove { input: Input, chunk_type: ChunkType },
    /// Show every chunk's payload as text.
    Print { input: Input },
}

/// A PNG as read from its source, with the local path it came from, if any.
#[derive(Debug, Clone)]
pub struct Input {
    pub png: Png,
    pub path: Option<String>,
}

/// The bytes of `https`, which marks a source to fetch rather than read from disk.
pub open spec fn https_prefix() -> Seq<u8> {
    seq![104u8, 116u8, 116u8, 112u8, 115u8]
}

impl Input {
    /// A source that starts with `https` is fetched over the network; any
    /// other is a local path.
    pub fn source_is_url(source: &str) -> (r: bool)
        ensures
            r == (source.spec_bytes().len() >= 5 && source.spec_bytes().subrange(0, 5)
                == https_prefix()),
    {
        let b = source.as_bytes();
        if b.len() < 5 {
            return false;
        }
        let r = b[0] == 104 && b[1] == 116 && b[2] == 116 && b[3] == 112 && b[4] == 115;
        if r {
            assert(b@.subrange(0, 5) =~= https_prefix());
        } else {
            assert(b@.subrange(0, 5) != https_prefix()) by {
                if b@.subrange(0, 5) == https_prefix() {
                    assert(b@.subrange(0, 5)[0] == b@[0]);
                    assert(b@.subrange(0, 5)[1] == b@[1]);
                    assert(b@.subrange(0, 5)[2] == b@[2]);
                    assert(b@.subrange(0, 5)[3] == b@[3]);
                    assert(b@.subrange(0, 5)[4] == b@[4]);
                }
            }
        }
        r
    }
}

/// Reads a chunk type given for a new chunk: it must be four ASCII letters
/// with the reserved bit set.
pub fn chunk_type_parser(ct: &str) -> (r: Result<ChunkType, ChunkTypeError>)
    ensures
        r matches Ok(t) ==> t@ == ct.spec_bytes(),
        ct.spec_bytes().len() != 4 <==> r == Err::<ChunkType, ChunkTypeError>(
            ChunkTypeError::WrongLength,
        ),
        (ct.spec_bytes().len() == 4 && !is_type_code(ct.spec_bytes())) <==> r == Err::<
            ChunkType,
            ChunkTypeError,
        >(ChunkTypeError::NotAlphabetic),
        (is_type_code(ct.spec_bytes()) && !reserved_bit_valid(ct.spec_bytes())) <==> r == Err::<
            ChunkType,
            ChunkTypeError,
        >(ChunkTypeError::ReservedBitUnset),
        (is_type_code(ct.spec_bytes()) && reserved_bit_valid(ct.spec_bytes())) <==> r is Ok,
{
    let t = ChunkType::from_str(ct)?;
    if !t.is_valid() {
        return Err(ChunkTypeError::ReservedBitUnset);
    }
    Ok(t)
}

} // verus!
