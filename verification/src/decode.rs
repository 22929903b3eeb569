//! The decode command: from the bytes of a chunk file to the chunk.

use crate::chunk::{spec_chunk, Chunk, ChunkView};
use crate::codec::ChunkError;
use vstd::prelude::*;

verus! {

/// The options of the decode command.
#[derive(Debug, Clone)]
pub struct Decode {
    /// The chunk file to read.
    pub input: String,
    /// The file that receives the chunk as JSON.
    pub output: String,
    /// Whether the JSON is written without line breaks and indentation.
    pub compact: bool,
}

/// Decodes the bytes of a chunk file.
pub fn decode_chunk(data: &[u8]) -> (r: Result<Chunk, ChunkError>)
    ensures
        match r {
            Ok(c) => spec_chunk(data@) == Ok::<ChunkView, ChunkError>(c@),
            Err(e) => spec_chunk(data@) == Err::<ChunkView, ChunkError>(e),
        },
{
    Chunk::read(data)
}

} // verus!
