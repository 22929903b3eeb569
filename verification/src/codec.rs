//! The compression dispatcher: from an encoding tag and compressed bytes to
//! the bytes that were compressed.

use std::io::Read;
use vstd::prelude::*;

verus! {

/// How the blocks of a chunk are compressed. The tag on the wire is the
/// variant's position in this list, starting at zero.
#[allow(non_camel_case_types)]
#[derive(Debug, Clone, Copy, PartialEq, Eq, Structural)]
pub enum EncType {
    EncNone,
    EncGZIP,
    EncDumb,
    EncLZ4_64k,
    EncSnappy,
    EncLZ4_256k,
    EncLZ4_1M,
    EncLZ4_4M,
    EncFlate,
    EncZstd,
}

/// Why a chunk could not be decoded.
#[derive(Debug, Clone, Copy, PartialEq, Eq, Structural)]
pub enum ChunkError {
    /// The data ends before a field that must be there.
    ShortRead,
    /// The header's length prefix or its compressed body is not valid.
    BadHeader,
    /// The data section does not start with the magic number.
    Magic,
    /// The format version is not the supported one.
    UnknownVersion,
    /// The encoding tag is unknown, or names a codec that is not implemented.
    UnsupportedEncoding(u8),
    /// A block reaches past the start of the block-meta table.
    TruncatedBlock,
    /// The codec named by the tag rejected a block.
    DecompressFailed(u8),
    /// Entry `.1` of block `.0` could not be decoded.
    EntryDecodeFailed(u64, u64),
}

impl EncType {
    /// The variant with the given wire tag.
    pub open spec fn spec_from_u8(tag: u8) -> Option<EncType> {
        if tag == 0 {
            Some(EncType::EncNone)
        } else if tag == 1 {
            Some(EncType::EncGZIP)
        } else if tag == 2 {
            Some(EncType::EncDumb)
        } else if tag == 3 {
            Some(EncType::EncLZ4_64k)
        } else if tag == 4 {
            Some(EncType::EncSnappy)
        } else if tag == 5 {
            Some(EncType::EncLZ4_256k)
        } else if tag == 6 {
            Some(EncType::EncLZ4_1M)
        } else if tag == 7 {
            Some(EncType::EncLZ4_4M)
        } else if tag == 8 {
            Some(EncType::EncFlate)
        } else if tag == 9 {
            Some(EncType::EncZstd)
        } else {
            None
        }
    }

    /// The wire tag of this variant.
    pub open spec fn spec_tag(self) -> u8 {
        match self {
            EncType::EncNone => 0,
            EncType::EncGZIP => 1,
            EncType::EncDumb => 2,
            EncType::EncLZ4_64k => 3,
            EncType::EncSnappy => 4,
            EncType::EncLZ4_256k => 5,
            EncType::EncLZ4_1M => 6,
            EncType::EncLZ4_4M => 7,
            EncType::EncFlate => 8,
            EncType::EncZstd => 9,
        }
    }

    /// Whether a decoder exists for this encoding.
    pub open spec fn spec_is_supported(self) -> bool {
        self == EncType::EncGZIP || self == EncType::EncSnappy || self == EncType::EncZstd
    }

    /// Looks a wire tag up.
    pub fn from_u8(tag: u8) -> (r: Option<EncType>)
        ensures
            r == Self::spec_from_u8(tag),
    {
        match tag {
            0 => Some(EncType::EncNone),
            1 => Some(EncType::EncGZIP),
            2 => Some(EncType::EncDumb),
            3 => Some(EncType::EncLZ4_64k),
            4 => Some(EncType::EncSnappy),
            5 => Some(EncType::EncLZ4_256k),
            6 => Some(EncType::EncLZ4_1M),
            7 => Some(EncType::EncLZ4_4M),
            8 => Some(EncType::EncFlate),
            9 => Some(EncType::EncZstd),
            _ => None,
        }
    }

    /// The wire tag of this variant.
    pub fn tag(&self) -> (r: u8)
        ensures
            r == self.spec_tag(),
            Self::spec_from_u8(r) == Some(*self),
    {
        match self {
            EncType::EncNone => 0,
            EncType::EncGZIP => 1,
            EncType::EncDumb => 2,
            EncType::EncLZ4_64k => 3,
            EncType::EncSnappy => 4,
            EncType::EncLZ4_256k => 5,
            EncType::EncLZ4_1M => 6,
            EncType::EncLZ4_4M => 7,
            EncType::EncFlate => 8,
            EncType::EncZstd => 9,
        }
    }
}

/// What gzip decoding makes of `src`: the content of its first member, or
/// nothing where `src` is not a gzip stream.
pub uninterp spec fn gzip_decoded(src: Seq<u8>) -> Option<Seq<u8>>;

/// What decoding the Snappy frame format makes of `src`, or nothing where
/// `src` is not such a stream.
pub uninterp spec fn snappy_frame_decoded(src: Seq<u8>) -> Option<Seq<u8>>;

/// What zstd decoding makes of `src`, or nothing where `src` is not a zstd
/// stream.
pub uninterp spec fn zstd_decoded(src: Seq<u8>) -> Option<Seq<u8>>;

/// `flate2::read::GzDecoder` over `src`, read to its end. The output depends
/// on the bytes of `src` alone; a stream that the decoder rejects gives
/// nothing.
#[verifier::external_body]
fn gunzip(src: &[u8]) -> (r: Option<Vec<u8>>)
    ensures
        match r {
            Some(out) => gzip_decoded(src@) == Some(out@),
            None => gzip_decoded(src@) is None,
        },
{
    let mut decoder = flate2::read::GzDecoder::new(src);
    let mut out = Vec::new();
    match decoder.read_to_end(&mut out) {
        Ok(_) => Some(out),
        Err(_) => None,
    }
}

/// `snap::read::FrameDecoder` over `src`, read to its end. The output depends
/// on the bytes of `src` alone; a stream that the decoder rejects gives
/// nothing.
#[verifier::external_body]
pub(crate) fn snappy_frame_decode(src: &[u8]) -> (r: Option<Vec<u8>>)
    ensures
        match r {
            Some(out) => snappy_frame_decoded(src@) == Some(out@),
            None => snappy_frame_decoded(src@) is None,
        },
{
    let mut decoder = snap::read::FrameDecoder::new(src);
    let mut out = Vec::new();
    match decoder.read_to_end(&mut out) {
        Ok(_) => Some(out),
        Err(_) => None,
    }
}

/// `zstd::Decoder` over `src`, read to its end. The output depends on the
/// bytes of `src` alone; a stream that the decoder rejects, or a decoder that
/// cannot be set up, gives nothing.
#[verifier::external_body]
fn unzstd(src: &[u8]) -> (r: Option<Vec<u8>>)
    ensures
        match r {
            Some(out) => zstd_decoded(src@) == Some(out@),
            None => zstd_decoded(src@) is None,
        },
{
    let mut out = Vec::new();
    match zstd::Decoder::new(src) {
        Ok(mut decoder) => match decoder.read_to_end(&mut out) {
            Ok(_) => Some(out),
            Err(_) => None,
        },
        Err(_) => None,
    }
}

/// The outcome of the dispatcher, given what each codec makes of `src`.
pub open spec fn inflate_outcome(enc: EncType, decoded: Option<Seq<u8>>) -> Result<
    Seq<u8>,
    ChunkError,
> {
    if !enc.spec_is_supported() {
        Err(ChunkError::UnsupportedEncoding(enc.spec_tag()))
    } else {
        match decoded {
            Some(bytes) => Ok(bytes),
            None => Err(ChunkError::DecompressFailed(enc.spec_tag())),
        }
    }
}

/// What the codec named by `enc` makes of `src`.
pub open spec fn codec_decoded(enc: EncType, src: Seq<u8>) -> Option<Seq<u8>> {
    match enc {
        EncType::EncGZIP => gzip_decoded(src),
        EncType::EncSnappy => snappy_frame_decoded(src),
        EncType::EncZstd => zstd_decoded(src),
        _ => None,
    }
}

/// The bytes that `src` holds under encoding `enc`.
pub open spec fn spec_inflate(enc: EncType, src: Seq<u8>) -> Result<Seq<u8>, ChunkError> {
    inflate_outcome(enc, codec_decoded(enc, src))
}

/// The bytes that an optional buffer holds.
pub open spec fn option_bytes(decoded: Option<Vec<u8>>) -> Option<Seq<u8>> {
    match decoded {
        Some(d) => Some(d@),
        None => None,
    }
}

/// Turns a codec's answer into the dispatcher's result: the bytes, or the
/// error that names the encoding.
pub fn inflate_result(enc: EncType, decoded: Option<Vec<u8>>) -> (r: Result<Vec<u8>, ChunkError>)
    ensures
        match r {
            Ok(out) => inflate_outcome(enc, option_bytes(decoded)) == Ok::<Seq<u8>, ChunkError>(
                out@,
            ),
            Err(e) => inflate_outcome(enc, option_bytes(decoded)) == Err::<Seq<u8>, ChunkError>(e),
        },
{
    let supported = match enc {
        EncType::EncGZIP | EncType::EncSnappy | EncType::EncZstd => true,
        _ => false,
    };
    if !supported {
        return Err(ChunkError::UnsupportedEncoding(enc.tag()));
    }
    match decoded {
        Some(out) => Ok(out),
        None => Err(ChunkError::DecompressFailed(enc.tag())),
    }
}

/// Decompresses `src` with the codec that `enc` names.
pub fn inflate(src: &[u8], enc: EncType) -> (r: Result<Vec<u8>, ChunkError>)
    ensures
        match r {
            Ok(out) => spec_inflate(enc, src@) == Ok::<Seq<u8>, ChunkError>(out@),
            Err(e) => spec_inflate(enc, src@) == Err::<Seq<u8>, ChunkError>(e),
        },
{
    let decoded = match enc {
        EncType::EncGZIP => gunzip(src),
        EncType::EncSnappy => snappy_frame_decode(src),
        EncType::EncZstd => unzstd(src),
        _ => None,
    };
    inflate_result(enc, decoded)
}

} // verus!
