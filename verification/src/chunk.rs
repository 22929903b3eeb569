//! The chunk file format: header framing, the block-meta table, and blocks of
//! varint-framed log entries.

use crate::codec::{inflate, spec_inflate, snappy_frame_decode, snappy_frame_decoded, ChunkError, EncType};
use crate::varint::{
    lemma_uvarint_advances, read_ivarint, read_u32_be, read_u32_le, read_u64_be, read_uvarint,
    spec_ivarint, spec_u32_be, spec_u32_le, spec_u64_be, spec_uvarint,
};
use vstd::prelude::*;
use vstd::slice::{slice_subrange, slice_to_vec};

verus! {

/// The number that opens the data section, stored big-endian.
pub const CHUNK_MAGIC: u32 = 0x012E_E56A;

/// The only format version that is decoded.
pub const CHUNK_VERSION: u8 = 3;

/// One log line with its timestamp in nanoseconds since the Unix epoch.
#[derive(Debug, Clone)]
pub struct UnorderedBlockEntry {
    pub time_ns: i64,
    pub line: Vec<u8>,
}

/// The mathematical content of an entry.
pub struct EntryView {
    pub time_ns: i64,
    pub line: Seq<u8>,
}

impl View for UnorderedBlockEntry {
    type V = EntryView;

    open spec fn view(&self) -> EntryView {
        EntryView { time_ns: self.time_ns, line: self.line@ }
    }
}

/// The views of a sequence of entries.
pub open spec fn entries_view(es: Seq<UnorderedBlockEntry>) -> Seq<EntryView> {
    Seq::new(es.len(), |i: int| es[i]@)
}

/// The entries of one decompressed block, in file order.
#[derive(Debug, Clone)]
pub struct UnorderedBlock {
    pub entries: Vec<UnorderedBlockEntry>,
}

impl View for UnorderedBlock {
    type V = Seq<EntryView>;

    open spec fn view(&self) -> Seq<EntryView> {
        entries_view(self.entries@)
    }
}

/// The views of a sequence of blocks.
pub open spec fn blocks_view(bs: Seq<UnorderedBlock>) -> Seq<Seq<EntryView>> {
    Seq::new(bs.len(), |i: int| bs[i]@)
}

/// Where a block lies in the data section and what it holds.
#[derive(Debug, Clone, Copy, PartialEq, Eq, Structural)]
pub struct BlockMeta {
    pub num_entries: u64,
    pub mint_ns: i64,
    pub maxt_ns: i64,
    pub offset: u64,
    pub uncompressed_size: u64,
    pub compressed_size: u64,
}

/// The block-meta table at the end of the data section.
#[derive(Debug, Clone)]
pub struct Meta {
    pub num_blocks: u64,
    pub block_metas: Vec<BlockMeta>,
    pub block_crc: u32,
}

/// The mathematical content of a block-meta table.
pub struct MetaView {
    pub num_blocks: u64,
    pub block_metas: Seq<BlockMeta>,
    pub block_crc: u32,
}

impl View for Meta {
    type V = MetaView;

    open spec fn view(&self) -> MetaView {
        MetaView {
            num_blocks: self.num_blocks,
            block_metas: self.block_metas@,
            block_crc: self.block_crc,
        }
    }
}

/// The data section of a chunk: its encoding, its blocks and their table.
#[derive(Debug, Clone)]
pub struct ChunkData {
    pub ty: EncType,
    pub blocks: Vec<UnorderedBlock>,
    pub meta: Meta,
}

/// The mathematical content of a data section.
pub struct ChunkDataView {
    pub ty: EncType,
    pub blocks: Seq<Seq<EntryView>>,
    pub meta: MetaView,
}

impl View for ChunkData {
    type V = ChunkDataView;

    open spec fn view(&self) -> ChunkDataView {
        ChunkDataView { ty: self.ty, blocks: blocks_view(self.blocks@), meta: self.meta@ }
    }
}

/// A whole chunk: the header as the JSON text that the file carries, and the
/// data section.
#[derive(Debug, Clone)]
pub struct Chunk {
    pub header_json: Vec<u8>,
    pub data: ChunkData,
}

/// The mathematical content of a chunk.
pub struct ChunkView {
    pub header_json: Seq<u8>,
    pub data: ChunkDataView,
}

impl View for Chunk {
    type V = ChunkView;

    open spec fn view(&self) -> ChunkView {
        ChunkView { header_json: self.header_json@, data: self.data@ }
    }
}

/// The entry at `pos`: a signed varint timestamp, an unsigned varint length,
/// and that many bytes of line. Gives the entry and the position after it.
pub open spec fn spec_entry(s: Seq<u8>, pos: int) -> Option<(EntryView, int)> {
    match spec_ivarint(s, pos) {
        None => None,
        Some((ts, end1)) => match spec_uvarint(s, end1) {
            None => None,
            Some((sz, end2)) => if end2 + sz <= s.len() {
                Some((EntryView { time_ns: ts, line: s.subrange(end2, end2 + sz) }, end2 + sz))
            } else {
                None
            },
        },
    }
}

/// The first `n` entries of `s`, tightly packed from position 0, with the
/// position after them; or the index of the first entry that cannot be read.
pub open spec fn spec_entries(s: Seq<u8>, n: int) -> Result<(Seq<EntryView>, int), int>
    decreases n,
{
    if n <= 0 {
        Ok((Seq::empty(), 0))
    } else {
        match spec_entries(s, n - 1) {
            Err(j) => Err(j),
            Ok((es, p)) => match spec_entry(s, p) {
                Some((e, end2)) => Ok((es.push(e), end2)),
                None => Err(n - 1),
            },
        }
    }
}

/// A block of `n` entries decoded from `raw`; the error names the block and
/// the entry.
pub open spec fn spec_block(raw: Seq<u8>, n: u64, block_index: u64) -> Result<
    Seq<EntryView>,
    ChunkError,
> {
    match spec_entries(raw, n as int) {
        Ok((es, _)) => Ok(es),
        Err(j) => Err(ChunkError::EntryDecodeFailed(block_index, j as u64)),
    }
}

/// A compressed block: decompressed under `enc`, then decoded as `n` entries.
pub open spec fn spec_decompress(enc: EncType, src: Seq<u8>, n: u64, block_index: u64) -> Result<
    Seq<EntryView>,
    ChunkError,
> {
    match spec_inflate(enc, src) {
        Err(e) => Err(e),
        Ok(raw) => spec_block(raw, n, block_index),
    }
}

/// The block-meta record at `pos`: six varints, the two timestamps signed.
pub open spec fn spec_block_meta(s: Seq<u8>, pos: int) -> Option<(BlockMeta, int)> {
    match spec_uvarint(s, pos) {
        None => None,
        Some((num_entries, end1)) => match spec_ivarint(s, end1) {
            None => None,
            Some((mint_ns, end2)) => match spec_ivarint(s, end2) {
                None => None,
                Some((maxt_ns, end3)) => match spec_uvarint(s, end3) {
                    None => None,
                    Some((offset, end4)) => match spec_uvarint(s, end4) {
                        None => None,
                        Some((uncompressed_size, end5)) => match spec_uvarint(s, end5) {
                            None => None,
                            Some((compressed_size, end6)) => Some(
                                (
                                    BlockMeta {
                                        num_entries,
                                        mint_ns,
                                        maxt_ns,
                                        offset,
                                        uncompressed_size,
                                        compressed_size,
                                    },
                                    end6,
                                ),
                            ),
                        },
                    },
                },
            },
        },
    }
}

/// `n` block-meta records packed from `pos` on, with the position after them.
pub open spec fn spec_block_metas(s: Seq<u8>, pos: int, n: int) -> Option<(Seq<BlockMeta>, int)>
    decreases n,
{
    if n <= 0 {
        Some((Seq::empty(), pos))
    } else {
        match spec_block_metas(s, pos, n - 1) {
            None => None,
            Some((ms, p)) => match spec_block_meta(s, p) {
                None => None,
                Some((m, end2)) => Some((ms.push(m), end2)),
            },
        }
    }
}

/// The block-meta table at `pos`: a varint count, that many records, and a
/// little-endian checksum. Gives the table and the position after it.
pub open spec fn spec_meta(s: Seq<u8>, pos: int) -> Option<(MetaView, int)> {
    match spec_uvarint(s, pos) {
        None => None,
        Some((n, end1)) => match spec_block_metas(s, end1, n as int) {
            None => None,
            Some((ms, end2)) => match spec_u32_le(s, end2) {
                None => None,
                Some(crc) => Some(
                    (MetaView { num_blocks: n, block_metas: ms, block_crc: crc }, end2 + 4),
                ),
            },
        },
    }
}

/// The block that `m` describes, in a data section that starts at `base` and
/// whose table starts `limit` bytes later.
pub open spec fn spec_one_block(
    s: Seq<u8>,
    base: int,
    limit: int,
    enc: EncType,
    m: BlockMeta,
    block_index: u64,
) -> Result<Seq<EntryView>, ChunkError> {
    if m.offset + m.compressed_size > limit {
        Err(ChunkError::TruncatedBlock)
    } else {
        spec_decompress(
            enc,
            s.subrange(base + m.offset, base + m.offset + m.compressed_size),
            m.num_entries,
            block_index,
        )
    }
}

/// The first `n` blocks of the table `metas`, or the error of the first block
/// that fails.
pub open spec fn spec_blocks(
    s: Seq<u8>,
    base: int,
    limit: int,
    enc: EncType,
    metas: Seq<BlockMeta>,
    n: int,
) -> Result<Seq<Seq<EntryView>>, ChunkError>
    decreases n,
{
    if n <= 0 {
        Ok(Seq::empty())
    } else {
        match spec_blocks(s, base, limit, enc, metas, n - 1) {
            Err(e) => Err(e),
            Ok(bs) => match spec_one_block(s, base, limit, enc, metas[n - 1], (n - 1) as u64) {
                Err(e) => Err(e),
                Ok(b) => Ok(bs.push(b)),
            },
        }
    }
}

/// The encoding tag and what follows the magic number at `base`.
pub open spec fn spec_preamble(s: Seq<u8>, base: int) -> Result<EncType, ChunkError> {
    match spec_u32_be(s, base) {
        None => Err(ChunkError::ShortRead),
        Some(magic) => if magic != CHUNK_MAGIC {
            Err(ChunkError::Magic)
        } else if base + 4 >= s.len() {
            Err(ChunkError::ShortRead)
        } else if s[base + 4] != CHUNK_VERSION {
            Err(ChunkError::UnknownVersion)
        } else if base + 5 >= s.len() {
            Err(ChunkError::ShortRead)
        } else {
            match EncType::spec_from_u8(s[base + 5]) {
                None => Err(ChunkError::UnsupportedEncoding(s[base + 5])),
                Some(enc) => Ok(enc),
            }
        },
    }
}

/// The data section that begins at `start` and runs to the end of `s`: a
/// four-byte length that is skipped, the magic number, version and encoding
/// tag, the blocks, the block-meta table, and in the last eight bytes the
/// table's offset from the magic number.
pub open spec fn spec_chunk_data(s: Seq<u8>, start: int) -> Result<ChunkDataView, ChunkError> {
    let base = start + 4;
    if start < 0 || base > s.len() {
        Err(ChunkError::ShortRead)
    } else {
        match spec_u64_be(s, s.len() - 8) {
            None => Err(ChunkError::ShortRead),
            Some(meta_offset) => match spec_meta(s, base + meta_offset) {
                None => Err(ChunkError::ShortRead),
                Some((meta, _)) => match spec_preamble(s, base) {
                    Err(e) => Err(e),
                    Ok(enc) => match spec_blocks(
                        s,
                        base,
                        meta_offset as int,
                        enc,
                        meta.block_metas,
                        meta.num_blocks as int,
                    ) {
                        Err(e) => Err(e),
                        Ok(blocks) => Ok(ChunkDataView { ty: enc, blocks, meta }),
                    },
                },
            },
        }
    }
}

/// The decompressed header of a chunk and the position where its data section
/// starts: a big-endian length that counts itself, then the header's JSON
/// text in the Snappy frame format.
pub open spec fn spec_header(s: Seq<u8>) -> Result<(Seq<u8>, int), ChunkError> {
    match spec_u32_be(s, 0) {
        None => Err(ChunkError::ShortRead),
        Some(total) => if total < 4 {
            Err(ChunkError::BadHeader)
        } else if total > s.len() {
            Err(ChunkError::ShortRead)
        } else {
            match snappy_frame_decoded(s.subrange(4, total as int)) {
                None => Err(ChunkError::BadHeader),
                Some(json) => Ok((json, total as int)),
            }
        },
    }
}

/// A whole chunk file.
pub open spec fn spec_chunk(s: Seq<u8>) -> Result<ChunkView, ChunkError> {
    match spec_header(s) {
        Err(e) => Err(e),
        Ok((json, start)) => match spec_chunk_data(s, start) {
            Err(e) => Err(e),
            Ok(data) => Ok(ChunkView { header_json: json, data }),
        },
    }
}

/// Once an entry fails, asking for more entries fails at the same entry.
pub proof fn lemma_entries_error_persists(s: Seq<u8>, k: int, n: int)
    requires
        k <= n,
        spec_entries(s, k) is Err,
    ensures
        spec_entries(s, n) == spec_entries(s, k),
    decreases n - k,
{
    if k < n {
        lemma_entries_error_persists(s, k, n - 1);
    }
}

/// Once a record of the table fails, asking for more records fails.
pub proof fn lemma_block_metas_error_persists(s: Seq<u8>, pos: int, k: int, n: int)
    requires
        k <= n,
        spec_block_metas(s, pos, k) is None,
    ensures
        spec_block_metas(s, pos, n) is None,
    decreases n - k,
{
    if k < n {
        lemma_block_metas_error_persists(s, pos, k, n - 1);
    }
}

/// Once a block fails, asking for more blocks fails with the same error.
pub proof fn lemma_blocks_error_persists(
    s: Seq<u8>,
    base: int,
    limit: int,
    enc: EncType,
    metas: Seq<BlockMeta>,
    k: int,
    n: int,
)
    requires
        k <= n,
        spec_blocks(s, base, limit, enc, metas, k) is Err,
    ensures
        spec_blocks(s, base, limit, enc, metas, n) == spec_blocks(s, base, limit, enc, metas, k),
    decreases n - k,
{
    if k < n {
        lemma_blocks_error_persists(s, base, limit, enc, metas, k, n - 1);
    }
}

/// Every block that decodes lies before the block-meta table: its offset
/// and its compressed size together do not reach past the table's offset.
pub proof fn lemma_blocks_within_table(
    s: Seq<u8>,
    base: int,
    limit: int,
    enc: EncType,
    metas: Seq<BlockMeta>,
    n: int,
    i: int,
)
    requires
        0 <= i < n,
        spec_blocks(s, base, limit, enc, metas, n) is Ok,
    ensures
        metas[i].offset + metas[i].compressed_size <= limit,
    decreases n,
{
    if i < n - 1 {
        lemma_blocks_within_table(s, base, limit, enc, metas, n - 1, i);
    }
}

/// A table that decodes holds as many records as it announces.
pub proof fn lemma_block_metas_len(s: Seq<u8>, pos: int, n: int)
    requires
        0 <= n,
        spec_block_metas(s, pos, n) is Some,
    ensures
        spec_block_metas(s, pos, n)->Some_0.0.len() == n,
    decreases n,
{
    if n > 0 {
        lemma_block_metas_len(s, pos, n - 1);
    }
}

/// Blocks that decode are as many as were asked for, and each holds as many
/// entries as its record announces.
pub proof fn lemma_blocks_len(
    s: Seq<u8>,
    base: int,
    limit: int,
    enc: EncType,
    metas: Seq<BlockMeta>,
    n: int,
)
    requires
        0 <= n,
        spec_blocks(s, base, limit, enc, metas, n) is Ok,
    ensures
        spec_blocks(s, base, limit, enc, metas, n)->Ok_0.len() == n,
        forall|i: int|
            0 <= i < n ==> (#[trigger] spec_blocks(s, base, limit, enc, metas, n)->Ok_0[i]).len()
                == metas[i].num_entries,
    decreases n,
{
    if n > 0 {
        lemma_blocks_len(s, base, limit, enc, metas, n - 1);
        let m = metas[n - 1];
        let src = s.subrange(base + m.offset, base + m.offset + m.compressed_size);
        let raw = spec_inflate(enc, src)->Ok_0;
        lemma_entries_len(raw, m.num_entries as int);
    }
}

/// Entries that decode are as many as were asked for.
pub proof fn lemma_entries_len(s: Seq<u8>, n: int)
    requires
        0 <= n,
        spec_entries(s, n) is Ok,
    ensures
        spec_entries(s, n)->Ok_0.0.len() == n,
    decreases n,
{
    if n > 0 {
        lemma_entries_len(s, n - 1);
    }
}

/// In a data section that decodes, the table holds one record for each
/// block, no block reaches past the start of the table, and each block holds
/// the entries that its record announces.
pub proof fn lemma_chunk_data_shape(s: Seq<u8>, start: int)
    requires
        spec_chunk_data(s, start) is Ok,
    ensures
        ({
            let c = spec_chunk_data(s, start)->Ok_0;
            let table = spec_u64_be(s, s.len() - 8)->Some_0;
            &&& c.meta.block_metas.len() == c.meta.num_blocks
            &&& c.blocks.len() == c.meta.num_blocks
            &&& forall|i: int|
                0 <= i < c.blocks.len() ==> {
                    &&& (#[trigger] c.meta.block_metas[i]).offset
                        + c.meta.block_metas[i].compressed_size <= table
                    &&& c.blocks[i].len() == c.meta.block_metas[i].num_entries
                }
        }),
{
    let base = start + 4;
    let table = spec_u64_be(s, s.len() - 8)->Some_0;
    let (meta, _) = spec_meta(s, base + table)->Some_0;
    let enc = spec_preamble(s, base)->Ok_0;
    let n = meta.num_blocks as int;
    let (count, end1) = spec_uvarint(s, base + table)->Some_0;
    lemma_block_metas_len(s, end1, count as int);
    lemma_blocks_len(s, base, table as int, enc, meta.block_metas, n);
    assert forall|i: int| 0 <= i < n implies (#[trigger] meta.block_metas[i]).offset
        + meta.block_metas[i].compressed_size <= table by {
        lemma_blocks_within_table(s, base, table as int, enc, meta.block_metas, n, i);
    }
}

impl UnorderedBlockEntry {
    /// Reads the entry at `pos` and gives the position after it.
    pub fn read(data: &[u8], pos: usize) -> (r: Result<(UnorderedBlockEntry, usize), ChunkError>)
        ensures
            match r {
                Ok((e, p)) => spec_entry(data@, pos as int) == Some((e@, p as int)) && p
                    <= data@.len(),
                Err(e) => spec_entry(data@, pos as int) is None && e == ChunkError::ShortRead,
            },
    {
        let (ts, end1) = match read_ivarint(data, pos) {
            Some(x) => x,
            None => { return Err(ChunkError::ShortRead); },
        };
        proof {
            lemma_uvarint_advances(data@, pos as int);
        }
        let (sz, end2) = match read_uvarint(data, end1) {
            Some(x) => x,
            None => { return Err(ChunkError::ShortRead); },
        };
        proof {
            lemma_uvarint_advances(data@, end1 as int);
        }
        let remaining: usize = data.len() - end2;
        if sz > remaining as u64 {
            return Err(ChunkError::ShortRead);
        }
        let end: usize = end2 + sz as usize;
        let line = slice_to_vec(slice_subrange(data, end2, end));
        Ok((UnorderedBlockEntry { time_ns: ts, line }, end))
    }
}

impl UnorderedBlock {
    /// Reads `n` entries packed from the start of `data`. Bytes after the last
    /// entry are left alone.
    pub fn read(data: &[u8], n: u64, block_index: u64) -> (r: Result<UnorderedBlock, ChunkError>)
        ensures
            match r {
                Ok(b) => spec_block(data@, n, block_index) == Ok::<Seq<EntryView>, ChunkError>(b@),
                Err(e) => spec_block(data@, n, block_index) == Err::<Seq<EntryView>, ChunkError>(e),
            },
    {
        let mut entries: Vec<UnorderedBlockEntry> = Vec::new();
        let mut pos: usize = 0;
        let mut i: u64 = 0;
        assert(entries_view(entries@) =~= Seq::empty());
        while i < n
            invariant
                i <= n,
                pos <= data@.len(),
                spec_entries(data@, i as int) == Ok::<(Seq<EntryView>, int), int>(
                    (entries_view(entries@), pos as int),
                ),
            decreases n - i,
        {
            match UnorderedBlockEntry::read(data, pos) {
                Ok((e, p)) => {
                    assert(entries_view(entries@.push(e)) =~= entries_view(entries@).push(e@));
                    entries.push(e);
                    pos = p;
                    i = i + 1;
                },
                Err(_) => {
                    proof {
                        lemma_entries_error_persists(data@, i as int + 1, n as int);
                    }
                    return Err(ChunkError::EntryDecodeFailed(block_index, i));
                },
            }
        }
        Ok(UnorderedBlock { entries })
    }
}

/// Decompresses one block under `enc_type` and decodes its `num_entries`
/// entries.
pub fn decompress(vec: &[u8], enc_type: &EncType, num_entries: u64, block_index: u64) -> (r: Result<
    UnorderedBlock,
    ChunkError,
>)
    ensures
        match r {
            Ok(b) => spec_decompress(*enc_type, vec@, num_entries, block_index) == Ok::<
                Seq<EntryView>,
                ChunkError,
            >(b@),
            Err(e) => spec_decompress(*enc_type, vec@, num_entries, block_index) == Err::<
                Seq<EntryView>,
                ChunkError,
            >(e),
        },
{
    match inflate(vec, *enc_type) {
        Err(e) => Err(e),
        Ok(raw) => UnorderedBlock::read(raw.as_slice(), num_entries, block_index),
    }
}

impl BlockMeta {
    /// Reads the record at `pos` and gives the position after it.
    pub fn read(data: &[u8], pos: usize) -> (r: Result<(BlockMeta, usize), ChunkError>)
        ensures
            match r {
                Ok((m, p)) => spec_block_meta(data@, pos as int) == Some((m, p as int)) && pos < p
                    <= data@.len(),
                Err(e) => spec_block_meta(data@, pos as int) is None && e == ChunkError::ShortRead,
            },
    {
        let (num_entries, end1) = match read_uvarint(data, pos) {
            Some(x) => x,
            None => { return Err(ChunkError::ShortRead); },
        };
        let (mint_ns, end2) = match read_ivarint(data, end1) {
            Some(x) => x,
            None => { return Err(ChunkError::ShortRead); },
        };
        let (maxt_ns, end3) = match read_ivarint(data, end2) {
            Some(x) => x,
            None => { return Err(ChunkError::ShortRead); },
        };
        let (offset, end4) = match read_uvarint(data, end3) {
            Some(x) => x,
            None => { return Err(ChunkError::ShortRead); },
        };
        let (uncompressed_size, end5) = match read_uvarint(data, end4) {
            Some(x) => x,
            None => { return Err(ChunkError::ShortRead); },
        };
        let (compressed_size, end6) = match read_uvarint(data, end5) {
            Some(x) => x,
            None => { return Err(ChunkError::ShortRead); },
        };
        proof {
            lemma_uvarint_advances(data@, pos as int);
            lemma_uvarint_advances(data@, end1 as int);
            lemma_uvarint_advances(data@, end2 as int);
            lemma_uvarint_advances(data@, end3 as int);
            lemma_uvarint_advances(data@, end4 as int);
            lemma_uvarint_advances(data@, end5 as int);
        }
        Ok(
            (
                BlockMeta {
                    num_entries,
                    mint_ns,
                    maxt_ns,
                    offset,
                    uncompressed_size,
                    compressed_size,
                },
                end6,
            ),
        )
    }
}

impl Meta {
    /// Reads the table at `pos` and gives the position after it.
    #[verifier::loop_isolation(false)]
    pub fn read(data: &[u8], pos: usize) -> (r: Result<(Meta, usize), ChunkError>)
        ensures
            match r {
                Ok((m, p)) => spec_meta(data@, pos as int) == Some((m@, p as int)) && pos < p
                    <= data@.len() && m.block_metas@.len() == m.num_blocks,
                Err(e) => spec_meta(data@, pos as int) is None && e == ChunkError::ShortRead,
            },
    {
        let (num_blocks, start) = match read_uvarint(data, pos) {
            Some(x) => x,
            None => { return Err(ChunkError::ShortRead); },
        };
        proof {
            lemma_uvarint_advances(data@, pos as int);
        }
        let mut block_metas: Vec<BlockMeta> = Vec::new();
        let mut p: usize = start;
        let mut i: u64 = 0;
        while i < num_blocks
            invariant
                i <= num_blocks,
                start <= p <= data@.len(),
                block_metas@.len() == i,
                spec_block_metas(data@, start as int, i as int) == Some(
                    (block_metas@, p as int),
                ),
            decreases num_blocks - i,
        {
            match BlockMeta::read(data, p) {
                Ok((m, next)) => {
                    block_metas.push(m);
                    p = next;
                    i = i + 1;
                },
                Err(_) => {
                    proof {
                        lemma_block_metas_error_persists(
                            data@,
                            start as int,
                            i as int + 1,
                            num_blocks as int,
                        );
                    }
                    return Err(ChunkError::ShortRead);
                },
            }
        }
        let block_crc: u32 = match read_u32_le(data, p) {
            Some(x) => x,
            None => { return Err(ChunkError::ShortRead); },
        };
        let len: usize = data.len();
        assert(p + 4 <= len);
        Ok((Meta { num_blocks, block_metas, block_crc }, p + 4))
    }
}

/// Reads the magic number, the version and the encoding tag at `base`.
pub fn read_preamble(data: &[u8], base: usize) -> (r: Result<EncType, ChunkError>)
    ensures
        r == spec_preamble(data@, base as int),
{
    let magic: u32 = match read_u32_be(data, base) {
        Some(x) => x,
        None => { return Err(ChunkError::ShortRead); },
    };
    if magic != CHUNK_MAGIC {
        return Err(ChunkError::Magic);
    }
    if data.len() - base < 5 {
        return Err(ChunkError::ShortRead);
    }
    if data[base + 4] != CHUNK_VERSION {
        return Err(ChunkError::UnknownVersion);
    }
    if data.len() - base < 6 {
        return Err(ChunkError::ShortRead);
    }
    let tag: u8 = data[base + 5];
    match EncType::from_u8(tag) {
        Some(enc) => Ok(enc),
        None => Err(ChunkError::UnsupportedEncoding(tag)),
    }
}

impl ChunkData {
    /// Decodes the data section that begins at `start` and runs to the end of
    /// `data`.
    #[verifier::loop_isolation(false)]
    pub fn read(data: &[u8], start: usize) -> (r: Result<ChunkData, ChunkError>)
        ensures
            match r {
                Ok(c) => spec_chunk_data(data@, start as int) == Ok::<ChunkDataView, ChunkError>(
                    c@,
                ),
                Err(e) => spec_chunk_data(data@, start as int) == Err::<ChunkDataView, ChunkError>(
                    e,
                ),
            },
    {
        let len: usize = data.len();
        if start > len || len - start < 4 {
            return Err(ChunkError::ShortRead);
        }
        let base: usize = start + 4;
        if len < 8 {
            return Err(ChunkError::ShortRead);
        }
        let meta_offset: u64 = match read_u64_be(data, len - 8) {
            Some(x) => x,
            None => { return Err(ChunkError::ShortRead); },
        };
        if meta_offset > (len - base) as u64 {
            return Err(ChunkError::ShortRead);
        }
        let limit: usize = meta_offset as usize;
        let meta = match Meta::read(data, base + limit) {
            Ok((m, _)) => m,
            Err(e) => { return Err(e); },
        };
        let enc = match read_preamble(data, base) {
            Ok(x) => x,
            Err(e) => { return Err(e); },
        };
        let mut blocks: Vec<UnorderedBlock> = Vec::new();
        let mut i: usize = 0;
        assert(blocks_view(blocks@) =~= Seq::empty());
        while i < meta.block_metas.len()
            invariant
                i <= meta.block_metas@.len(),
                meta.block_metas@.len() == meta.num_blocks,
                base + limit <= data@.len(),
                limit == meta_offset,
                spec_blocks(
                    data@,
                    base as int,
                    limit as int,
                    enc,
                    meta.block_metas@,
                    i as int,
                ) == Ok::<Seq<Seq<EntryView>>, ChunkError>(blocks_view(blocks@)),
            decreases meta.block_metas@.len() - i,
        {
            let m: BlockMeta = meta.block_metas[i];
            let fits = m.offset <= meta_offset && m.compressed_size <= meta_offset - m.offset;
            if !fits {
                proof {
                    lemma_blocks_error_persists(
                        data@,
                        base as int,
                        limit as int,
                        enc,
                        meta.block_metas@,
                        i as int + 1,
                        meta.num_blocks as int,
                    );
                }
                return Err(ChunkError::TruncatedBlock);
            }
            let from: usize = base + m.offset as usize;
            let to: usize = from + m.compressed_size as usize;
            match decompress(slice_subrange(data, from, to), &enc, m.num_entries, i as u64) {
                Ok(b) => {
                    assert(blocks_view(blocks@.push(b)) =~= blocks_view(blocks@).push(b@));
                    blocks.push(b);
                    i = i + 1;
                },
                Err(e) => {
                    proof {
                        lemma_blocks_error_persists(
                            data@,
                            base as int,
                            limit as int,
                            enc,
                            meta.block_metas@,
                            i as int + 1,
                            meta.num_blocks as int,
                        );
                    }
                    return Err(e);
                },
            }
        }
        Ok(ChunkData { ty: enc, blocks, meta })
    }
}

/// Decompresses the body of a chunk header, which is in the Snappy frame
/// format, into the header's JSON text.
pub fn decode_header(body: &[u8]) -> (r: Result<Vec<u8>, ChunkError>)
    ensures
        match r {
            Ok(json) => snappy_frame_decoded(body@) == Some(json@),
            Err(e) => snappy_frame_decoded(body@) is None && e == ChunkError::BadHeader,
        },
{
    match snappy_frame_decode(body) {
        Some(json) => Ok(json),
        None => Err(ChunkError::BadHeader),
    }
}

/// Splits the header off a chunk file and decompresses it: gives the header's
/// JSON text and the position where the data section starts.
pub fn read_header(data: &[u8]) -> (r: Result<(Vec<u8>, usize), ChunkError>)
    ensures
        match r {
            Ok((json, start)) => spec_header(data@) == Ok::<(Seq<u8>, int), ChunkError>(
                (json@, start as int),
            ) && 4 <= start <= data@.len(),
            Err(e) => spec_header(data@) == Err::<(Seq<u8>, int), ChunkError>(e),
        },
{
    let total: u32 = match read_u32_be(data, 0) {
        Some(x) => x,
        None => { return Err(ChunkError::ShortRead); },
    };
    if total < 4 {
        return Err(ChunkError::BadHeader);
    }
    if total as u64 > data.len() as u64 {
        return Err(ChunkError::ShortRead);
    }
    let end: usize = total as usize;
    match decode_header(slice_subrange(data, 4, end)) {
        Ok(json) => Ok((json, end)),
        Err(e) => Err(e),
    }
}

impl Chunk {
    /// Decodes a whole chunk file.
    pub fn read(data: &[u8]) -> (r: Result<Chunk, ChunkError>)
        ensures
            match r {
                Ok(c) => spec_chunk(data@) == Ok::<ChunkView, ChunkError>(c@),
                Err(e) => spec_chunk(data@) == Err::<ChunkView, ChunkError>(e),
            },
    {
        let (header_json, start) = match read_header(data) {
            Ok(x) => x,
            Err(e) => { return Err(e); },
        };
        match ChunkData::read(data, start) {
            Ok(chunk_data) => Ok(Chunk { header_json, data: chunk_data }),
            Err(e) => Err(e),
        }
    }
}

} // verus!
