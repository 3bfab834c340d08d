//! The header in front of each chunk on disk.
use vstd::prelude::*;

verus! {

/// The first word of the header of a slot that holds a chunk.
pub const MAGIC: u32 = 0x43484B01;

/// The size of a header: the fields, padded to the alignment of the id.
pub const CHUNK_HEADER_SIZE: usize = 24;

/// What stands in front of a chunk's data.
#[derive(Debug, Clone, Copy, PartialEq, Eq, Structural)]
pub struct ChunkHeader {
    pub magic: u32,
    /// The id of the chunk.
    pub id: u64,
    pub checksum: u32,
    pub data_len: u32,
}

/// The bytes of `x`, the lowest first.
pub open spec fn u32_bytes(x: u32) -> Seq<u8> {
    seq![
        (x & 0xff) as u8,
        ((x >> 8) & 0xff) as u8,
        ((x >> 16) & 0xff) as u8,
        ((x >> 24) & 0xff) as u8,
    ]
}

/// The bytes of `x`, the lowest first.
pub open spec fn u64_bytes(x: u64) -> Seq<u8> {
    seq![
        (x & 0xff) as u8,
        ((x >> 8) & 0xff) as u8,
        ((x >> 16) & 0xff) as u8,
        ((x >> 24) & 0xff) as u8,
        ((x >> 32) & 0xff) as u8,
        ((x >> 40) & 0xff) as u8,
        ((x >> 48) & 0xff) as u8,
        ((x >> 56) & 0xff) as u8,
    ]
}

/// The number with the bytes `b[at..at + 4]`, the lowest first.
pub open spec fn u32_at(b: Seq<u8>, at: int) -> u32 {
    (b[at] as u32) | (b[at + 1] as u32) << 8 | (b[at + 2] as u32) << 16 | (b[at + 3] as u32) << 24
}

/// The number with the bytes `b[at..at + 8]`, the lowest first.
pub open spec fn u64_at(b: Seq<u8>, at: int) -> u64 {
    (b[at] as u64) | (b[at + 1] as u64) << 8 | (b[at + 2] as u64) << 16 | (b[at + 3] as u64) << 24
        | (b[at + 4] as u64) << 32 | (b[at + 5] as u64) << 40 | (b[at + 6] as u64) << 48 | (b[at
        + 7] as u64) << 56
}

/// The bytes of a header: its fields in order, then four zero bytes.
pub open spec fn header_bytes(h: ChunkHeader) -> Seq<u8> {
    u32_bytes(h.magic) + u64_bytes(h.id) + u32_bytes(h.checksum) + u32_bytes(h.data_len)
        + seq![0u8, 0u8, 0u8, 0u8]
}

/// The header with the bytes `b`.
pub open spec fn header_of(b: Seq<u8>) -> ChunkHeader {
    ChunkHeader {
        magic: u32_at(b, 0),
        id: u64_at(b, 4),
        checksum: u32_at(b, 12),
        data_len: u32_at(b, 16),
    }
}

/// The header of a chunk.
pub open spec fn chunk_header(id: u64, checksum: u32, data_len: u32) -> ChunkHeader {
    ChunkHeader { magic: MAGIC, id, checksum, data_len }
}

proof fn u32_survives(x: u32)
    ensures
        u32_at(u32_bytes(x), 0) == x,
{
    assert(((x & 0xff) as u8 as u32) | (((x >> 8) & 0xff) as u8 as u32) << 8 | (((x >> 16)
        & 0xff) as u8 as u32) << 16 | (((x >> 24) & 0xff) as u8 as u32) << 24 == x) by (bit_vector);
}

proof fn u64_survives(x: u64)
    ensures
        u64_at(u64_bytes(x), 0) == x,
{
    assert(((x & 0xff) as u8 as u64) | (((x >> 8) & 0xff) as u8 as u64) << 8 | (((x >> 16)
        & 0xff) as u8 as u64) << 16 | (((x >> 24) & 0xff) as u8 as u64) << 24 | (((x >> 32)
        & 0xff) as u8 as u64) << 32 | (((x >> 40) & 0xff) as u8 as u64) << 40 | (((x >> 48)
        & 0xff) as u8 as u64) << 48 | (((x >> 56) & 0xff) as u8 as u64) << 56 == x)
        by (bit_vector);
}

/// A header that was written out reads back as it was.
pub proof fn header_survives(h: ChunkHeader)
    ensures
        header_bytes(h).len() == CHUNK_HEADER_SIZE,
        header_of(header_bytes(h)) == h,
{
    let b = header_bytes(h);
    u32_survives(h.magic);
    u64_survives(h.id);
    u32_survives(h.checksum);
    u32_survives(h.data_len);
    let magic = u32_bytes(h.magic);
    let id = u64_bytes(h.id);
    let checksum = u32_bytes(h.checksum);
    let data_len = u32_bytes(h.data_len);
    assert(b.subrange(0, 4) =~= magic);
    assert(b.subrange(4, 12) =~= id);
    assert(b.subrange(12, 16) =~= checksum);
    assert(b.subrange(16, 20) =~= data_len);
    assert forall|i: int| 0 <= i < 4 implies b[i] == #[trigger] magic[i] by {
        assert(b.subrange(0, 4)[i] == b[i]);
    }
    assert forall|i: int| 0 <= i < 8 implies b[4 + i] == #[trigger] id[i] by {
        assert(b.subrange(4, 12)[i] == b[4 + i]);
    }
    assert forall|i: int| 0 <= i < 4 implies b[12 + i] == #[trigger] checksum[i] by {
        assert(b.subrange(12, 16)[i] == b[12 + i]);
    }
    assert forall|i: int| 0 <= i < 4 implies b[16 + i] == #[trigger] data_len[i] by {
        assert(b.subrange(16, 20)[i] == b[16 + i]);
    }
}

/// A header of zeros is no chunk's header.
pub proof fn zeros_are_no_header(b: Seq<u8>)
    requires
        b.len() == CHUNK_HEADER_SIZE,
        forall|i: int| 0 <= i < b.len() ==> b[i] == 0,
    ensures
        header_of(b).magic != MAGIC,
{
    assert(0u32 | 0u32 << 8 | 0u32 << 16 | 0u32 << 24 == 0u32) by (bit_vector);
}

impl ChunkHeader {
    /// The header of a chunk.
    pub fn new(id: u64, checksum: u32, data_len: u32) -> (r: Self)
        ensures
            r == chunk_header(id, checksum, data_len),
    {
        ChunkHeader { magic: MAGIC, id, checksum, data_len }
    }

    /// The header as it is written to disk.
    pub fn to_bytes(&self) -> (r: [u8; CHUNK_HEADER_SIZE])
        ensures
            r@ == header_bytes(*self),
    {
        let m: u32 = self.magic;
        let i: u64 = self.id;
        let c: u32 = self.checksum;
        let l: u32 = self.data_len;
        let r: [u8; CHUNK_HEADER_SIZE] = [
            (m & 0xff) as u8,
            ((m >> 8) & 0xff) as u8,
            ((m >> 16) & 0xff) as u8,
            ((m >> 24) & 0xff) as u8,
            (i & 0xff) as u8,
            ((i >> 8) & 0xff) as u8,
            ((i >> 16) & 0xff) as u8,
            ((i >> 24) & 0xff) as u8,
            ((i >> 32) & 0xff) as u8,
            ((i >> 40) & 0xff) as u8,
            ((i >> 48) & 0xff) as u8,
            ((i >> 56) & 0xff) as u8,
            (c & 0xff) as u8,
            ((c >> 8) & 0xff) as u8,
            ((c >> 16) & 0xff) as u8,
            ((c >> 24) & 0xff) as u8,
            (l & 0xff) as u8,
            ((l >> 8) & 0xff) as u8,
            ((l >> 16) & 0xff) as u8,
            ((l >> 24) & 0xff) as u8,
            0,
            0,
            0,
            0,
        ];
        assert(r@ =~= header_bytes(*self));
        r
    }

    /// The header that stands in `buf`.
    pub fn from_bytes(buf: &[u8; CHUNK_HEADER_SIZE]) -> (r: Self)
        ensures
            r == header_of(buf@),
    {
        let magic: u32 = (buf[0] as u32) | (buf[1] as u32) << 8 | (buf[2] as u32) << 16
            | (buf[3] as u32) << 24;
        let id: u64 = (buf[4] as u64) | (buf[5] as u64) << 8 | (buf[6] as u64) << 16
            | (buf[7] as u64) << 24 | (buf[8] as u64) << 32 | (buf[9] as u64) << 40
            | (buf[10] as u64) << 48 | (buf[11] as u64) << 56;
        let checksum: u32 = (buf[12] as u32) | (buf[13] as u32) << 8 | (buf[14] as u32) << 16
            | (buf[15] as u32) << 24;
        let data_len: u32 = (buf[16] as u32) | (buf[17] as u32) << 8 | (buf[18] as u32) << 16
            | (buf[19] as u32) << 24;
        ChunkHeader { magic, id, checksum, data_len }
    }
}

} // verus!
