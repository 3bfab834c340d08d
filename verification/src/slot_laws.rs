//! What stands where in a chunk file, when it is synced, and what a recovery
//! makes of it.
use vstd::prelude::*;

use crate::checksum::checksum_of;
use crate::chunk_header::{chunk_header, header_bytes, header_of, ChunkHeader};
use crate::chunk_store::{
    checked_data, count_slots, data_offset, read_outcome_for, recovered_free, recovered_index,
    scanned_header, slot_offset, slots_upto, ChunkTable, HeaderScan, SlotContent,
    ALLOCATED_ARENA_SIZE, DEFAULT_FSYNC_EVERY_N_WRITES, SLOT_DATA_SIZE, SLOT_SIZE,
};
use crate::selection::{picks, picks_next, picks_none};
use crate::status::{ErrorKind, StoreError};

verus! {

/// The number whose bytes are `b[from..to]`, the lowest first.
pub open spec fn little_endian(b: Seq<u8>, from: int, to: int) -> nat
    decreases to - from,
{
    if from >= to {
        0
    } else {
        (b[from] + 256 * little_endian(b, from + 1, to)) as nat
    }
}

proof fn four_bytes(b: Seq<u8>, at: int)
    ensures
        little_endian(b, at, at + 4) == b[at] + 0x100 * b[at + 1] + 0x1_0000 * b[at + 2]
            + 0x100_0000 * b[at + 3],
{
    reveal_with_fuel(little_endian, 5);
}

proof fn eight_bytes(b: Seq<u8>, at: int)
    ensures
        little_endian(b, at, at + 8) == b[at] + 0x100 * b[at + 1] + 0x1_0000 * b[at + 2]
            + 0x100_0000 * b[at + 3] + 0x1_0000_0000 * b[at + 4] + 0x100_0000_0000 * b[at + 5]
            + 0x1_0000_0000_0000 * b[at + 6] + 0x100_0000_0000_0000 * b[at + 7],
{
    reveal_with_fuel(little_endian, 9);
}

proof fn u32_is_its_bytes(x: u32)
    ensures
        x == (x & 0xff) as u8 + 0x100 * (((x >> 8) & 0xff) as u8) + 0x1_0000 * (((x >> 16)
            & 0xff) as u8) + 0x100_0000 * (((x >> 24) & 0xff) as u8),
{
    assert(x == (x & 0xff) as u8 + 0x100 * (((x >> 8) & 0xff) as u8) + 0x1_0000 * (((x >> 16)
        & 0xff) as u8) + 0x100_0000 * (((x >> 24) & 0xff) as u8)) by (bit_vector);
}

proof fn u64_is_its_bytes(x: u64)
    ensures
        x == (x & 0xff) as u8 + 0x100 * (((x >> 8) & 0xff) as u8) + 0x1_0000 * (((x >> 16)
            & 0xff) as u8) + 0x100_0000 * (((x >> 24) & 0xff) as u8) + 0x1_0000_0000 * (((x >> 32)
            & 0xff) as u8) + 0x100_0000_0000 * (((x >> 40) & 0xff) as u8) + 0x1_0000_0000_0000 * (((x
            >> 48) & 0xff) as u8) + 0x100_0000_0000_0000 * (((x >> 56) & 0xff) as u8),
{
    assert(x == (x & 0xff) as u8 + 0x100 * (((x >> 8) & 0xff) as u8) + 0x1_0000 * (((x >> 16)
        & 0xff) as u8) + 0x100_0000 * (((x >> 24) & 0xff) as u8) + 0x1_0000_0000 * (((x >> 32)
        & 0xff) as u8) + 0x100_0000_0000 * (((x >> 40) & 0xff) as u8) + 0x1_0000_0000_0000 * (((x
        >> 48) & 0xff) as u8) + 0x100_0000_0000_0000 * (((x >> 56) & 0xff) as u8))
        by (bit_vector);
}

/// A header takes 24 bytes: four for the magic number, eight for the id, four
/// each for the checksum and the length, all with the lowest byte first, and
/// four zeros.
pub proof fn a_header_has_its_fields_in_place(h: ChunkHeader)
    ensures
        header_bytes(h).len() == 24,
        little_endian(header_bytes(h), 0, 4) == h.magic,
        little_endian(header_bytes(h), 4, 12) == h.id,
        little_endian(header_bytes(h), 12, 16) == h.checksum,
        little_endian(header_bytes(h), 16, 20) == h.data_len,
        forall|i: int| 20 <= i < 24 ==> #[trigger] header_bytes(h)[i] == 0,
{
    let b = header_bytes(h);
    four_bytes(b, 0);
    eight_bytes(b, 4);
    four_bytes(b, 12);
    four_bytes(b, 16);
    u32_is_its_bytes(h.magic);
    u64_is_its_bytes(h.id);
    u32_is_its_bytes(h.checksum);
    u32_is_its_bytes(h.data_len);
}

proof fn u32_from_bytes(a: u8, b: u8, c: u8, d: u8)
    ensures
        ((a as u32) | (b as u32) << 8 | (c as u32) << 16 | (d as u32) << 24) == a + 0x100 * b
            + 0x1_0000 * c + 0x100_0000 * d,
{
    assert(((a as u32) | (b as u32) << 8 | (c as u32) << 16 | (d as u32) << 24) == a + 0x100 * b
        + 0x1_0000 * c + 0x100_0000 * d) by (bit_vector);
}

proof fn u64_from_bytes(a: u8, b: u8, c: u8, d: u8, e: u8, f: u8, g: u8, h: u8)
    ensures
        ((a as u64) | (b as u64) << 8 | (c as u64) << 16 | (d as u64) << 24 | (e as u64) << 32 | (
        f as u64) << 40 | (g as u64) << 48 | (h as u64) << 56) == a + 0x100 * b + 0x1_0000 * c
            + 0x100_0000 * d + 0x1_0000_0000 * e + 0x100_0000_0000 * f + 0x1_0000_0000_0000 * g
            + 0x100_0000_0000_0000 * h,
{
    assert(((a as u64) | (b as u64) << 8 | (c as u64) << 16 | (d as u64) << 24 | (e as u64) << 32 | (
    f as u64) << 40 | (g as u64) << 48 | (h as u64) << 56) == a + 0x100 * b + 0x1_0000 * c
        + 0x100_0000 * d + 0x1_0000_0000 * e + 0x100_0000_0000 * f + 0x1_0000_0000_0000 * g
        + 0x100_0000_0000_0000 * h) by (bit_vector);
}

/// The fields of a header are read from their places, with the lowest byte
/// first.
pub proof fn a_header_is_read_from_its_places(b: Seq<u8>)
    ensures
        header_of(b).magic == little_endian(b, 0, 4),
        header_of(b).id == little_endian(b, 4, 12),
        header_of(b).checksum == little_endian(b, 12, 16),
        header_of(b).data_len == little_endian(b, 16, 20),
{
    four_bytes(b, 0);
    eight_bytes(b, 4);
    four_bytes(b, 12);
    four_bytes(b, 16);
    u32_from_bytes(b[0], b[1], b[2], b[3]);
    u64_from_bytes(b[4], b[5], b[6], b[7], b[8], b[9], b[10], b[11]);
    u32_from_bytes(b[12], b[13], b[14], b[15]);
    u32_from_bytes(b[16], b[17], b[18], b[19]);
}

/// The header of a chunk has the chunk's id, checksum and length behind the
/// magic number.
pub proof fn a_chunk_header_tells_its_chunk(id: u64, checksum: u32, data_len: u32)
    ensures
        chunk_header(id, checksum, data_len).magic == 0x43484B01,
        chunk_header(id, checksum, data_len).id == id,
        chunk_header(id, checksum, data_len).checksum == checksum,
        chunk_header(id, checksum, data_len).data_len == data_len,
{
}

/// Slots of 8 MiB follow one another from the start of the file; each has its
/// header first, and its data takes the rest and no more.
pub proof fn slots_follow_one_another(slot: u64)
    ensures
        slot_offset(0) == 0,
        slot < u64::MAX ==> slot_offset((slot + 1) as u64) == slot_offset(slot) + 8 * 1024 * 1024,
        data_offset(slot) == slot_offset(slot) + 24,
        data_offset(slot) + SLOT_DATA_SIZE == slot_offset(slot) + 8 * 1024 * 1024,
        SLOT_SIZE == 8 * 1024 * 1024,
        ALLOCATED_ARENA_SIZE == 2048,
        DEFAULT_FSYNC_EVERY_N_WRITES == 1,
{
    assert((slot + 1) * SLOT_SIZE == slot * SLOT_SIZE + SLOT_SIZE) by (nonlinear_arith);
}

/// The slots of a new file are its numbers from 0 on, each once.
pub proof fn a_new_file_has_all_its_slots(n: nat)
    requires
        n <= u64::MAX,
    ensures
        slots_upto(n).len() == n,
        forall|i: int| 0 <= i < n ==> #[trigger] slots_upto(n)[i] == i,
{
}

/// A recovery finds every chunk that stands in one of the first `n` slots, in
/// the last slot that holds it, and no other.
pub proof fn a_recovery_finds_chunks_where_they_stand(slots: Seq<SlotContent>, n: int)
    requires
        0 <= n <= slots.len() <= u64::MAX,
    ensures
        forall|id: u64| #[trigger]
            recovered_index(slots, n).contains_key(id) ==> is_last_slot_of(
                slots,
                n,
                id,
                recovered_index(slots, n)[id],
            ),
        forall|i: int|
            0 <= i < n && (#[trigger] slots[i]) is Chunk ==> recovered_index(
                slots,
                n,
            ).contains_key(slots[i]->Chunk_0),
    decreases n,
{
    if n > 0 {
        a_recovery_finds_chunks_where_they_stand(slots, n - 1);
        let before = recovered_index(slots, n - 1);
        let after = recovered_index(slots, n);
        assert forall|id: u64| #[trigger] after.contains_key(id) implies is_last_slot_of(
            slots,
            n,
            id,
            after[id],
        ) by {
            if slots[n - 1] != SlotContent::Chunk(id) {
                assert(before.contains_key(id));
                assert(is_last_slot_of(slots, n - 1, id, before[id]));
            }
        }
        assert forall|i: int|
            0 <= i < n && (#[trigger] slots[i]) is Chunk implies after.contains_key(
            slots[i]->Chunk_0,
        ) by {
            if i < n - 1 {
                assert(before.contains_key(slots[i]->Chunk_0));
            }
        }
    }
}

/// Whether `slot` is the last of the first `n` slots that holds the chunk `id`.
pub open spec fn is_last_slot_of(slots: Seq<SlotContent>, n: int, id: u64, slot: u64) -> bool {
    &&& slot < n
    &&& slots[slot as int] == SlotContent::Chunk(id)
    &&& forall|j: int| slot < j < n ==> #[trigger] slots[j] != SlotContent::Chunk(id)
}

/// After a recovery every slot without a chunk is free, corrupt ones among them,
/// each once and in order; a slot with a chunk is not.
pub proof fn a_recovery_frees_slots_without_chunks(slots: Seq<SlotContent>, n: int)
    requires
        0 <= n <= slots.len() <= u64::MAX,
    ensures
        picks(
            recovered_free(slots, n),
            n,
            |k: int| slots[k] == SlotContent::Free || slots[k] == SlotContent::Corrupt,
            |k: int| k as u64,
        ),
    decreases n,
{
    let wanted = |k: int| slots[k] == SlotContent::Free || slots[k] == SlotContent::Corrupt;
    let value = |k: int| k as u64;
    if n == 0 {
        picks_none(wanted, value);
    } else {
        a_recovery_frees_slots_without_chunks(slots, n - 1);
        picks_next(recovered_free(slots, n - 1), n - 1, wanted, value);
    }
}

/// Slots are counted one by one: one more slot adds one where it is as wanted,
/// and nothing otherwise.
pub proof fn slots_are_counted_one_by_one(
    slots: Seq<SlotContent>,
    slot: SlotContent,
    wanted: spec_fn(SlotContent) -> bool,
)
    ensures
        count_slots(Seq::<SlotContent>::empty(), wanted) == 0,
        count_slots(slots.push(slot), wanted) == count_slots(slots, wanted) + if wanted(slot) {
            1nat
        } else {
            0
        },
{
    reveal(Seq::filter);
    assert(slots.push(slot).drop_last() =~= slots);
    assert(Seq::<SlotContent>::empty().filter(wanted) =~= Seq::<SlotContent>::empty());
}

/// What a header settles. A slot whose header does not begin with the magic
/// number is free. One with more data than fits is corrupt. Any other holds the
/// chunk of its header, in a fast recovery without further ado, and otherwise
/// once as many bytes as the header says have the header's checksum.
pub proof fn a_header_settles_its_slot(h: ChunkHeader, fast: bool, data: Seq<u8>)
    ensures
        scanned_header(h, fast) == HeaderScan::Settled(SlotContent::Free) <==> h.magic
            != 0x43484B01,
        scanned_header(h, fast) == HeaderScan::Settled(SlotContent::Corrupt) <==> h.magic
            == 0x43484B01 && h.data_len > 8 * 1024 * 1024 - 24,
        fast && h.magic == 0x43484B01 && h.data_len <= 8 * 1024 * 1024 - 24 ==> scanned_header(
            h,
            fast,
        ) == HeaderScan::Settled(SlotContent::Chunk(h.id)),
        !fast && h.magic == 0x43484B01 && h.data_len <= 8 * 1024 * 1024 - 24 ==> scanned_header(
            h,
            fast,
        ) == HeaderScan::CheckData(h.data_len as usize),
        checked_data(h, data) == SlotContent::Chunk(h.id) <==> h.checksum == checksum_of(data),
        checked_data(h, data) == SlotContent::Corrupt <==> h.checksum != checksum_of(data),
{
}

/// What was read of a chunk is given out exactly where the header begins with
/// the magic number and its checksum is that of the data: the data itself, with
/// this checksum. Anything else is invalid data.
pub proof fn only_sound_chunks_are_given_out(
    id: u64,
    slot: u64,
    h: ChunkHeader,
    data: Seq<u8>,
    computed: u32,
    r: Result<(Vec<u8>, u32), StoreError>,
)
    requires
        read_outcome_for(id, slot, h, data, computed, r),
    ensures
        r is Ok <==> h.magic == 0x43484B01 && h.checksum == computed,
        r matches Ok(read) ==> read.0@ == data && read.1 == computed,
        r matches Err(e) ==> e.kind == ErrorKind::InvalidData,
{
}

/// A table after `k` writes were counted.
pub open spec fn after_writes(t: ChunkTable, k: nat) -> ChunkTable
    decreases k,
{
    if k == 0 {
        t
    } else {
        after_writes(t, (k - 1) as nat).after_write()
    }
}

/// Where every `n`-th write is to be synced, the writes number `n`, `2 n`, `3 n`
/// and so on are, and no others; where none is to be, none is. Counting writes
/// changes nothing else.
pub proof fn every_nth_write_is_synced(t: ChunkTable, k: nat)
    requires
        t.writes == 0,
        k < u64::MAX,
    ensures
        ({
            let now = after_writes(t, k);
            &&& now.syncs_next_write() <==> {
                &&& t.fsync_every_n_writes is Some
                &&& t.fsync_every_n_writes->Some_0 > 0
                &&& (k + 1) % (t.fsync_every_n_writes->Some_0 as nat) == 0
            }
            &&& now.index == t.index && now.free == t.free && now.total_slots == t.total_slots
            &&& now.fsync_every_n_writes == t.fsync_every_n_writes && now.fsync_on_delete
                == t.fsync_on_delete
            &&& t.fsync_every_n_writes matches Some(n) ==> n > 0 ==> now.writes == k
        }),
    decreases k,
{
    if k > 0 {
        every_nth_write_is_synced(t, (k - 1) as nat);
    }
}

/// Taking the next free slot takes the last of the free ones and leaves the
/// others, and counts as a write.
pub proof fn reserving_takes_one_free_slot(t: ChunkTable)
    requires
        t.free.len() > 0,
    ensures
        t.after_reserving().free.len() == t.free.len() - 1,
        t.after_reserving().free.push(t.free[t.free.len() - 1]) == t.free,
        t.after_reserving().index == t.index,
        t.after_reserving().total_slots == t.total_slots,
        t.after_reserving().writes == t.after_write().writes,
{
    assert(t.after_reserving().free.push(t.free[t.free.len() - 1]) =~= t.free);
}

} // verus!
