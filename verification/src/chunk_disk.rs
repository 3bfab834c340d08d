//! What a chunk file holds after chunks were written, deleted and recovered.
use vstd::prelude::*;

use crate::checksum::checksum_of;
use crate::chunk_header::{
    chunk_header, header_bytes, header_of, header_survives, zeros_are_no_header, ChunkHeader,
    CHUNK_HEADER_SIZE, MAGIC,
};
use crate::chunk_store::{
    checked_data, data_offset, read_outcome, recovered_free, recovered_index, scanned_header,
    slot_offset, ChunkTable, HeaderScan, SlotContent, SLOT_DATA_SIZE, SLOT_SIZE,
};
use crate::status::StoreError;

verus! {

/// The file after `bytes` were written at `at`.
pub open spec fn overwrite(disk: Seq<u8>, at: int, bytes: Seq<u8>) -> Seq<u8> {
    Seq::new(
        disk.len(),
        |i: int| if at <= i < at + bytes.len() { bytes[i - at] } else { disk[i] },
    )
}

/// The header of a slot.
pub open spec fn header_in(disk: Seq<u8>, slot: u64) -> ChunkHeader {
    header_of(disk.subrange(slot_offset(slot), slot_offset(slot) + CHUNK_HEADER_SIZE))
}

/// The first `len` bytes of data of a slot.
pub open spec fn data_in(disk: Seq<u8>, slot: u64, len: int) -> Seq<u8> {
    disk.subrange(data_offset(slot), data_offset(slot) + len)
}

/// What a scan of a slot finds.
pub open spec fn content_of(disk: Seq<u8>, slot: u64, fast: bool) -> SlotContent {
    let h = header_in(disk, slot);
    match scanned_header(h, fast) {
        HeaderScan::Settled(content) => content,
        HeaderScan::CheckData(len) => checked_data(h, data_in(disk, slot, len as int)),
    }
}

/// The file after a chunk was written to a slot.
pub open spec fn with_chunk_written(disk: Seq<u8>, slot: u64, id: u64, data: Seq<u8>) -> Seq<u8> {
    overwrite(
        overwrite(
            disk,
            slot_offset(slot),
            header_bytes(chunk_header(id, checksum_of(data), data.len() as u32)),
        ),
        data_offset(slot),
        data,
    )
}

/// The file after the header of a slot was zeroed.
pub open spec fn with_slot_erased(disk: Seq<u8>, slot: u64) -> Seq<u8> {
    overwrite(disk, slot_offset(slot), Seq::new(CHUNK_HEADER_SIZE as nat, |i: int| 0u8))
}

/// Two files agree on a slot.
pub open spec fn same_slot(a: Seq<u8>, b: Seq<u8>, slot: u64) -> bool {
    a.subrange(slot_offset(slot), slot_offset(slot) + SLOT_SIZE) == b.subrange(
        slot_offset(slot),
        slot_offset(slot) + SLOT_SIZE,
    )
}

/// `slot` lies within the file.
pub open spec fn slot_in_file(disk: Seq<u8>, slot: u64) -> bool {
    slot_offset(slot) + SLOT_SIZE <= disk.len()
}

proof fn slots_apart(a: u64, b: u64)
    requires
        a != b,
    ensures
        slot_offset(a) + SLOT_SIZE <= slot_offset(b) || slot_offset(b) + SLOT_SIZE <= slot_offset(a),
{
    if a < b {
        assert(a * SLOT_SIZE + SLOT_SIZE <= b * SLOT_SIZE) by (nonlinear_arith)
            requires
                a + 1 <= b,
        ;
    } else {
        assert(b * SLOT_SIZE + SLOT_SIZE <= a * SLOT_SIZE) by (nonlinear_arith)
            requires
                b + 1 <= a,
        ;
    }
}

/// What a slot holds depends on the bytes of that slot alone.
pub proof fn same_slot_same_content(a: Seq<u8>, b: Seq<u8>, slot: u64, fast: bool)
    requires
        slot_in_file(a, slot),
        slot_in_file(b, slot),
        same_slot(a, b, slot),
    ensures
        header_in(a, slot) == header_in(b, slot),
        forall|len: int|
            0 <= len <= SLOT_DATA_SIZE ==> #[trigger] data_in(a, slot, len) == data_in(b, slot, len),
        content_of(a, slot, fast) == content_of(b, slot, fast),
{
    let start = slot_offset(slot);
    let sa = a.subrange(start, start + SLOT_SIZE);
    let sb = b.subrange(start, start + SLOT_SIZE);
    assert forall|i: int| start <= i < start + SLOT_SIZE implies a[i] == b[i] by {
        assert(sa[i - start] == sb[i - start]);
    }
    assert(a.subrange(start, start + CHUNK_HEADER_SIZE) =~= b.subrange(
        start,
        start + CHUNK_HEADER_SIZE,
    ));
    assert forall|len: int| 0 <= len <= SLOT_DATA_SIZE implies #[trigger] data_in(a, slot, len)
        == data_in(b, slot, len) by {
        assert(data_in(a, slot, len) =~= data_in(b, slot, len));
    }
}

/// A chunk that was written reads back: its slot has its header and its data,
/// the check accepts them and returns the data with its checksum, a scan finds
/// the chunk, and no other slot has changed.
pub proof fn a_written_chunk_reads_back(
    disk: Seq<u8>,
    slot: u64,
    id: u64,
    data: Seq<u8>,
    r: Result<(Vec<u8>, u32), StoreError>,
)
    requires
        slot_in_file(disk, slot),
        data.len() <= SLOT_DATA_SIZE,
        read_outcome(
            id,
            slot,
            header_in(with_chunk_written(disk, slot, id, data), slot),
            data_in(
                with_chunk_written(disk, slot, id, data),
                slot,
                header_in(with_chunk_written(disk, slot, id, data), slot).data_len as int,
            ),
            r,
        ),
    ensures
        r matches Ok((bytes, checksum)) && bytes@ == data && checksum == checksum_of(data),
        header_in(with_chunk_written(disk, slot, id, data), slot) == chunk_header(
            id,
            checksum_of(data),
            data.len() as u32,
        ),
        forall|fast: bool|
            #[trigger] content_of(with_chunk_written(disk, slot, id, data), slot, fast)
                == SlotContent::Chunk(id),
        forall|other: u64|
            other != slot && slot_in_file(disk, other) ==> #[trigger] same_slot(
                disk,
                with_chunk_written(disk, slot, id, data),
                other,
            ),
{
    written_slot(disk, slot, id, data);
    let after = with_chunk_written(disk, slot, id, data);
    assert forall|other: u64| other != slot && slot_in_file(disk, other) implies #[trigger] same_slot(
        disk,
        after,
        other,
    ) by {
        written_elsewhere(disk, slot, id, data, other);
    }
}

proof fn written_slot(disk: Seq<u8>, slot: u64, id: u64, data: Seq<u8>)
    requires
        slot_in_file(disk, slot),
        data.len() <= SLOT_DATA_SIZE,
    ensures
        with_chunk_written(disk, slot, id, data).len() == disk.len(),
        header_in(with_chunk_written(disk, slot, id, data), slot) == chunk_header(
            id,
            checksum_of(data),
            data.len() as u32,
        ),
        data_in(with_chunk_written(disk, slot, id, data), slot, data.len() as int) == data,
        forall|fast: bool|
            #[trigger] content_of(with_chunk_written(disk, slot, id, data), slot, fast)
                == SlotContent::Chunk(id),
{
    let h = chunk_header(id, checksum_of(data), data.len() as u32);
    header_survives(h);
    let after = with_chunk_written(disk, slot, id, data);
    let start = slot_offset(slot);
    assert(after.subrange(start, start + CHUNK_HEADER_SIZE) =~= header_bytes(h));
    assert(data_in(after, slot, data.len() as int) =~= data);
}

proof fn written_elsewhere(disk: Seq<u8>, slot: u64, id: u64, data: Seq<u8>, other: u64)
    requires
        slot_in_file(disk, slot),
        data.len() <= SLOT_DATA_SIZE,
        other != slot,
        slot_in_file(disk, other),
    ensures
        same_slot(disk, with_chunk_written(disk, slot, id, data), other),
{
    let h = chunk_header(id, checksum_of(data), data.len() as u32);
    header_survives(h);
    slots_apart(slot, other);
    let after = with_chunk_written(disk, slot, id, data);
    let start = slot_offset(other);
    assert(disk.subrange(start, start + SLOT_SIZE) =~= after.subrange(start, start + SLOT_SIZE));
}

/// A slot whose header was zeroed is free, and no other slot has changed.
pub proof fn an_erased_slot_is_free(disk: Seq<u8>, slot: u64)
    requires
        slot_in_file(disk, slot),
    ensures
        with_slot_erased(disk, slot).len() == disk.len(),
        forall|fast: bool|
            #[trigger] content_of(with_slot_erased(disk, slot), slot, fast) == SlotContent::Free,
        forall|other: u64|
            other != slot && slot_in_file(disk, other) ==> #[trigger] same_slot(
                disk,
                with_slot_erased(disk, slot),
                other,
            ),
{
    let after = with_slot_erased(disk, slot);
    let start = slot_offset(slot);
    zeros_are_no_header(after.subrange(start, start + CHUNK_HEADER_SIZE));
    assert forall|other: u64| other != slot && slot_in_file(disk, other) implies #[trigger] same_slot(
        disk,
        after,
        other,
    ) by {
        slots_apart(slot, other);
        let at = slot_offset(other);
        assert(disk.subrange(at, at + SLOT_SIZE) =~= after.subrange(at, at + SLOT_SIZE));
    }
}

/// The file holds in each slot the chunk that the table says, and no chunk
/// elsewhere; a free slot is free once and holds no chunk.
pub open spec fn mirrors(t: ChunkTable, disk: Seq<u8>, fast: bool) -> bool {
    &&& disk.len() == t.total_slots * SLOT_SIZE
    &&& forall|id: u64| #[trigger] t.index.contains_key(id) ==> t.index[id] < t.total_slots
    &&& forall|id: u64| #[trigger]
        t.index.contains_key(id) ==> content_of(disk, t.index[id], fast) == SlotContent::Chunk(id)
    &&& forall|slot: u64|
        slot < t.total_slots && (#[trigger] content_of(disk, slot, fast)) is Chunk ==> {
            let id = content_of(disk, slot, fast)->Chunk_0;
            t.index.contains_key(id) && t.index[id] == slot
        }
    &&& t.free.no_duplicates()
    &&& forall|i: int|
        0 <= i < t.free.len() ==> #[trigger] t.free[i] < t.total_slots && !(content_of(
            disk,
            t.free[i],
            fast,
        ) is Chunk)
}

proof fn slot_of_table_in_file(t: ChunkTable, disk: Seq<u8>, slot: u64)
    requires
        disk.len() == t.total_slots * SLOT_SIZE,
        slot < t.total_slots,
    ensures
        slot_in_file(disk, slot),
{
    assert(slot * SLOT_SIZE + SLOT_SIZE <= t.total_slots * SLOT_SIZE) by (nonlinear_arith)
        requires
            slot + 1 <= t.total_slots,
    ;
}

/// A new file is all zeros, which an empty table mirrors.
pub proof fn an_empty_file_mirrors_an_empty_table(t: ChunkTable, disk: Seq<u8>, fast: bool)
    requires
        disk.len() == t.total_slots * SLOT_SIZE,
        forall|i: int| 0 <= i < disk.len() ==> disk[i] == 0,
        t.index == Map::<u64, u64>::empty(),
        t.free == crate::chunk_store::slots_upto(t.total_slots as nat),
    ensures
        mirrors(t, disk, fast),
{
    assert forall|slot: u64| slot < t.total_slots implies (#[trigger] content_of(disk, slot, fast))
        == SlotContent::Free by {
        slot_of_table_in_file(t, disk, slot);
        let start = slot_offset(slot);
        zeros_are_no_header(disk.subrange(start, start + CHUNK_HEADER_SIZE));
    }
}

/// Storing a chunk in the next free slot and writing it to the file keeps table
/// and file in step.
pub proof fn storing_keeps_mirroring(
    t: ChunkTable,
    disk: Seq<u8>,
    fast: bool,
    id: u64,
    data: Seq<u8>,
)
    requires
        mirrors(t, disk, fast),
        t.free.len() > 0,
        !t.index.contains_key(id),
        data.len() <= SLOT_DATA_SIZE,
    ensures
        mirrors(
            ChunkTable { index: t.index.insert(id, t.free.last()), ..t.after_reserving() },
            with_chunk_written(disk, t.free.last(), id, data),
            fast,
        ),
{
    let slot = t.free.last();
    assert(t.free[t.free.len() - 1] == slot);
    let after = ChunkTable { index: t.index.insert(id, slot), ..t.after_reserving() };
    let disk2 = with_chunk_written(disk, slot, id, data);
    slot_of_table_in_file(t, disk, slot);
    written_slot(disk, slot, id, data);
    assert forall|s: u64| s < t.total_slots && s != slot implies #[trigger] content_of(disk2, s, fast)
        == content_of(disk, s, fast) by {
        slot_of_table_in_file(t, disk, s);
        written_elsewhere(disk, slot, id, data, s);
        same_slot_same_content(disk, disk2, s, fast);
    }
    assert forall|k: u64| #[trigger] after.index.contains_key(k) implies content_of(
        disk2,
        after.index[k],
        fast,
    ) == SlotContent::Chunk(k) by {
        if k != id {
            assert(t.index.contains_key(k));
            assert(t.index[k] != slot);
        }
    }
    assert forall|i: int| 0 <= i < after.free.len() implies #[trigger] after.free[i] < t.total_slots
        && !(content_of(disk2, after.free[i], fast) is Chunk) by {
        assert(after.free[i] == t.free[i]);
        assert(t.free[i] != t.free[t.free.len() - 1]);
    }
}

/// Deleting a chunk, zeroing its header and giving its slot back keeps table
/// and file in step.
pub proof fn deleting_keeps_mirroring(t: ChunkTable, disk: Seq<u8>, fast: bool, id: u64)
    requires
        mirrors(t, disk, fast),
        t.index.contains_key(id),
    ensures
        mirrors(
            ChunkTable { index: t.index.remove(id), free: t.free.push(t.index[id]), ..t },
            with_slot_erased(disk, t.index[id]),
            fast,
        ),
{
    let slot = t.index[id];
    let after = ChunkTable { index: t.index.remove(id), free: t.free.push(slot), ..t };
    let disk2 = with_slot_erased(disk, slot);
    slot_of_table_in_file(t, disk, slot);
    an_erased_slot_is_free(disk, slot);
    assert forall|s: u64| s < t.total_slots && s != slot implies #[trigger] content_of(disk2, s, fast)
        == content_of(disk, s, fast) by {
        slot_of_table_in_file(t, disk, s);
        assert(same_slot(disk, disk2, s));
        same_slot_same_content(disk, disk2, s, fast);
    }
    assert(content_of(disk2, slot, fast) == SlotContent::Free);
    assert forall|k: u64| #[trigger] after.index.contains_key(k) implies after.index[k]
        < t.total_slots && content_of(disk2, after.index[k], fast) == SlotContent::Chunk(k) by {
        assert(t.index.contains_key(k));
        assert(t.index[k] != slot);
    }
    assert forall|i: int| 0 <= i < t.free.len() implies t.free[i] != slot by {
        assert(!(content_of(disk, t.free[i], fast) is Chunk));
    }
    assert forall|i: int| 0 <= i < after.free.len() implies #[trigger] after.free[i] < t.total_slots
        && !(content_of(disk2, after.free[i], fast) is Chunk) by {
        if i < t.free.len() {
            assert(after.free[i] == t.free[i]);
        }
    }
}

/// What a scan of all slots of a file finds.
pub open spec fn contents_of(disk: Seq<u8>, total: nat, fast: bool) -> Seq<SlotContent> {
    Seq::new(total, |i: int| content_of(disk, i as u64, fast))
}

/// A recovery from the file of a table finds the same chunks in the same slots,
/// and all other slots free.
pub proof fn recovery_finds_every_chunk(t: ChunkTable, disk: Seq<u8>, fast: bool)
    requires
        mirrors(t, disk, fast),
    ensures
        recovered_index(contents_of(disk, t.total_slots as nat, fast), t.total_slots as int)
            == t.index,
        forall|slot: u64|
            slot < t.total_slots ==> (recovered_free(
                contents_of(disk, t.total_slots as nat, fast),
                t.total_slots as int,
            ).contains(slot) <==> !(#[trigger] content_of(disk, slot, fast) is Chunk)),
{
    let slots = contents_of(disk, t.total_slots as nat, fast);
    let n = t.total_slots as int;
    recovered_entries(slots, n);
    recovered_free_entries(slots, n);
    let found = recovered_index(slots, n);
    assert forall|id: u64| found.contains_key(id) <==> t.index.contains_key(id) by {
        if found.contains_key(id) {
            assert(slots[found[id] as int] == content_of(disk, found[id], fast));
        }
        if t.index.contains_key(id) {
            assert(slots[t.index[id] as int] == SlotContent::Chunk(id));
        }
    }
    assert forall|id: u64| found.contains_key(id) implies found[id] == t.index[id] by {
        assert(slots[found[id] as int] == content_of(disk, found[id], fast));
    }
    assert(found =~= t.index);
    assert forall|slot: u64| slot < t.total_slots implies (recovered_free(slots, n).contains(slot)
        <==> !(#[trigger] content_of(disk, slot, fast) is Chunk)) by {
        assert(slots[slot as int] == content_of(disk, slot, fast));
    }
}

proof fn recovered_entries(slots: Seq<SlotContent>, n: int)
    requires
        0 <= n <= slots.len() <= u64::MAX,
    ensures
        forall|id: u64| #[trigger]
            recovered_index(slots, n).contains_key(id) ==> recovered_index(slots, n)[id] < n
                && slots[recovered_index(slots, n)[id] as int] == SlotContent::Chunk(id),
        forall|i: int|
            0 <= i < n && (#[trigger] slots[i]) is Chunk ==> recovered_index(
                slots,
                n,
            ).contains_key(slots[i]->Chunk_0),
    decreases n,
{
    if n > 0 {
        recovered_entries(slots, n - 1);
        let before = recovered_index(slots, n - 1);
        let after = recovered_index(slots, n);
        assert forall|id: u64| #[trigger] after.contains_key(id) implies after[id] < n
            && slots[after[id] as int] == SlotContent::Chunk(id) by {
            if before.contains_key(id) {
                assert(before[id] < n - 1);
            }
        }
    }
}

proof fn recovered_free_entries(slots: Seq<SlotContent>, n: int)
    requires
        0 <= n <= slots.len() <= u64::MAX,
    ensures
        forall|slot: u64|
            slot < n ==> (#[trigger] recovered_free(slots, n).contains(slot) <==> !(
            slots[slot as int] is Chunk)),
        forall|slot: u64| #[trigger] recovered_free(slots, n).contains(slot) ==> slot < n,
    decreases n,
{
    if n > 0 {
        recovered_free_entries(slots, n - 1);
        let before = recovered_free(slots, n - 1);
        let after = recovered_free(slots, n);
        if !(slots[n - 1] is Chunk) {
            let last = (n - 1) as u64;
            assert(after == before.push(last));
            assert forall|slot: u64| #[trigger] after.contains(slot) <==> before.contains(slot)
                || slot == last by {
                if before.contains(slot) {
                    let i = choose|i: int| 0 <= i < before.len() && before[i] == slot;
                    assert(after[i] == slot);
                }
                if slot == last {
                    assert(after[before.len() as int] == slot);
                }
            }
            assert(!before.contains(last));
        } else {
            assert(after == before);
        }
    }
}

/// With or without checking the data, a recovery treats a slot alike, unless
/// the data does not match its checksum; then only the fast one counts it.
pub proof fn fast_recovery_differs_only_on_corrupt_data(disk: Seq<u8>, slot: u64)
    ensures
        content_of(disk, slot, true) == content_of(disk, slot, false) || (content_of(
            disk,
            slot,
            false,
        ) == SlotContent::Corrupt && content_of(disk, slot, true) == SlotContent::Chunk(
            header_in(disk, slot).id,
        ) && header_in(disk, slot).magic == MAGIC),
{
}

/// Every slot of the file is either free, once, or holds one chunk.
pub open spec fn slots_accounted(t: ChunkTable) -> bool {
    &&& t.free.no_duplicates()
    &&& forall|i: int| 0 <= i < t.free.len() ==> #[trigger] t.free[i] < t.total_slots
    &&& forall|id: u64| #[trigger]
        t.index.contains_key(id) ==> t.index[id] < t.total_slots && !t.free.contains(t.index[id])
    &&& forall|a: u64, b: u64|
        t.index.contains_key(a) && t.index.contains_key(b) && #[trigger] t.index[a]
            == #[trigger] t.index[b] ==> a == b
    &&& forall|slot: u64|
        slot < t.total_slots ==> #[trigger] t.free.contains(slot) || t.index.values().contains(slot)
}

/// In a new table all slots are free.
pub proof fn new_slots_are_accounted(t: ChunkTable)
    requires
        t.index == Map::<u64, u64>::empty(),
        t.free == crate::chunk_store::slots_upto(t.total_slots as nat),
    ensures
        slots_accounted(t),
{
    assert forall|slot: u64| slot < t.total_slots implies #[trigger] t.free.contains(slot) by {
        assert(t.free[slot as int] == slot);
    }
}

/// Storing a chunk moves one slot from the free ones to the used ones.
pub proof fn storing_accounts_for_slots(t: ChunkTable, id: u64)
    requires
        slots_accounted(t),
        t.free.len() > 0,
        !t.index.contains_key(id),
    ensures
        slots_accounted(
            ChunkTable { index: t.index.insert(id, t.free.last()), ..t.after_reserving() },
        ),
{
    let slot = t.free.last();
    let last = t.free.len() - 1;
    let after = ChunkTable { index: t.index.insert(id, slot), ..t.after_reserving() };
    assert(t.free[last] == slot);
    assert(after.free == t.free.drop_last());
    assert forall|x: u64| #[trigger] after.free.contains(x) <==> t.free.contains(x) && x != slot by {
        if after.free.contains(x) {
            let i = choose|i: int| 0 <= i < after.free.len() && after.free[i] == x;
            assert(t.free[i] == x);
        }
        if t.free.contains(x) && x != slot {
            let i = choose|i: int| 0 <= i < t.free.len() && t.free[i] == x;
            assert(after.free[i] == x);
        }
    }
    assert forall|k: u64| #[trigger] after.index.contains_key(k) implies after.index[k]
        < after.total_slots && !after.free.contains(after.index[k]) by {
        if k != id {
            assert(t.index.contains_key(k));
        }
    }
    assert forall|a: u64, b: u64|
        after.index.contains_key(a) && after.index.contains_key(b) && #[trigger] after.index[a]
            == #[trigger] after.index[b] implies a == b by {
        assert(t.free.contains(slot));
        if a != id {
            assert(t.index.contains_key(a) && t.index[a] == after.index[a]);
        }
        if b != id {
            assert(t.index.contains_key(b) && t.index[b] == after.index[b]);
        }
    }
    assert forall|s: u64| s < after.total_slots implies #[trigger] after.free.contains(s)
        || after.index.values().contains(s) by {
        if s == slot {
            assert(after.index.contains_key(id) && after.index[id] == s);
        } else if !t.free.contains(s) {
            let k = choose|k: u64| t.index.contains_key(k) && t.index[k] == s;
            assert(after.index.contains_key(k) && after.index[k] == s);
        }
    }
}

/// Deleting a chunk and giving its slot back moves one slot from the used ones
/// to the free ones.
pub proof fn deleting_accounts_for_slots(t: ChunkTable, id: u64)
    requires
        slots_accounted(t),
        t.index.contains_key(id),
    ensures
        slots_accounted(
            ChunkTable { index: t.index.remove(id), free: t.free.push(t.index[id]), ..t },
        ),
{
    let slot = t.index[id];
    let after = ChunkTable { index: t.index.remove(id), free: t.free.push(slot), ..t };
    assert(after.free[t.free.len() as int] == slot);
    assert forall|x: u64| #[trigger] after.free.contains(x) <==> t.free.contains(x) || x == slot by {
        if t.free.contains(x) {
            let i = choose|i: int| 0 <= i < t.free.len() && t.free[i] == x;
            assert(after.free[i] == x);
        }
        if after.free.contains(x) && x != slot {
            let i = choose|i: int| 0 <= i < after.free.len() && after.free[i] == x;
            assert(t.free[i] == x);
        }
    }
    assert forall|i: int| 0 <= i < t.free.len() implies t.free[i] != slot by {
        assert(t.free.contains(t.free[i]));
    }
    assert forall|k: u64| #[trigger] after.index.contains_key(k) implies after.index[k]
        < after.total_slots && !after.free.contains(after.index[k]) by {
        assert(t.index.contains_key(k));
        assert(t.index[k] != slot);
    }
    assert forall|a: u64, b: u64|
        after.index.contains_key(a) && after.index.contains_key(b) && #[trigger] after.index[a]
            == #[trigger] after.index[b] implies a == b by {
        assert(t.index.contains_key(a) && t.index[a] == after.index[a]);
        assert(t.index.contains_key(b) && t.index[b] == after.index[b]);
    }
    assert forall|s: u64| s < after.total_slots implies #[trigger] after.free.contains(s)
        || after.index.values().contains(s) by {
        if s != slot && !t.free.contains(s) {
            let k = choose|k: u64| t.index.contains_key(k) && t.index[k] == s;
            assert(after.index.contains_key(k) && after.index[k] == s);
        }
    }
}

/// A write that failed gives its slot back, and nothing has changed but the
/// count of writes.
pub proof fn a_failed_write_changes_no_slot(t: ChunkTable)
    requires
        t.free.len() > 0,
    ensures
        t.after_reserving().free.push(t.free.last()) == t.free,
        t.after_reserving().index == t.index,
{
    assert(t.free.drop_last().push(t.free.last()) =~= t.free);
}

} // verus!
