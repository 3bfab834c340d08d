//! Chunks in the slots of one file: which slot holds which chunk, what is
//! written where, and what a chunk that is read back has to look like.
use std::collections::HashMap;

use vstd::prelude::*;

use crate::checksum::{checksum_of, compute_checksum};
use crate::chunk_header::{
    chunk_header, header_bytes, ChunkHeader, CHUNK_HEADER_SIZE, MAGIC,
};
use crate::status::{ErrorKind, StoreError};
use crate::text::{decimal, decimal_text, hex, hex_digits, join3};

verus! {

broadcast use vstd::std_specs::hash::group_hash_axioms;

/// The size of a slot: 8 MiB.
pub const SLOT_SIZE: usize = 8_388_608;

/// How much data a slot can hold beside the header.
pub const SLOT_DATA_SIZE: usize = 8_388_584;

/// The number of slots where none is given.
pub const ALLOCATED_ARENA_SIZE: usize = 2048;

/// By default every write is synced.
pub const DEFAULT_FSYNC_EVERY_N_WRITES: u64 = 1;

/// How careful a chunk store is.
#[derive(Debug, Clone, Copy, PartialEq, Eq, Structural)]
pub struct ChunkStoreOptions {
    pub fsync_every_n_writes: Option<u64>,
    pub fsync_on_delete: bool,
    pub fast_recover: bool,
}

impl Default for ChunkStoreOptions {
    fn default() -> (r: Self)
        ensures
            r == (ChunkStoreOptions {
                fsync_every_n_writes: Some(DEFAULT_FSYNC_EVERY_N_WRITES),
                fsync_on_delete: true,
                fast_recover: false,
            }),
    {
        ChunkStoreOptions {
            fsync_every_n_writes: Some(DEFAULT_FSYNC_EVERY_N_WRITES),
            fsync_on_delete: true,
            fast_recover: false,
        }
    }
}

/// What is to be written for a new chunk.
#[derive(Debug)]
pub struct ChunkWrite {
    pub slot: u64,
    pub header: [u8; CHUNK_HEADER_SIZE],
    pub header_offset: u64,
    pub data_offset: u64,
    pub fsync: bool,
}

/// Where a chunk is to be read.
#[derive(Debug, Clone, Copy, PartialEq, Eq, Structural)]
pub struct ChunkLocation {
    pub slot: u64,
    pub header_offset: u64,
    pub data_offset: u64,
}

/// What is to be written for a chunk that is deleted.
#[derive(Debug)]
pub struct ChunkErase {
    pub slot: u64,
    pub header: [u8; CHUNK_HEADER_SIZE],
    pub header_offset: u64,
    pub fsync: bool,
}

/// What a slot turned out to hold.
#[derive(Debug, Clone, Copy, PartialEq, Eq, Structural)]
pub enum SlotContent {
    Free,
    Corrupt,
    Chunk(u64),
}

/// What a slot's header says of the slot.
#[derive(Debug, Clone, Copy, PartialEq, Eq, Structural)]
pub enum HeaderScan {
    /// The header settles what the slot holds.
    Settled(SlotContent),
    /// This many bytes of data are to be read and checked.
    CheckData(usize),
}

/// What a recovery found.
#[derive(Debug, Clone, Copy, PartialEq, Eq, Structural)]
pub struct RecoveryReport {
    pub recovered: u64,
    pub corrupted: u64,
}

/// What a [`ChunkStore`] stands for.
pub struct ChunkTable {
    /// The slot of each chunk.
    pub index: Map<u64, u64>,
    /// The free slots; the last is taken first.
    pub free: Seq<u64>,
    pub total_slots: u64,
    pub fsync_every_n_writes: Option<u64>,
    pub fsync_on_delete: bool,
    /// The writes counted for syncing.
    pub writes: u64,
}

pub open spec fn slot_offset(slot: u64) -> int {
    slot * SLOT_SIZE
}

pub open spec fn data_offset(slot: u64) -> int {
    slot * SLOT_SIZE + CHUNK_HEADER_SIZE
}

/// The numbers `0..n`.
pub open spec fn slots_upto(n: nat) -> Seq<u64> {
    Seq::new(n, |i: int| i as u64)
}

impl ChunkTable {
    /// Whether the next write is to be synced.
    pub open spec fn syncs_next_write(self) -> bool {
        match self.fsync_every_n_writes {
            Some(n) => n > 0 && self.after_write().writes % n == 0,
            None => false,
        }
    }

    /// The table after one more write was counted; writes are counted only
    /// where some of them are synced.
    pub open spec fn after_write(self) -> ChunkTable {
        match self.fsync_every_n_writes {
            Some(n) => if n > 0 {
                ChunkTable {
                    writes: if self.writes == u64::MAX {
                        0
                    } else {
                        (self.writes + 1) as u64
                    },
                    ..self
                }
            } else {
                self
            },
            None => self,
        }
    }

    /// The table after the next free slot was taken and its write counted.
    pub open spec fn after_reserving(self) -> ChunkTable {
        ChunkTable { free: self.free.drop_last(), ..self.after_write() }
    }
}

/// The index that comes of the first `n` slots: where two slots hold the same
/// chunk, the later one counts.
pub open spec fn recovered_index(slots: Seq<SlotContent>, n: int) -> Map<u64, u64>
    decreases n,
{
    if n <= 0 {
        Map::<u64, u64>::empty()
    } else {
        match slots[n - 1] {
            SlotContent::Chunk(id) => recovered_index(slots, n - 1).insert(id, (n - 1) as u64),
            _ => recovered_index(slots, n - 1),
        }
    }
}

/// Those of the first `n` slots that hold no chunk.
pub open spec fn recovered_free(slots: Seq<SlotContent>, n: int) -> Seq<u64>
    decreases n,
{
    if n <= 0 {
        Seq::<u64>::empty()
    } else {
        match slots[n - 1] {
            SlotContent::Chunk(id) => recovered_free(slots, n - 1),
            _ => recovered_free(slots, n - 1).push((n - 1) as u64),
        }
    }
}

/// How many of `slots` are as `wanted` says.
pub open spec fn count_slots(slots: Seq<SlotContent>, wanted: spec_fn(SlotContent) -> bool) -> nat {
    slots.filter(wanted).len()
}

/// What a header settles about its slot.
pub open spec fn scanned_header(h: ChunkHeader, fast: bool) -> HeaderScan {
    if h.magic != MAGIC {
        HeaderScan::Settled(SlotContent::Free)
    } else if h.data_len > SLOT_DATA_SIZE {
        HeaderScan::Settled(SlotContent::Corrupt)
    } else if fast {
        HeaderScan::Settled(SlotContent::Chunk(h.id))
    } else {
        HeaderScan::CheckData(h.data_len as usize)
    }
}

/// What a slot with a header and its data holds.
pub open spec fn checked_data(h: ChunkHeader, data: Seq<u8>) -> SlotContent {
    if h.checksum == checksum_of(data) {
        SlotContent::Chunk(h.id)
    } else {
        SlotContent::Corrupt
    }
}

/// Decides what a slot holds, as far as its header tells. With `fast` the data
/// is taken on trust.
pub fn scan_header(header: &ChunkHeader, fast: bool) -> (r: HeaderScan)
    ensures
        r == scanned_header(*header, fast),
{
    if header.magic != MAGIC {
        HeaderScan::Settled(SlotContent::Free)
    } else if header.data_len as usize > SLOT_DATA_SIZE {
        HeaderScan::Settled(SlotContent::Corrupt)
    } else if fast {
        HeaderScan::Settled(SlotContent::Chunk(header.id))
    } else {
        HeaderScan::CheckData(header.data_len as usize)
    }
}

/// Decides what a slot holds, given its data.
pub fn check_data(header: &ChunkHeader, data: &[u8]) -> (r: SlotContent)
    ensures
        r == checked_data(*header, data@),
{
    check_data_sum(header, compute_checksum(data))
}

/// Decides what a slot holds, given the checksum of its data.
pub fn check_data_sum(header: &ChunkHeader, computed: u32) -> (r: SlotContent)
    ensures
        r == if header.checksum == computed {
            SlotContent::Chunk(header.id)
        } else {
            SlotContent::Corrupt
        },
{
    if header.checksum == computed {
        SlotContent::Chunk(header.id)
    } else {
        SlotContent::Corrupt
    }
}

/// How many bytes are to be read behind a header: none where it is no chunk's.
pub fn data_to_read(header: &ChunkHeader) -> (r: usize)
    ensures
        r == if header.magic == MAGIC {
            header.data_len as int
        } else {
            0
        },
{
    if header.magic == MAGIC {
        header.data_len as usize
    } else {
        0
    }
}

/// What reading a chunk comes to.
pub open spec fn read_outcome(
    id: u64,
    slot: u64,
    h: ChunkHeader,
    data: Seq<u8>,
    r: Result<(Vec<u8>, u32), StoreError>,
) -> bool {
    read_outcome_for(id, slot, h, data, checksum_of(data), r)
}

/// What reading a chunk comes to whose data has the checksum `computed`.
pub open spec fn read_outcome_for(
    id: u64,
    slot: u64,
    h: ChunkHeader,
    data: Seq<u8>,
    computed: u32,
    r: Result<(Vec<u8>, u32), StoreError>,
) -> bool {
    if h.magic != MAGIC {
        r matches Err(e) && e.is(
            ErrorKind::InvalidData,
            "invalid magic in chunk header for slot "@ + decimal_text(slot as nat)
                + ": expected 0x"@ + hex_digits(MAGIC as nat) + ", got 0x"@ + hex_digits(
                h.magic as nat,
            ),
        )
    } else if h.checksum != computed {
        r matches Err(e) && e.is(
            ErrorKind::InvalidData,
            "checksum mismatch for chunk "@ + decimal_text(id as nat) + ": stored 0x"@
                + hex_digits(h.checksum as nat) + ", computed 0x"@ + hex_digits(computed as nat),
        )
    } else {
        r matches Ok((bytes, checksum)) && bytes@ == data && checksum == h.checksum
    }
}

/// Checks what was read of the chunk `id` in `slot`, and gives its data and
/// checksum.
pub fn check_chunk(id: u64, slot: u64, header: &ChunkHeader, data: Vec<u8>) -> (r: Result<
    (Vec<u8>, u32),
    StoreError,
>)
    ensures
        read_outcome(id, slot, *header, data@, r),
{
    let computed: u32 = compute_checksum(data.as_slice());
    check_chunk_sum(id, slot, header, data, computed)
}

/// Checks what was read of the chunk `id` in `slot`, given the checksum of the
/// data.
pub fn check_chunk_sum(
    id: u64,
    slot: u64,
    header: &ChunkHeader,
    data: Vec<u8>,
    computed: u32,
) -> (r: Result<(Vec<u8>, u32), StoreError>)
    ensures
        read_outcome_for(id, slot, *header, data@, computed, r),
{
    if header.magic != MAGIC {
        let mut message: String = join3(
            "invalid magic in chunk header for slot ",
            decimal(slot).as_str(),
            ": expected 0x",
        );
        message.append(hex(MAGIC).as_str());
        message.append(", got 0x");
        message.append(hex(header.magic).as_str());
        return Err(StoreError::new(ErrorKind::InvalidData, message));
    }
    if header.checksum != computed {
        let mut message: String = join3(
            "checksum mismatch for chunk ",
            decimal(id).as_str(),
            ": stored 0x",
        );
        message.append(hex(header.checksum).as_str());
        message.append(", computed 0x");
        message.append(hex(computed).as_str());
        return Err(StoreError::new(ErrorKind::InvalidData, message));
    }
    Ok((data, header.checksum))
}

/// The table of a chunk file: which slot holds which chunk and which are free.
pub struct ChunkStore {
    index: HashMap<u64, u64>,
    free: Vec<u64>,
    total_slots: u64,
    fsync_every_n_writes: Option<u64>,
    fsync_on_delete: bool,
    writes: u64,
}

impl View for ChunkStore {
    type V = ChunkTable;

    closed spec fn view(&self) -> ChunkTable {
        ChunkTable {
            index: self.index@,
            free: self.free@,
            total_slots: self.total_slots,
            fsync_every_n_writes: self.fsync_every_n_writes,
            fsync_on_delete: self.fsync_on_delete,
            writes: self.writes,
        }
    }
}

/// All slots in a table are slots of the file, and every byte of the file has
/// an offset.
pub open spec fn table_fits(t: ChunkTable) -> bool {
    &&& t.total_slots * SLOT_SIZE <= u64::MAX
    &&& forall|id: u64| #[trigger] t.index.contains_key(id) ==> t.index[id] < t.total_slots
    &&& forall|i: int| 0 <= i < t.free.len() ==> #[trigger] t.free[i] < t.total_slots
}

impl ChunkStore {
    /// Whether the table fits the file.
    pub open spec fn wf(self) -> bool {
        table_fits(self@)
    }

    /// An empty table for a file of `allocated_slots` slots, all of them free.
    pub fn open(allocated_slots: Option<usize>, options: ChunkStoreOptions) -> (r: Self)
        requires
            allocated_slots matches Some(n) ==> n * SLOT_SIZE <= u64::MAX,
        ensures
            r.wf(),
            ({
                let total = match allocated_slots {
                    Some(n) => n,
                    None => ALLOCATED_ARENA_SIZE,
                };
                r@ == (ChunkTable {
                    index: Map::<u64, u64>::empty(),
                    free: slots_upto(total as nat),
                    total_slots: total as u64,
                    fsync_every_n_writes: options.fsync_every_n_writes,
                    fsync_on_delete: options.fsync_on_delete,
                    writes: 0,
                })
            }),
    {
        let total: u64 = match allocated_slots {
            Some(n) => n as u64,
            None => ALLOCATED_ARENA_SIZE as u64,
        };
        let mut free: Vec<u64> = Vec::new();
        let mut i: u64 = 0;
        while i < total
            invariant
                i <= total,
                free@.len() == i,
                forall|k: int| 0 <= k < i ==> free@[k] == k,
            decreases total - i,
        {
            free.push(i);
            i = i + 1;
        }
        assert(free@ =~= slots_upto(total as nat));
        ChunkStore {
            index: HashMap::new(),
            free,
            total_slots: total,
            fsync_every_n_writes: options.fsync_every_n_writes,
            fsync_on_delete: options.fsync_on_delete,
            writes: 0,
        }
    }

    /// The size of the file.
    pub fn file_bytes(&self) -> (r: u64)
        requires
            self.wf(),
        ensures
            r == self@.total_slots * SLOT_SIZE,
    {
        self.total_slots * SLOT_SIZE as u64
    }

    /// The number of slots of the file.
    pub fn total_slots(&self) -> (r: u64)
        ensures
            r == self@.total_slots,
    {
        self.total_slots
    }

    /// Takes a free slot.
    pub fn find_slot(&mut self) -> (r: Option<u64>)
        requires
            old(self).wf(),
        ensures
            final(self).wf(),
            match r {
                Some(slot) => old(self)@.free.len() > 0 && slot == old(self)@.free.last()
                    && final(self)@ == (ChunkTable {
                    free: old(self)@.free.drop_last(),
                    ..old(self)@
                }),
                None => old(self)@.free.len() == 0 && final(self)@ == old(self)@,
            },
    {
        let ghost before = self@;
        let r: Option<u64> = self.free.pop();
        proof {
            if r is None {
                assert(self@.free =~= before.free);
            }
            assert forall|i: int| 0 <= i < self@.free.len() implies #[trigger] self@.free[i]
                < self@.total_slots by {
                assert(self@.free[i] == before.free[i]);
            }
        }
        r
    }

    /// Gives a slot back.
    pub fn clear_slot(&mut self, slot_index: u64)
        requires
            old(self).wf(),
            slot_index < old(self)@.total_slots,
        ensures
            final(self).wf(),
            final(self)@ == (ChunkTable { free: old(self)@.free.push(slot_index), ..old(self)@ }),
    {
        let ghost before = self@;
        self.free.push(slot_index);
        assert forall|i: int| 0 <= i < self@.free.len() implies #[trigger] self@.free[i]
            < self@.total_slots by {
            if i < before.free.len() {
                assert(self@.free[i] == before.free[i]);
            }
        }
    }

    /// Counts a write, and says whether it is to be synced: every write whose
    /// number is a multiple of the configured one, and none where that is not
    /// set or zero.
    pub fn should_fsync_write(&mut self) -> (r: bool)
        ensures
            r == old(self)@.syncs_next_write(),
            final(self)@ == old(self)@.after_write(),
    {
        match self.fsync_every_n_writes {
            Some(n) => {
                if n > 0 {
                    self.writes = self.writes.wrapping_add(1);
                    self.writes % n == 0
                } else {
                    false
                }
            },
            None => false,
        }
    }

    /// Reserves a slot for a new chunk and says what to write there. When that
    /// is done, [`ChunkStore::commit_chunk`] makes the chunk known; when it
    /// failed, [`ChunkStore::clear_slot`] gives the slot back.
    pub fn put_chunk(&mut self, id: u64, data: &[u8]) -> (r: Result<ChunkWrite, StoreError>)
        requires
            old(self).wf(),
            data@.len() <= SLOT_DATA_SIZE || old(self)@.index.contains_key(id) || old(
                self,
            )@.free.len() == 0,
        ensures
            final(self).wf(),
            match r {
                Ok(w) => {
                    &&& !old(self)@.index.contains_key(id)
                    &&& old(self)@.free.len() > 0
                    &&& w.slot == old(self)@.free.last()
                    &&& w.slot < final(self)@.total_slots
                    &&& w.header@ == header_bytes(
                        chunk_header(id, checksum_of(data@), data@.len() as u32),
                    )
                    &&& w.header_offset == slot_offset(w.slot)
                    &&& w.data_offset == data_offset(w.slot)
                    &&& w.fsync == old(self)@.syncs_next_write()
                    &&& final(self)@ == old(self)@.after_reserving()
                },
                Err(e) => {
                    &&& final(self)@ == old(self)@
                    &&& if old(self)@.index.contains_key(id) {
                        e.is(ErrorKind::AlreadyExists, "id is already used"@)
                    } else {
                        old(self)@.free.len() == 0 && e.is(
                            ErrorKind::StorageFull,
                            "all chunks allocated"@,
                        )
                    }
                },
            },
    {
        if self.index.contains_key(&id) {
            return Err(
                StoreError::new(ErrorKind::AlreadyExists, "id is already used".to_owned()),
            );
        }
        let slot: u64 = match self.find_slot() {
            Some(slot) => slot,
            None => {
                return Err(
                    StoreError::new(ErrorKind::StorageFull, "all chunks allocated".to_owned()),
                );
            },
        };
        let header: ChunkHeader = ChunkHeader::new(id, compute_checksum(data), data.len() as u32);
        let fsync: bool = self.should_fsync_write();
        proof {
            slot_fits(slot, self@.total_slots);
        }
        Ok(
            ChunkWrite {
                slot,
                header: header.to_bytes(),
                header_offset: slot * SLOT_SIZE as u64,
                data_offset: slot * SLOT_SIZE as u64 + CHUNK_HEADER_SIZE as u64,
                fsync,
            },
        )
    }

    /// Makes a chunk known that was written to `slot`.
    pub fn commit_chunk(&mut self, id: u64, slot: u64)
        requires
            old(self).wf(),
            slot < old(self)@.total_slots,
        ensures
            final(self).wf(),
            final(self)@ == (ChunkTable {
                index: old(self)@.index.insert(id, slot),
                ..old(self)@
            }),
    {
        let ghost before = self@;
        self.index.insert(id, slot);
        assert forall|k: u64| #[trigger] self@.index.contains_key(k) implies self@.index[k]
            < self@.total_slots by {
            if k != id {
                assert(before.index.contains_key(k));
            }
        }
    }

    /// Where to read the chunk `id`. What was read there is for
    /// [`check_chunk`].
    pub fn get_chunk(&self, id: u64) -> (r: Result<ChunkLocation, StoreError>)
        requires
            self.wf(),
        ensures
            match r {
                Ok(place) => {
                    &&& self@.index.contains_key(id)
                    &&& place.slot == self@.index[id]
                    &&& place.header_offset == slot_offset(place.slot)
                    &&& place.data_offset == data_offset(place.slot)
                },
                Err(e) => !self@.index.contains_key(id) && e.is(
                    ErrorKind::NotFound,
                    "Chunk not found"@,
                ),
            },
    {
        match self.index.get(&id) {
            Some(slot) => {
                let slot: u64 = *slot;
                proof {
                    assert(self@.index.contains_key(id));
                    slot_fits(slot, self@.total_slots);
                }
                Ok(
                    ChunkLocation {
                        slot,
                        header_offset: slot * SLOT_SIZE as u64,
                        data_offset: slot * SLOT_SIZE as u64 + CHUNK_HEADER_SIZE as u64,
                    },
                )
            },
            None => Err(StoreError::new(ErrorKind::NotFound, "Chunk not found".to_owned())),
        }
    }

    /// Forgets the chunk `id` and says what to write over it, if it was known.
    /// When that is done, [`ChunkStore::clear_slot`] gives the slot back.
    pub fn delete_chunk(&mut self, id: u64) -> (r: Option<ChunkErase>)
        requires
            old(self).wf(),
        ensures
            final(self).wf(),
            final(self)@ == (ChunkTable { index: old(self)@.index.remove(id), ..old(self)@ }),
            match r {
                Some(erase) => {
                    &&& old(self)@.index.contains_key(id)
                    &&& erase.slot == old(self)@.index[id]
                    &&& erase.slot < final(self)@.total_slots
                    &&& erase.header@ == Seq::new(CHUNK_HEADER_SIZE as nat, |i: int| 0u8)
                    &&& erase.header_offset == slot_offset(erase.slot)
                    &&& erase.fsync == old(self)@.fsync_on_delete
                },
                None => !old(self)@.index.contains_key(id),
            },
    {
        let ghost before = self@;
        let removed: Option<u64> = self.index.remove(&id);
        assert forall|k: u64| #[trigger] self@.index.contains_key(k) implies self@.index[k]
            < self@.total_slots by {
            assert(before.index.contains_key(k));
        }
        match removed {
            Some(slot) => {
                proof {
                    assert(before.index.contains_key(id));
                    slot_fits(slot, self@.total_slots);
                }
                let header: [u8; CHUNK_HEADER_SIZE] = [0;CHUNK_HEADER_SIZE];
                assert(header@ =~= Seq::new(CHUNK_HEADER_SIZE as nat, |i: int| 0u8));
                Some(
                    ChunkErase {
                        slot,
                        header,
                        header_offset: slot * SLOT_SIZE as u64,
                        fsync: self.fsync_on_delete,
                    },
                )
            },
            None => {
                assert(self@.index =~= before.index.remove(id));
                None
            },
        }
    }

    /// Where the header of `slot` stands.
    pub fn locate_slot(&self, slot: u64) -> (r: ChunkLocation)
        requires
            self.wf(),
            slot < self@.total_slots,
        ensures
            r.slot == slot,
            r.header_offset == slot_offset(slot),
            r.data_offset == data_offset(slot),
    {
        proof {
            slot_fits(slot, self@.total_slots);
        }
        ChunkLocation {
            slot,
            header_offset: slot * SLOT_SIZE as u64,
            data_offset: slot * SLOT_SIZE as u64 + CHUNK_HEADER_SIZE as u64,
        }
    }

    /// Rebuilds the table from what the slots of the file hold.
    pub fn recover_index(&mut self, slots: &Vec<SlotContent>) -> (r: RecoveryReport)
        requires
            old(self).wf(),
            slots@.len() <= old(self)@.total_slots,
        ensures
            final(self).wf(),
            final(self)@ == (ChunkTable {
                index: recovered_index(slots@, slots@.len() as int),
                free: recovered_free(slots@, slots@.len() as int),
                ..old(self)@
            }),
            r.recovered == count_slots(slots@, |s: SlotContent| s is Chunk),
            r.corrupted == count_slots(slots@, |s: SlotContent| s is Corrupt),
    {
        let ghost before = self@;
        let ghost is_chunk = |s: SlotContent| s is Chunk;
        let ghost is_corrupt = |s: SlotContent| s is Corrupt;
        self.index.clear();
        self.free.clear();
        let mut recovered: u64 = 0;
        let mut corrupted: u64 = 0;
        let mut i: usize = 0;
        proof {
            reveal(Seq::filter);
        }
        while i < slots.len()
            invariant
                i <= slots@.len(),
                slots@.len() <= self@.total_slots,
                self.wf(),
                is_chunk == (|s: SlotContent| s is Chunk),
                is_corrupt == (|s: SlotContent| s is Corrupt),
                self@ == (ChunkTable {
                    index: recovered_index(slots@, i as int),
                    free: recovered_free(slots@, i as int),
                    ..before
                }),
                recovered == slots@.take(i as int).filter(is_chunk).len(),
                corrupted == slots@.take(i as int).filter(is_corrupt).len(),
                recovered <= i,
                corrupted <= i,
            decreases slots@.len() - i,
        {
            reveal(Seq::filter);
            assert(slots@.take(i + 1).drop_last() =~= slots@.take(i as int));
            match slots[i] {
                SlotContent::Chunk(id) => {
                    self.commit_chunk(id, i as u64);
                    recovered = recovered + 1;
                },
                SlotContent::Corrupt => {
                    self.clear_slot(i as u64);
                    corrupted = corrupted + 1;
                },
                SlotContent::Free => {
                    self.clear_slot(i as u64);
                },
            }
            i = i + 1;
        }
        assert(slots@.take(slots@.len() as int) =~= slots@);
        RecoveryReport { recovered, corrupted }
    }

    /// The number of chunks.
    pub fn chunk_count(&self) -> (r: usize)
        ensures
            r == self@.index.len(),
    {
        self.index.len()
    }

    /// The number of free slots.
    pub fn free_slots(&self) -> (r: u64)
        ensures
            r == self@.free.len(),
    {
        self.free.len() as u64
    }

    /// The number of bytes that one chunk can hold.
    pub fn get_chunk_size(&self) -> (r: u64)
        ensures
            r == SLOT_DATA_SIZE,
    {
        SLOT_DATA_SIZE as u64
    }
}

pub(crate) proof fn slot_fits(slot: u64, total: u64)
    requires
        slot < total,
        total * SLOT_SIZE <= u64::MAX,
    ensures
        slot * SLOT_SIZE + SLOT_SIZE <= total * SLOT_SIZE,
{
    assert((slot + 1) * SLOT_SIZE <= total * SLOT_SIZE) by (nonlinear_arith)
        requires
            slot + 1 <= total,
    ;
    assert((slot + 1) * SLOT_SIZE == slot * SLOT_SIZE + SLOT_SIZE) by (nonlinear_arith);
}

} // verus!
