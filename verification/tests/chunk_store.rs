use object_store::checksum::compute_checksum;
use object_store::chunk_header::{ChunkHeader, CHUNK_HEADER_SIZE, MAGIC};
use object_store::chunk_store::{
    check_chunk, check_chunk_sum, check_data, check_data_sum, data_to_read, scan_header, ChunkStore, ChunkStoreOptions, HeaderScan,
    RecoveryReport, SlotContent, SLOT_DATA_SIZE, SLOT_SIZE,
};
use object_store::status::{ErrorKind, StoreError};

/// A chunk store whose file is a vector.
struct DiskStore {
    store: ChunkStore,
    disk: Vec<u8>,
}

fn header_at(disk: &[u8], offset: u64) -> ChunkHeader {
    let mut buf = [0u8; CHUNK_HEADER_SIZE];
    buf.copy_from_slice(&disk[offset as usize..offset as usize + CHUNK_HEADER_SIZE]);
    ChunkHeader::from_bytes(&buf)
}

fn write_at(disk: &mut [u8], offset: u64, bytes: &[u8]) {
    disk[offset as usize..offset as usize + bytes.len()].copy_from_slice(bytes);
}

fn read_chunk(disk: &[u8], slot: u64) -> (ChunkHeader, Vec<u8>) {
    let offset = slot as usize * SLOT_SIZE;
    let header = header_at(disk, offset as u64);
    let start = offset + CHUNK_HEADER_SIZE;
    (header, disk[start..start + data_to_read(&header)].to_vec())
}

impl DiskStore {
    fn open(mut disk: Vec<u8>, slots: usize) -> Self {
        let store = ChunkStore::open(Some(slots), ChunkStoreOptions::default());
        disk.resize(store.file_bytes() as usize, 0);
        DiskStore { store, disk }
    }

    fn new(slots: usize) -> Self {
        Self::open(Vec::new(), slots)
    }

    fn put_chunk(&mut self, id: u64, data: &[u8]) -> Result<(), StoreError> {
        let write = self.store.put_chunk(id, data)?;
        write_at(&mut self.disk, write.header_offset, &write.header);
        write_at(&mut self.disk, write.data_offset, data);
        self.store.commit_chunk(id, write.slot);
        Ok(())
    }

    fn get_chunk(&self, id: u64) -> Result<(Vec<u8>, u32), StoreError> {
        let place = self.store.get_chunk(id)?;
        let header = header_at(&self.disk, place.header_offset);
        let start = place.data_offset as usize;
        let data = self.disk[start..start + data_to_read(&header)].to_vec();
        check_chunk(id, place.slot, &header, data)
    }

    fn delete_chunk(&mut self, id: u64) {
        if let Some(erase) = self.store.delete_chunk(id) {
            write_at(&mut self.disk, erase.header_offset, &erase.header);
            self.store.clear_slot(erase.slot);
        }
    }

    fn recover_index(&mut self, fast: bool) -> RecoveryReport {
        let mut slots = Vec::new();
        for slot in 0..self.store.total_slots() {
            let place = self.store.locate_slot(slot);
            let header = header_at(&self.disk, place.header_offset);
            slots.push(match scan_header(&header, fast) {
                HeaderScan::Settled(content) => content,
                HeaderScan::CheckData(len) => {
                    let start = place.data_offset as usize;
                    check_data(&header, &self.disk[start..start + len])
                }
            });
        }
        self.store.recover_index(&slots)
    }

    fn reopen(self, slots: usize) -> Self {
        Self::open(self.disk, slots)
    }
}

#[test]
fn test_chunk_header_serialization_roundtrip() {
    let header = ChunkHeader::new(12345, 0xDEADBEEF, 1024);

    let bytes = header.to_bytes();
    let restored = ChunkHeader::from_bytes(&bytes);

    assert_eq!(restored.magic, MAGIC);
    assert_eq!(restored.id, 12345);
    assert_eq!(restored.checksum, 0xDEADBEEF);
    assert_eq!(restored.data_len, 1024);
}

#[test]
fn test_chunk_header_magic_is_correct() {
    let header = ChunkHeader::new(0, 0, 0);
    assert_eq!(header.magic, 0x43484B01); // "CHK\x01" in little endian
}

#[test]
fn test_chunk_header_size_includes_alignment_padding() {
    // ChunkHeader is 24 bytes due to alignment padding:
    // magic (4) + padding (4) + id (8) + checksum (4) + data_len (4) = 24
    // Note: to_bytes/from_bytes only use the first 20 bytes of actual data
    assert_eq!(CHUNK_HEADER_SIZE, 24);
    let header = ChunkHeader::new(0, 0, 0);
    assert_eq!(header.to_bytes().len(), 24);
}

#[test]
fn headers_are_written_lowest_byte_first() {
    let bytes = ChunkHeader::new(0x1122334455667788, 0xa1b2c3d4, 0x01020304).to_bytes();
    assert_eq!(
        bytes,
        [
            0x01, 0x4b, 0x48, 0x43, 0x88, 0x77, 0x66, 0x55, 0x44, 0x33, 0x22, 0x11, 0xd4, 0xc3,
            0xb2, 0xa1, 0x04, 0x03, 0x02, 0x01, 0, 0, 0, 0
        ]
    );
}

#[test]
fn chunk_store_test_compute_checksum_deterministic() {
    let data = b"hello world";
    let checksum1 = compute_checksum(data);
    let checksum2 = compute_checksum(data);
    assert_eq!(checksum1, checksum2);
}

#[test]
fn test_compute_checksum_different_data_different_checksum() {
    let checksum1 = compute_checksum(b"hello");
    let checksum2 = compute_checksum(b"world");
    assert_ne!(checksum1, checksum2);
}

#[test]
fn chunk_store_test_compute_checksum_empty_data() {
    let checksum = compute_checksum(b"");
    // CRC32 of empty data is 0
    assert_eq!(checksum, 0);
}

#[test]
fn test_write_and_read_chunk_with_buffer() {
    let mut disk = vec![0u8; SLOT_SIZE];
    let data = b"test data for write/read";
    let checksum = compute_checksum(data);
    let header = ChunkHeader::new(42, checksum, data.len() as u32);

    write_at(&mut disk, 0, &header.to_bytes());
    write_at(&mut disk, CHUNK_HEADER_SIZE as u64, data);

    let (read_header, read_data) = read_chunk(&disk, 0);
    assert_eq!(read_header, header);
    assert_eq!(read_data, data);
}

#[test]
fn test_read_chunk_header_only() {
    let mut store = DiskStore::new(1);
    let data = b"some data";
    let checksum = compute_checksum(data);
    store.put_chunk(99, data).unwrap();

    // Read only header
    let read_header = header_at(&store.disk, 0);
    assert_eq!(read_header.magic, MAGIC);
    assert_eq!(read_header.id, 99);
    assert_eq!(read_header.checksum, checksum);
    assert_eq!(read_header.data_len, data.len() as u32);
}

#[test]
fn test_read_chunk_optimized_returns_exact_data_size() {
    let mut store = DiskStore::new(1);
    // 100 bytes of data in an 8MB slot
    let data = vec![0xAB; 100];
    store.put_chunk(1, &data).unwrap();

    let (_, read_data) = read_chunk(&store.disk, 0);
    // Should return exactly 100 bytes, not 8MB
    assert_eq!(read_data.len(), 100);
    assert_eq!(read_data, data);
}

#[test]
fn test_read_empty_slot_returns_empty_data() {
    let store = DiskStore::new(1);
    // Don't write anything, just read
    let (header, data) = read_chunk(&store.disk, 0);
    // Magic will be 0, indicating empty slot
    assert_ne!(header.magic, MAGIC);
    assert!(data.is_empty());
}

#[test]
fn test_write_to_different_slots() {
    let mut store = DiskStore::new(3);
    // The last free slot is taken first
    store.put_chunk(102, b"slot two data").unwrap();
    store.put_chunk(101, b"slot one data").unwrap();
    store.put_chunk(100, b"slot zero data").unwrap();

    // Read back and verify
    let (h0, d0) = read_chunk(&store.disk, 0);
    let (h1, d1) = read_chunk(&store.disk, 1);
    let (h2, d2) = read_chunk(&store.disk, 2);

    assert_eq!(h0.id, 100);
    assert_eq!(d0, b"slot zero data");
    assert_eq!(h1.id, 101);
    assert_eq!(d1, b"slot one data");
    assert_eq!(h2.id, 102);
    assert_eq!(d2, b"slot two data");
}

#[test]
fn test_chunkstore_preallocates_slots() {
    let store = DiskStore::new(4);
    assert_eq!(store.store.free_slots(), 4);
    assert_eq!(store.store.file_bytes(), (SLOT_SIZE * 4) as u64);
}

#[test]
fn slots_are_allocated_by_default() {
    let store = ChunkStore::open(None, ChunkStoreOptions::default());
    assert_eq!(store.free_slots(), 2048);
    assert_eq!(store.file_bytes(), 2048 * SLOT_SIZE as u64);
}

#[test]
fn test_chunkstore_get_chunk_size() {
    let store = DiskStore::new(1);
    assert_eq!(store.store.get_chunk_size(), SLOT_DATA_SIZE as u64);
    assert_eq!(SLOT_DATA_SIZE, 8 * 1024 * 1024 - 24);
}

#[test]
fn test_chunkstore_put_and_get_chunk() {
    let mut store = DiskStore::new(2);

    let data = b"hello world";
    store.put_chunk(42, data).unwrap();

    let (retrieved, checksum) = store.get_chunk(42).unwrap();
    assert_eq!(retrieved, data);
    assert_eq!(checksum, compute_checksum(data));
}

#[test]
fn test_chunkstore_put_chunk_decrements_free_slots() {
    let mut store = DiskStore::new(3);
    assert_eq!(store.store.free_slots(), 3);

    store.put_chunk(1, b"data").unwrap();
    assert_eq!(store.store.free_slots(), 2);

    store.put_chunk(2, b"more").unwrap();
    assert_eq!(store.store.free_slots(), 1);
}

#[test]
fn test_chunkstore_put_chunk_duplicate_id_fails() {
    let mut store = DiskStore::new(2);

    store.put_chunk(100, b"first").unwrap();
    let result = store.put_chunk(100, b"second");

    assert!(result.is_err());
    assert_eq!(result.unwrap_err().kind(), ErrorKind::AlreadyExists);

    // Original data should be preserved
    let (data, _) = store.get_chunk(100).unwrap();
    assert_eq!(data, b"first");
}

#[test]
fn test_chunkstore_put_chunk_storage_full() {
    let mut store = DiskStore::new(2);

    store.put_chunk(1, b"first").unwrap();
    store.put_chunk(2, b"second").unwrap();

    let result = store.put_chunk(3, b"third");
    assert!(result.is_err());
    assert_eq!(result.unwrap_err().kind(), ErrorKind::StorageFull);
}

#[test]
fn test_chunkstore_get_chunk_not_found() {
    let store = DiskStore::new(1);

    let result = store.get_chunk(99999);
    assert!(result.is_err());
    assert_eq!(result.unwrap_err().kind(), ErrorKind::NotFound);
}

#[test]
fn test_chunkstore_delete_chunk() {
    let mut store = DiskStore::new(2);

    store.put_chunk(42, b"data to delete").unwrap();
    assert_eq!(store.store.free_slots(), 1);

    store.delete_chunk(42);
    assert_eq!(store.store.free_slots(), 2);

    // Chunk should no longer be retrievable
    assert!(store.get_chunk(42).is_err());
}

#[test]
fn test_chunkstore_delete_chunk_not_found_is_ok() {
    let mut store = DiskStore::new(1);

    // Deleting non-existent chunk should not error (idempotent)
    let result = store.store.delete_chunk(99999);
    assert!(result.is_none());
    assert_eq!(store.store.free_slots(), 1);
}

#[test]
fn test_chunkstore_delete_frees_slot_for_reuse() {
    let mut store = DiskStore::new(1);

    store.put_chunk(1, b"first").unwrap();
    assert!(store.put_chunk(2, b"second").is_err()); // Full

    store.delete_chunk(1);

    // Now we should be able to write again
    store.put_chunk(2, b"second").unwrap();
    let (data, _) = store.get_chunk(2).unwrap();
    assert_eq!(data, b"second");
}

#[test]
fn test_chunkstore_recover_index_after_writes() {
    let mut store = DiskStore::new(4);
    store.put_chunk(100, b"chunk one").unwrap();
    store.put_chunk(200, b"chunk two").unwrap();
    store.put_chunk(300, b"chunk three").unwrap();

    // Open again and recover
    let mut store = store.reopen(4);
    // Index is empty after open
    assert_eq!(store.store.chunk_count(), 0);

    store.recover_index(false);

    // Index should be rebuilt
    assert_eq!(store.store.chunk_count(), 3);

    // Verify we can read the chunks
    let (d1, _) = store.get_chunk(100).unwrap();
    let (d2, _) = store.get_chunk(200).unwrap();
    let (d3, _) = store.get_chunk(300).unwrap();

    assert_eq!(d1, b"chunk one");
    assert_eq!(d2, b"chunk two");
    assert_eq!(d3, b"chunk three");
}

#[test]
fn test_chunkstore_recover_index_updates_free_slots() {
    let mut store = DiskStore::new(4);
    store.put_chunk(1, b"a").unwrap();
    store.put_chunk(2, b"b").unwrap();

    let mut store = store.reopen(4);
    store.recover_index(false);

    // 4 slots, 2 used = 2 free
    assert_eq!(store.store.free_slots(), 2);
}

#[test]
fn test_chunkstore_recover_index_empty_file() {
    let mut store = DiskStore::new(4);
    store.recover_index(false);

    assert_eq!(store.store.chunk_count(), 0);
    assert_eq!(store.store.free_slots(), 4);
}

#[test]
fn test_chunkstore_recover_index_with_deleted_chunks() {
    let mut store = DiskStore::new(4);
    store.put_chunk(1, b"keep").unwrap();
    store.put_chunk(2, b"delete me").unwrap();
    store.put_chunk(3, b"also keep").unwrap();
    store.delete_chunk(2);

    let mut store = store.reopen(4);
    store.recover_index(false);

    // delete_chunk zeroes the header on disk, so recovery should only find 2 chunks
    assert_eq!(store.store.chunk_count(), 2);
}

#[test]
fn corrupt_data_is_found_by_a_full_recovery_only() {
    let mut store = DiskStore::new(2);
    store.put_chunk(1, b"sound").unwrap();
    store.put_chunk(2, b"spoiled").unwrap();
    let place = store.store.get_chunk(2).unwrap();
    store.disk[place.data_offset as usize] ^= 1;
    let refused = store.get_chunk(2).unwrap_err();
    assert_eq!(refused.kind(), ErrorKind::InvalidData);
    assert_eq!(
        refused.message,
        format!(
            "checksum mismatch for chunk 2: stored {:#X}, computed {:#X}",
            compute_checksum(b"spoiled"),
            compute_checksum(b"rpoiled")
        )
    );

    let report = store.recover_index(true);
    assert_eq!((report.recovered, report.corrupted), (2, 0));
    let report = store.recover_index(false);
    assert_eq!((report.recovered, report.corrupted), (1, 1));
    assert_eq!(store.store.free_slots(), 1);
    assert!(store.get_chunk(1).is_ok());
    assert_eq!(store.get_chunk(2).unwrap_err().kind(), ErrorKind::NotFound);
}

#[test]
fn a_bad_magic_is_told_in_hexadecimal() {
    let header = ChunkHeader { magic: 0xAB, id: 1, checksum: 0, data_len: 5 };
    assert_eq!(data_to_read(&header), 0);
    let refused = check_chunk(1, 7, &header, Vec::new()).unwrap_err();
    assert_eq!(
        refused.message,
        "invalid magic in chunk header for slot 7: expected 0x43484B01, got 0xAB"
    );
    assert_eq!(scan_header(&header, false), HeaderScan::Settled(SlotContent::Free));
    let long = ChunkHeader::new(1, 0, SLOT_DATA_SIZE as u32 + 1);
    assert_eq!(scan_header(&long, true), HeaderScan::Settled(SlotContent::Corrupt));
}

#[test]
fn a_failed_write_gives_its_slot_back() {
    let mut store = DiskStore::new(1);
    let write = store.store.put_chunk(1, b"lost").unwrap();
    assert_eq!(store.store.free_slots(), 0);
    store.store.clear_slot(write.slot);
    assert_eq!(store.store.free_slots(), 1);
    assert_eq!(store.get_chunk(1).unwrap_err().message, "Chunk not found");
}

#[test]
fn every_nth_write_is_synced() {
    let options = |n| ChunkStoreOptions {
        fsync_every_n_writes: n,
        fsync_on_delete: false,
        fast_recover: false,
    };
    let synced = |n| {
        let mut store = ChunkStore::open(Some(8), options(n));
        (0..6).map(|id| store.put_chunk(id, b"x").unwrap().fsync).collect::<Vec<bool>>()
    };
    assert_eq!(synced(Some(3)), vec![false, false, true, false, false, true]);
    assert_eq!(synced(Some(1)), vec![true; 6]);
    assert_eq!(synced(Some(0)), vec![false; 6]);
    assert_eq!(synced(None), vec![false; 6]);
    let mut store = ChunkStore::open(Some(1), options(None));
    let write = store.put_chunk(1, b"x").unwrap();
    store.commit_chunk(1, write.slot);
    assert!(!store.delete_chunk(1).unwrap().fsync);
}

#[test]
fn test_chunkstore_put_empty_data() {
    let mut store = DiskStore::new(1);

    store.put_chunk(1, b"").unwrap();

    let (data, checksum) = store.get_chunk(1).unwrap();
    assert!(data.is_empty());
    assert_eq!(checksum, 0); // CRC32 of empty is 0
}

#[test]
fn test_chunkstore_put_max_size_data() {
    let mut store = DiskStore::new(1);

    // Fill entire slot (minus header)
    let data = vec![0x42; SLOT_DATA_SIZE];
    store.put_chunk(1, &data).unwrap();

    let (retrieved, _) = store.get_chunk(1).unwrap();
    assert_eq!(retrieved.len(), SLOT_DATA_SIZE);
    assert_eq!(retrieved, data);
}

#[test]
fn test_chunkstore_multiple_operations_sequence() {
    let mut store = DiskStore::new(3);

    // Put, get, delete, put again sequence
    store.put_chunk(1, b"first").unwrap();
    let (d, _) = store.get_chunk(1).unwrap();
    assert_eq!(d, b"first");

    store.delete_chunk(1);
    assert!(store.get_chunk(1).is_err());

    store.put_chunk(2, b"second").unwrap();
    store.put_chunk(3, b"third").unwrap();

    let (d2, _) = store.get_chunk(2).unwrap();
    let (d3, _) = store.get_chunk(3).unwrap();
    assert_eq!(d2, b"second");
    assert_eq!(d3, b"third");
}

#[test]
fn test_find_slot_returns_unique_indices() {
    let mut store = DiskStore::new(3).store;

    let idx1 = store.find_slot().unwrap();
    let idx2 = store.find_slot().unwrap();
    let idx3 = store.find_slot().unwrap();

    // All should be different
    assert_ne!(idx1, idx2);
    assert_ne!(idx2, idx3);
    assert_ne!(idx1, idx3);

    // Should be in range
    assert!(idx1 < 3);
    assert!(idx2 < 3);
    assert!(idx3 < 3);
}

#[test]
fn test_find_slot_returns_none_when_full() {
    let mut store = DiskStore::new(2).store;

    store.find_slot().unwrap();
    store.find_slot().unwrap();

    assert!(store.find_slot().is_none());
}

#[test]
fn test_clear_slot_makes_slot_available() {
    let mut store = DiskStore::new(1).store;

    let idx = store.find_slot().unwrap();
    assert!(store.find_slot().is_none()); // Full

    store.clear_slot(idx);
    let idx2 = store.find_slot().unwrap();
    assert_eq!(idx, idx2); // Same slot reused
}

#[test]
fn sums_decide_what_a_slot_holds() {
    let header = ChunkHeader { magic: MAGIC, id: 9, checksum: 0x1234, data_len: 2 };
    assert_eq!(check_data_sum(&header, 0x1234), SlotContent::Chunk(9));
    assert_eq!(check_data_sum(&header, 0x1235), SlotContent::Corrupt);

    let read = check_chunk_sum(9, 1, &header, vec![5, 6], 0x1234);
    assert_eq!(read.unwrap(), (vec![5, 6], 0x1234));
    let read = check_chunk_sum(9, 1, &header, vec![5, 6], 0xABCD).unwrap_err();
    assert_eq!(read.kind, ErrorKind::InvalidData);
    assert_eq!(
        read.message,
        "checksum mismatch for chunk 9: stored 0x1234, computed 0xABCD"
    );
    let blank = ChunkHeader { magic: 0xF, ..header };
    let read = check_chunk_sum(9, 1, &blank, Vec::new(), 0x1234).unwrap_err();
    assert_eq!(
        read.message,
        "invalid magic in chunk header for slot 1: expected 0x43484B01, got 0xF"
    );
}
