use std::collections::HashMap;

use base64::engine::general_purpose::STANDARD;
use base64::Engine;

use object_store::checksum::{compute_checksum, RunningChecksum};
use object_store::chunking::{join_chunks, split_into_chunks};
use object_store::delete_object::{DeleteObjectResponsePayload, DeleteStage, Deletion};
use object_store::dispatch::{content_type, get_form, put_form, GetForm, PutForm};
use object_store::encoding::can_encode;
use object_store::get_object::{
    Download, DownloadStream, GetObjectResponsePayload, GetStage, StreamOutStage,
};
use object_store::http_reply::{operation_labels, request_labels, HttpFailure};
use object_store::list_objects::{
    no_node, ListObjectsResponsePayload, ListStage, ObjectListing,
};
use object_store::messages::ChunkInfo;
use object_store::metadata_service::StorageMetadataImpl;
use object_store::metadata_store::MetaStorageNode;
use object_store::object_name::{validate_object_name, MAX_OBJECT_NAME_LENGTH};
use object_store::put_multipart::{StreamStage, StreamUpload};
use object_store::put_object::{
    PutObjectRequestPayload, PutObjectResponsePayload, PutStage, PutUpload, MAX_OBJECT_SIZE,
};
use object_store::read_chunk::{ChunkRead, EraseStage, ReadStage, ReplicaDelete};
use object_store::status::{Code, Status};

/// A metadata server and storage nodes, all in memory.
struct Backend {
    service: StorageMetadataImpl,
    nodes: HashMap<String, HashMap<u64, Vec<u8>>>,
    chunk_size: usize,
    /// What fails.
    broken: Vec<String>,
    waited: Vec<u64>,
}

impl Backend {
    fn new() -> Self {
        Self::with_chunk_size(256)
    }

    fn with_chunk_size(chunk_size: usize) -> Self {
        let mut backend = Backend {
            service: StorageMetadataImpl::construct_standalone(None),
            nodes: HashMap::new(),
            chunk_size,
            broken: Vec::new(),
            waited: Vec::new(),
        };
        backend.add_node("http://node1:3000");
        backend
    }

    fn add_node(&mut self, address: &str) -> u64 {
        self.nodes.insert(address.to_string(), HashMap::new());
        self.service.metadata_store.construct_storage_node(address.to_string()).unwrap()
    }

    fn works(&self, what: &str) -> Result<(), String> {
        if self.broken.iter().any(|b| b == what) {
            Err(format!("{} is broken", what))
        } else {
            Ok(())
        }
    }

    fn connect(&self, address: &str) -> Result<(), String> {
        self.works("connect")?;
        self.works(address)?;
        if self.nodes.contains_key(address) {
            Ok(())
        } else {
            Err("unknown address".to_string())
        }
    }

    fn addresses(&self) -> Result<Vec<String>, String> {
        self.works("list_nodes")?;
        let nodes = self.service.metadata_store.list_storage_nodes();
        Ok(nodes.iter().map(|n| n.address.clone()).collect())
    }

    fn create(&mut self, name: &str, checksum: u32) -> Result<(), Status> {
        let outcome = self.service.metadata_store.put_object(checksum, name.to_string());
        StorageMetadataImpl::put_object_answer(name, outcome)
    }

    fn allocate(&mut self, name: &str) -> Result<(u64, u64, String), String> {
        self.works("allocate")?;
        let outcome = self.service.metadata_store.allocate_chunk(name);
        match StorageMetadataImpl::allocate_chunk_answer(outcome) {
            Ok(r) => Ok((r.chunk_id, r.storage_node_id, r.storage_node_address)),
            Err(status) => Err(status.message),
        }
    }

    fn write(&mut self, address: &str, id: u64, bytes: &[u8]) -> Result<(), String> {
        self.works("write")?;
        self.nodes.get_mut(address).unwrap().insert(id, bytes.to_vec());
        Ok(())
    }

    fn confirm(&mut self, id: u64, name: &str, checksum: u32, node: u64) -> Result<(), String> {
        self.works("confirm")?;
        let outcome =
            self.service.metadata_store.confirm_chunk(id, name.to_string(), checksum, node);
        self.service
            .confirm_chunk_answer(id, name.to_string(), outcome)
            .map_err(|status| status.message)
    }

    fn remove(&mut self, name: &str) -> Result<(), Status> {
        let ids = self.service.chunk_ids_of(name);
        let outcome = self.service.metadata_store.delete_object(name.to_string());
        self.service.delete_object_answer(&ids, outcome)
    }

    fn put(&mut self, name: &str, bytes: &str) -> Result<PutObjectResponsePayload, HttpFailure> {
        let payload = PutObjectRequestPayload { bytes: bytes.to_string() };
        let mut upload = PutUpload::start(name.to_string(), &payload);
        loop {
            match upload.stage() {
                PutStage::ListNodes => match self.addresses() {
                    Ok(addresses) => upload.on_nodes(&addresses),
                    Err(e) => upload.on_failed(&e),
                },
                PutStage::ConnectFirst | PutStage::ConnectNode => {
                    match self.connect(upload.address()) {
                        Ok(()) => upload.on_connected(),
                        Err(e) => upload.on_failed(&e),
                    }
                }
                PutStage::GetChunkSize => match self.works("size") {
                    Ok(()) => upload.on_chunk_size(self.chunk_size),
                    Err(e) => upload.on_failed(&e),
                },
                PutStage::CreateObject => {
                    match self.create(upload.name(), upload.object_checksum()) {
                        Ok(()) => upload.on_created(),
                        Err(status) => upload.on_failed(&status.message),
                    }
                }
                PutStage::AllocateChunk => match self.allocate(upload.name()) {
                    Ok((id, node, address)) => upload.on_allocated(id, node, &address),
                    Err(e) => upload.on_failed(&e),
                },
                PutStage::WriteChunk => {
                    let bytes = upload.chunk_bytes().clone();
                    match self.write(upload.address(), upload.chunk_id(), &bytes) {
                        Ok(()) => upload.on_written(),
                        Err(e) => upload.on_failed(&e),
                    }
                }
                PutStage::ConfirmChunk => {
                    let (id, sum, node) =
                        (upload.chunk_id(), upload.chunk_checksum(), upload.node_id());
                    match self.confirm(id, upload.name(), sum, node) {
                        Ok(()) => upload.on_confirmed(),
                        Err(e) => upload.on_failed(&e),
                    }
                }
                PutStage::RollBack => {
                    self.remove(upload.name()).unwrap();
                    upload.on_rolled_back();
                }
                PutStage::Done | PutStage::Failed => return upload.answer(),
            }
        }
    }

    /// Stores the pieces of a stream; `None` stands for a field without name.
    fn put_form(
        &mut self,
        name: &str,
        fields: &[Option<&str>],
        pieces: &[&[u8]],
    ) -> Result<PutObjectResponsePayload, HttpFailure> {
        let mut upload = StreamUpload::start(name.to_string());
        let mut field = fields.iter();
        let mut piece = pieces.iter();
        loop {
            match upload.stage() {
                StreamStage::ListNodes => match self.addresses() {
                    Ok(addresses) => upload.on_nodes(&addresses),
                    Err(e) => upload.on_failed(&e),
                },
                StreamStage::ConnectFirst | StreamStage::ConnectNode => {
                    match self.connect(upload.address()) {
                        Ok(()) => upload.on_connected(),
                        Err(e) => upload.on_failed(&e),
                    }
                }
                StreamStage::GetChunkSize => match self.works("size") {
                    Ok(()) => upload.on_chunk_size(self.chunk_size),
                    Err(e) => upload.on_failed(&e),
                },
                StreamStage::CreateObject => match self.create(upload.name(), 0) {
                    Ok(()) => upload.on_created(),
                    Err(status) => upload.on_failed(&status.message),
                },
                StreamStage::NextField => match self.works("fields") {
                    Ok(()) => match field.next() {
                        Some(name) => upload.on_field(*name),
                        None => upload.on_no_field(),
                    },
                    Err(e) => upload.on_failed(&e),
                },
                StreamStage::ReadData => match self.works("stream") {
                    Ok(()) => match piece.next() {
                        Some(data) => upload.on_data(data),
                        None => upload.on_end(),
                    },
                    Err(e) => upload.on_failed(&e),
                },
                StreamStage::AllocateChunk => match self.allocate(upload.name()) {
                    Ok((id, node, address)) => upload.on_allocated(id, node, &address),
                    Err(e) => upload.on_failed(&e),
                },
                StreamStage::WriteChunk => {
                    let bytes = upload.chunk_bytes().clone();
                    match self.write(upload.address(), upload.chunk_id(), &bytes) {
                        Ok(()) => upload.on_written(),
                        Err(e) => upload.on_failed(&e),
                    }
                }
                StreamStage::ConfirmChunk => {
                    let (id, sum, node) =
                        (upload.chunk_id(), upload.chunk_checksum(), upload.node_id());
                    match self.confirm(id, upload.name(), sum, node) {
                        Ok(()) => upload.on_confirmed(),
                        Err(e) => upload.on_failed(&e),
                    }
                }
                StreamStage::UpdateChecksum => match self.works("update") {
                    Ok(()) => {
                        let (sum, size) = (upload.object_checksum(), upload.total_size());
                        self.service
                            .metadata_store
                            .update_object_checksum(upload.name(), sum, size)
                            .unwrap();
                        upload.on_updated();
                    }
                    Err(e) => upload.on_failed(&e),
                },
                StreamStage::RollBack => {
                    self.remove(upload.name()).unwrap();
                    upload.on_rolled_back();
                }
                StreamStage::Done | StreamStage::Failed => return upload.answer(),
            }
        }
    }

    fn read(&mut self, chunk: &ChunkInfo) -> Result<Vec<u8>, u64> {
        let mut read = ChunkRead::start(chunk);
        loop {
            match read.stage() {
                ReadStage::Connect => match self.connect(read.address()) {
                    Ok(()) => read.on_connected(),
                    Err(_) => read.on_failed(),
                },
                ReadStage::Read => match self.nodes[read.address()].get(&read.chunk_id()) {
                    Some(bytes) if self.works("read").is_ok() => read.on_read(bytes.clone()),
                    _ => read.on_failed(),
                },
                ReadStage::Wait => {
                    self.waited.push(read.delay());
                    read.on_waited();
                }
                ReadStage::Done | ReadStage::Exhausted => return read.into_result(),
            }
        }
    }

    fn get(&mut self, name: &str) -> Result<GetObjectResponsePayload, HttpFailure> {
        let mut download = Download::start(name.to_string());
        loop {
            match download.stage() {
                GetStage::GetMetadata => match self.service.get_object(name.to_string()) {
                    Ok(response) => download.on_object(response.chunks),
                    Err(status) => download.on_missing(&status.message),
                },
                GetStage::ReadChunks => {
                    let results = download.chunks().iter().map(|c| self.read(c)).collect();
                    download.on_chunks(results);
                }
                GetStage::Done | GetStage::Failed => return download.answer(),
            }
        }
    }

    fn stream(&mut self, name: &str) -> Result<Vec<Vec<u8>>, HttpFailure> {
        let mut sent = Vec::new();
        let mut download = DownloadStream::start(name.to_string());
        loop {
            match download.stage() {
                StreamOutStage::GetMetadata => match self.service.get_object(name.to_string()) {
                    Ok(response) => download.on_object(response.chunks),
                    Err(status) => download.on_missing(&status.message),
                },
                StreamOutStage::ReadChunk => {
                    let result = self.read(download.chunk());
                    sent.extend(download.on_chunk(result));
                }
                StreamOutStage::Done => return Ok(sent),
                StreamOutStage::Broken | StreamOutStage::Failed => {
                    return Err(download.failure().clone())
                }
            }
        }
    }

    fn list(&mut self) -> Result<Vec<ListObjectsResponsePayload>, HttpFailure> {
        let mut listing = ObjectListing::start();
        loop {
            match listing.stage() {
                ListStage::ListObjects => match self.works("list") {
                    Ok(()) => listing.on_objects(self.service.list_objects(None)),
                    Err(e) => listing.on_failed(&e),
                },
                ListStage::Connect => match self.connect(listing.address()) {
                    Ok(()) => listing.on_connected(),
                    Err(e) => listing.on_failed(&e),
                },
                ListStage::Read => match self.works("read") {
                    Ok(()) => {
                        let bytes = self.nodes[listing.address()][&listing.chunk_id()].clone();
                        listing.on_chunk(bytes);
                    }
                    Err(e) => listing.on_failed(&e),
                },
                ListStage::Done | ListStage::Failed => return listing.answer(),
            }
        }
    }

    fn erase(&mut self, id: u64, address: &str) -> bool {
        let mut erase = ReplicaDelete::start();
        loop {
            match erase.stage() {
                EraseStage::Connect => match self.connect(address) {
                    Ok(()) => erase.on_done(),
                    Err(_) => erase.on_failed(),
                },
                EraseStage::Delete => match self.works("erase") {
                    Ok(()) => {
                        self.nodes.get_mut(address).unwrap().remove(&id);
                        erase.on_done();
                    }
                    Err(_) => erase.on_failed(),
                },
                EraseStage::Wait => {
                    self.waited.push(erase.delay());
                    erase.on_done();
                }
                EraseStage::Deleted => return true,
                EraseStage::Failed => return false,
            }
        }
    }

    fn delete(&mut self, name: &str) -> Result<DeleteObjectResponsePayload, HttpFailure> {
        let mut deletion = Deletion::start(name.to_string());
        loop {
            match deletion.stage() {
                DeleteStage::GetObject => match self.service.get_object(name.to_string()) {
                    Ok(response) => deletion.on_object(response.chunks),
                    Err(status) => deletion.on_failed(status.code, &status.message),
                },
                DeleteStage::DeleteCopies => {
                    for (id, address) in deletion.targets() {
                        self.erase(id, &address);
                    }
                    deletion.on_copies();
                }
                DeleteStage::DeleteChunk => {
                    let id = deletion.chunk_id();
                    let outcome = self.service.metadata_store.delete_chunk(id);
                    match self.service.delete_chunk_answer(id, outcome) {
                        Ok(()) => deletion.on_done(),
                        Err(status) => deletion.on_failed(status.code, &status.message),
                    }
                }
                DeleteStage::DeleteObject => match self.remove(name) {
                    Ok(()) => deletion.on_done(),
                    Err(status) => deletion.on_failed(status.code, &status.message),
                },
                DeleteStage::Done | DeleteStage::Failed => return deletion.answer(),
            }
        }
    }

    fn has(&self, name: &str) -> bool {
        self.service.metadata_store.objects.contains_key(name)
    }
}

#[test]
fn handlers_test_compute_checksum_deterministic() {
    let data = b"hello world";
    let checksum1 = compute_checksum(data);
    let checksum2 = compute_checksum(data);
    assert_eq!(checksum1, checksum2);
}

#[test]
fn test_compute_checksum_different_data_produces_different_checksum() {
    let checksum1 = compute_checksum(b"hello");
    let checksum2 = compute_checksum(b"world");
    assert_ne!(checksum1, checksum2);
}

#[test]
fn handlers_test_compute_checksum_empty_data() {
    let checksum = compute_checksum(b"");
    assert_eq!(checksum, 0); // CRC32 of empty data
}

#[test]
fn test_compute_checksum_large_data() {
    let data = vec![0xABu8; 1024 * 1024]; // 1 MB
    let checksum = compute_checksum(&data);
    assert_ne!(checksum, 0);
}

#[test]
fn a_running_checksum_is_that_of_the_whole() {
    let mut running = RunningChecksum::new();
    assert_eq!(running.finalize(), 0);
    for piece in [&b"hel"[..], b"", b"lo wor", b"ld"] {
        running.update(piece);
    }
    assert_eq!(running.finalize(), compute_checksum(b"hello world"));
    assert_eq!(running.finalize(), 222957957);
}

#[test]
fn test_validate_object_name_valid() {
    assert!(validate_object_name("myobject").is_ok());
    assert!(validate_object_name("my-object").is_ok());
    assert!(validate_object_name("my_object").is_ok());
    assert!(validate_object_name("my.object").is_ok());
    assert!(validate_object_name("path/to/object").is_ok());
    assert!(validate_object_name("a").is_ok());
}

#[test]
fn test_validate_object_name_empty() {
    assert!(validate_object_name("").is_err());
}

#[test]
fn test_validate_object_name_too_long() {
    let long_name = "a".repeat(MAX_OBJECT_NAME_LENGTH + 1);
    assert!(validate_object_name(&long_name).is_err());

    let max_name = "a".repeat(MAX_OBJECT_NAME_LENGTH);
    assert!(validate_object_name(&max_name).is_ok());
}

#[test]
fn test_validate_object_name_invalid_characters() {
    assert!(validate_object_name("my object").is_err());
    assert!(validate_object_name("my@object").is_err());
    assert!(validate_object_name("my#object").is_err());
    assert!(validate_object_name("my object!").is_err());
}

#[test]
fn test_validate_object_name_slash_boundaries() {
    assert!(validate_object_name("/leading").is_err());
    assert!(validate_object_name("trailing/").is_err());
    assert!(validate_object_name("double//slash").is_err());
}

#[test]
fn names_are_measured_in_characters() {
    assert!(validate_object_name(&"\u{e9}".repeat(1024)).is_ok());
    assert_eq!(
        validate_object_name(&"\u{e9}".repeat(1025)).unwrap_err(),
        "object name must not exceed 1024 characters"
    );
    assert!(validate_object_name("\u{4e16}\u{754c}\u{0663}").is_ok());
    assert!(validate_object_name("\u{2013}").is_err());
}

#[test]
fn refused_names_are_told_why() {
    assert_eq!(validate_object_name("").unwrap_err(), "object name must not be empty");
    assert_eq!(
        validate_object_name("a b").unwrap_err(),
        "object name may only contain alphanumeric characters, hyphens, underscores, dots, and slashes"
    );
    assert_eq!(
        validate_object_name("/").unwrap_err(),
        "object name must not start or end with a slash"
    );
    assert_eq!(
        validate_object_name("a//b").unwrap_err(),
        "object name must not contain consecutive slashes"
    );
}

#[test]
fn test_base64_roundtrip_with_payload() {
    let mut backend = Backend::new();
    let original_data = b"hello world";
    let encoded = STANDARD.encode(original_data);

    backend.put("payload", &encoded).unwrap();
    let payload = backend.get("payload").unwrap();

    assert_eq!(payload.bytes, encoded);
    let decoded = STANDARD.decode(&payload.bytes).unwrap();
    assert_eq!(decoded, original_data);
}

#[test]
fn test_base64_with_binary_data() {
    let mut backend = Backend::new();
    // Test with non-UTF8 binary data
    let binary_data: Vec<u8> = (0..=255).collect();
    let encoded = STANDARD.encode(&binary_data);

    backend.put("payload", &encoded).unwrap();
    let payload = backend.get("payload").unwrap();
    let decoded = STANDARD.decode(&payload.bytes).unwrap();

    assert_eq!(decoded, binary_data);
}

#[test]
fn test_invalid_base64_fails_decode() {
    let payload = PutObjectRequestPayload { bytes: "not valid base64!!!".to_string() };
    let upload = PutUpload::start("payload".to_string(), &payload);
    assert_eq!(upload.stage(), PutStage::Failed);
    let reason = STANDARD.decode(&payload.bytes).unwrap_err();
    assert_eq!(
        upload.answer().unwrap_err().message,
        format!("invalid base64 encoding: {}", reason)
    );
}

#[test]
fn test_chunking_small_data_single_chunk() {
    let data = b"small data".to_vec();
    let chunk_size = 1024;

    let chunks: Vec<Vec<u8>> = split_into_chunks(&data, chunk_size);

    assert_eq!(chunks.len(), 1);
    assert_eq!(chunks[0], data);
}

#[test]
fn test_chunking_exact_multiple() {
    let data = vec![0u8; 1024]; // Exactly 1024 bytes
    let chunk_size = 512;

    let chunks: Vec<Vec<u8>> = split_into_chunks(&data, chunk_size);

    assert_eq!(chunks.len(), 2);
    assert_eq!(chunks[0].len(), 512);
    assert_eq!(chunks[1].len(), 512);
}

#[test]
fn test_chunking_with_remainder() {
    let data = vec![0u8; 1000];
    let chunk_size = 300;

    let chunks: Vec<Vec<u8>> = split_into_chunks(&data, chunk_size);

    assert_eq!(chunks.len(), 4);
    assert_eq!(chunks[0].len(), 300);
    assert_eq!(chunks[1].len(), 300);
    assert_eq!(chunks[2].len(), 300);
    assert_eq!(chunks[3].len(), 100); // Remainder
}

#[test]
fn test_chunking_reassembly() {
    let original = b"the quick brown fox jumps over the lazy dog".to_vec();
    let chunk_size = 10;

    let chunks: Vec<Vec<u8>> = split_into_chunks(&original, chunk_size);

    // Reassemble
    let mut reassembled = Vec::new();
    for chunk in &chunks {
        reassembled.extend_from_slice(chunk);
    }

    assert_eq!(reassembled, original);
    assert_eq!(join_chunks(&chunks), original);
    assert!(split_into_chunks(&Vec::new(), chunk_size).is_empty());
}

#[test]
fn test_checksum_consistent_across_chunking() {
    let data = b"test data for checksum verification".to_vec();
    let original_checksum = compute_checksum(&data);

    // Chunk and compute individual checksums
    let chunks: Vec<Vec<u8>> = split_into_chunks(&data, 10);
    let chunk_checksums: Vec<u32> = chunks.iter().map(|c| compute_checksum(c)).collect();

    // Reassemble and verify
    let reassembled = join_chunks(&chunks);
    let reassembled_checksum = compute_checksum(&reassembled);

    assert_eq!(original_checksum, reassembled_checksum);

    // Individual chunk checksums should be different from whole
    for chunk_checksum in chunk_checksums {
        assert_ne!(chunk_checksum, original_checksum);
    }
}

#[test]
fn test_put_object_success() {
    let mut backend = Backend::new();
    let data = b"hello world";
    let encoded = STANDARD.encode(data);

    let result = backend.put("test-object", &encoded);

    assert!(result.is_ok());
    let response = result.unwrap();
    assert_eq!(response.msg, "upload complete");
    assert_eq!(response.decoded_bytes_len, data.len());

    // Verify object was stored in the metadata
    assert!(backend.has("test-object"));
    let object = backend.service.metadata_store.get_object("test-object".to_string()).unwrap();
    assert_eq!(object.checksum, compute_checksum(data));
}

#[test]
fn test_put_object_invalid_base64() {
    let mut backend = Backend::new();

    let result = backend.put("test-object", "not valid base64!!!");

    assert!(result.is_err());
    let failure = result.unwrap_err();
    assert_eq!(failure.status, 400);
    assert!(failure.message.contains("invalid base64"));
    assert!(failure.counted);
}

#[test]
fn test_put_object_no_storage_nodes() {
    let mut backend = Backend::new();
    // Clear storage nodes
    backend.service.metadata_store.storage_nodes.clear();

    let encoded = STANDARD.encode(b"data");

    let result = backend.put("test-object", &encoded);

    assert!(result.is_err());
    let failure = result.unwrap_err();
    assert_eq!(failure.status, 500);
    assert!(failure.message.contains("no storage nodes"));
}

#[test]
fn test_put_object_duplicate_name() {
    let mut backend = Backend::new();
    let encoded = STANDARD.encode(b"data");

    // First PUT should succeed
    let result1 = backend.put("duplicate-object", &encoded);
    assert!(result1.is_ok());

    // Second PUT with same name should fail
    let result2 = backend.put("duplicate-object", &encoded);

    assert!(result2.is_err());
    let failure = result2.unwrap_err();
    assert_eq!(failure.status, 409);
    assert_eq!(failure.message, "object name already used");
}

#[test]
fn data_is_buffered_until_a_chunk_is_full() {
    assert_eq!(MAX_OBJECT_SIZE, 10 * 1024 * 1024 * 1024);
    let mut upload = StreamUpload::start("large".to_string());
    upload.on_nodes(&vec!["a".to_string()]);
    upload.on_connected();
    upload.on_chunk_size(1 << 40);
    upload.on_created();
    upload.on_field(Some("file"));
    let piece = vec![7u8; 1 << 20];
    for _ in 0..4 {
        upload.on_data(&piece);
    }
    assert_eq!(upload.stage(), StreamStage::ReadData);
    assert_eq!(upload.total_size(), 4 << 20);
    assert_eq!(upload.object_checksum(), compute_checksum(&vec![7u8; 4 << 20]));
}

/// Bytes that are never touched, if there is room for so many.
fn untouched_bytes(len: usize) -> Option<Vec<u8>> {
    let mut room: Vec<u8> = Vec::new();
    if room.try_reserve_exact(len).is_err() {
        return None;
    }
    drop(room);
    Some(vec![0u8; len])
}

#[test]
fn one_byte_too_many_is_refused() {
    let Some(data) = untouched_bytes(MAX_OBJECT_SIZE as usize + 1) else {
        return;
    };
    let mut upload = StreamUpload::start("large".to_string());
    upload.on_nodes(&vec!["a".to_string()]);
    upload.on_connected();
    upload.on_chunk_size(8);
    upload.on_created();
    upload.on_field(Some("file"));
    upload.on_data(&data);
    assert_eq!(upload.stage(), StreamStage::RollBack);
    upload.on_rolled_back();
    let failure = upload.answer().unwrap_err();
    assert_eq!(
        (failure.status, failure.message.as_str()),
        (413, "object exceeds maximum size 10737418240")
    );

    let upload = PutUpload::start_decoded("large".to_string(), Ok(data));
    let failure = upload.answer().unwrap_err();
    assert_eq!((failure.status, failure.counted), (413, true));
    assert_eq!(
        failure.message,
        "object size 10737418241 exceeds maximum allowed size 10737418240"
    );
}

#[test]
fn failed_uploads_are_told_why_and_rolled_back() {
    let encoded = STANDARD.encode([1u8; 600]);
    let cases = [
        ("list_nodes", 500, "no storage nodes found: list_nodes is broken", true),
        ("size", 500, "could not get chunk size: size is broken", true),
        ("allocate", 500, "could not allocate chunk", false),
    ];
    for (broken, status, message, counted) in cases {
        let mut backend = Backend::new();
        backend.broken.push(broken.to_string());
        let failure = backend.put("o", &encoded).unwrap_err();
        assert_eq!((failure.status, failure.message.as_str()), (status, message));
        assert_eq!(failure.counted, counted);
        assert!(!backend.has("o"));
    }
    for broken in ["write", "confirm"] {
        let mut backend = Backend::new();
        backend.broken.push(broken.to_string());
        let failure = backend.put("o", &encoded).unwrap_err();
        assert!(failure.message.starts_with(&format!("could not {} chunk ", broken)));
        let ending = format!(" in object o: {} is broken", broken);
        assert!(failure.message.ends_with(&ending));
        assert!(!backend.has("o"));
    }
    let mut backend = Backend::new();
    backend.broken.push("http://node1:3000".to_string());
    let failure = backend.put("o", &encoded).unwrap_err();
    assert_eq!(
        failure.message,
        "could not connect to storage node http://node1:3000: http://node1:3000 is broken"
    );
    assert!(!failure.counted);
}

#[test]
fn an_unreachable_node_leaves_the_object_behind() {
    let payload = PutObjectRequestPayload { bytes: STANDARD.encode([1u8; 10]) };
    let mut upload = PutUpload::start("o".to_string(), &payload);
    upload.on_nodes(&vec!["a".to_string()]);
    upload.on_connected();
    upload.on_chunk_size(4);
    upload.on_created();
    upload.on_allocated(1, 2, "b");
    assert_eq!(upload.chunk_bytes(), &vec![1u8; 4]);
    upload.on_failed("gone");
    assert_eq!(upload.stage(), PutStage::Failed);
    assert_eq!(
        upload.answer().unwrap_err().message,
        "could not connect to storage node b: gone"
    );
}

#[test]
fn unasked_outcomes_change_nothing() {
    let payload = PutObjectRequestPayload { bytes: STANDARD.encode(b"x") };
    let mut upload = PutUpload::start("o".to_string(), &payload);
    upload.on_written();
    upload.on_confirmed();
    upload.on_allocated(1, 1, "a");
    upload.on_rolled_back();
    assert_eq!(upload.stage(), PutStage::ListNodes);
}

#[test]
fn empty_objects_have_no_chunks() {
    let mut backend = Backend::new();
    assert_eq!(backend.put("empty", "").unwrap().decoded_bytes_len, 0);
    assert!(backend.service.chunk_ids_of("empty").is_empty());
    assert_eq!(backend.get("empty").unwrap().bytes, "");
    assert!(backend.stream("empty").unwrap().is_empty());
}

#[test]
fn test_get_object_success() {
    let mut backend = Backend::new();
    let data = b"hello world";
    let encoded = STANDARD.encode(data);

    // First, PUT the object
    let put_result = backend.put("get-test-object", &encoded);
    assert!(put_result.is_ok());

    // Now GET it
    let get_result = backend.get("get-test-object");

    assert!(get_result.is_ok());
    let response = get_result.unwrap();
    // Decode and verify the data matches
    let decoded = STANDARD.decode(&response.bytes).unwrap();
    assert_eq!(decoded, data);
}

#[test]
fn handlers_test_get_object_not_found() {
    let mut backend = Backend::new();

    let result = backend.get("nonexistent-object");

    assert!(result.is_err());
    let failure = result.unwrap_err();
    assert_eq!(failure.status, 404);
    assert_eq!(
        failure.message,
        "could not get object nonexistent-object: object not found"
    );
}

#[test]
fn reads_try_every_node_with_repeats() {
    let mut backend = Backend::new();
    backend.put("o", &STANDARD.encode(b"data")).unwrap();
    let id = backend.service.chunk_ids_of("o")[0];
    let second = backend.add_node("http://node2:3000");
    backend.service.metadata_store.add_chunk_replica(id, second).unwrap();
    backend.nodes.get_mut("http://node2:3000").unwrap().insert(id, b"data".to_vec());

    backend.broken.push("http://node1:3000".to_string());
    assert_eq!(backend.get("o").unwrap().bytes, STANDARD.encode(b"data"));
    assert!(backend.waited.is_empty());

    backend.broken = vec!["read".to_string()];
    let failure = backend.get("o").unwrap_err();
    assert_eq!(failure.status, 500);
    assert_eq!(
        failure.message,
        format!("could not read chunk {} from any storage node", id)
    );
    assert_eq!(backend.waited, vec![100, 500, 100, 500]);
    let failure = backend.stream("o").unwrap_err();
    assert_eq!(
        failure.message,
        format!("could not read chunk {} from any storage node", id)
    );
}

#[test]
fn test_delete_object_success() {
    let mut backend = Backend::new();
    let encoded = STANDARD.encode(b"data to delete");

    // First, PUT the object
    let put_result = backend.put("delete-test-object", &encoded);
    assert!(put_result.is_ok());

    // Delete it
    let delete_result = backend.delete("delete-test-object");

    assert!(delete_result.is_ok());
    let response = delete_result.unwrap();
    assert_eq!(response.msg, "object deleted");

    // Verify object is gone
    assert!(!backend.has("delete-test-object"));
    assert!(backend.nodes["http://node1:3000"].is_empty());
    assert_eq!(backend.service.chunk_index.len(), 0);
}

#[test]
fn handlers_test_delete_object_not_found() {
    let mut backend = Backend::new();

    let result = backend.delete("nonexistent-delete-object");

    assert!(result.is_err());
    let failure = result.unwrap_err();
    assert_eq!(failure.status, 404);
    assert_eq!(failure.message, "object not found");
}

#[test]
fn copies_that_cannot_be_deleted_do_not_stop_a_deletion() {
    let mut backend = Backend::with_chunk_size(4);
    backend.put("o", &STANDARD.encode(b"twelve bytes")).unwrap();
    backend.broken.push("erase".to_string());
    assert!(backend.delete("o").is_ok());
    assert!(!backend.has("o"));
    assert_eq!(backend.waited, vec![100, 500, 100, 500, 100, 500]);
    assert_eq!(backend.nodes["http://node1:3000"].len(), 3);

    let mut deletion = Deletion::start("o".to_string());
    deletion.on_failed(Code::Unavailable, "down");
    let failure = deletion.answer().unwrap_err();
    assert_eq!((failure.status, failure.message.as_str()), (404, "could not get object: down"));

    let mut deletion = Deletion::start("o".to_string());
    deletion.on_object(Vec::new());
    deletion.on_copies();
    deletion.on_failed(Code::Internal, "broken");
    let failure = deletion.answer().unwrap_err();
    assert_eq!(
        (failure.status, failure.message.as_str()),
        (500, "could not delete object: broken")
    );
    assert_eq!(Deletion::start("a b".to_string()).answer().unwrap_err().status, 400);
}

#[test]
fn handlers_test_list_objects_empty() {
    let mut backend = Backend::new();

    let result = backend.list();

    assert!(result.is_ok());
    let response = result.unwrap();
    assert!(response.is_empty());
}

#[test]
fn test_list_objects_with_objects() {
    let mut backend = Backend::new();

    // Create two objects
    let _ = backend.put("object1", &STANDARD.encode(b"data1"));
    let _ = backend.put("object2", &STANDARD.encode(b"data2"));

    let result = backend.list();

    assert!(result.is_ok());
    let response = result.unwrap();
    assert_eq!(response.len(), 2);

    let names: Vec<&str> = response.iter().map(|o| o.name.as_str()).collect();
    assert!(names.contains(&"object1"));
    assert!(names.contains(&"object2"));
    for object in &response {
        assert_eq!(object.chunks.len(), 1);
        assert_eq!(object.chunks[0].node_address, "http://node1:3000");
        let data = object.name.replace("object", "data");
        assert_eq!(object.chunks[0].bytes, STANDARD.encode(data));
    }
}

#[test]
fn failed_listings_are_told_why() {
    let mut backend = Backend::new();
    backend.put("o", &STANDARD.encode(b"data")).unwrap();
    let id = backend.service.chunk_ids_of("o")[0];

    backend.broken = vec!["list".to_string()];
    let failure = backend.list().unwrap_err();
    assert_eq!(failure.message, "could not list objects: list is broken");
    assert!(failure.counted);

    backend.broken = vec!["read".to_string()];
    let failure = backend.list().unwrap_err();
    assert_eq!(
        failure.message,
        format!("could not read chunk {} from storage nodes: read is broken", id)
    );
    assert!(!failure.counted);

    backend.broken = vec!["connect".to_string()];
    let failure = backend.list().unwrap_err();
    let inner = format!("no storage node for chunk {}: connect is broken", id);
    assert_eq!(
        failure.message,
        format!("could not read chunk {} from storage nodes: {:?}", id, (500, inner))
    );

    backend.broken.clear();
    backend.service.metadata_store.storage_nodes.clear();
    let failure = backend.list().unwrap_err();
    assert_eq!(failure.message, format!("chunk {} has no storage nodes", id));
}

#[test]
fn listings_quote_what_cannot_be_printed() {
    let mut listing = ObjectListing::start();
    listing.on_objects(vec![object_store::messages::ObjectInfo {
        name: "o".to_string(),
        checksum: 0,
        chunks: vec![ChunkInfo {
            id: 3,
            checksum: 0,
            storage_nodes: vec![MetaStorageNode { id: 1, address: "a".to_string() }],
        }],
        total_size: 0,
    }]);
    listing.on_failed("\"no\"\n");
    let inner = "no storage node for chunk 3: \"no\"\n";
    assert_eq!(
        listing.answer().unwrap_err().message,
        format!("could not read chunk 3 from storage nodes: (500, {:?})", inner)
    );
}

#[test]
fn listings_take_encoded_chunks() {
    let mut listing = ObjectListing::start();
    listing.on_encoded("early".to_string());
    assert_eq!(listing.stage(), ListStage::ListObjects);
    listing.on_objects(vec![object_store::messages::ObjectInfo {
        name: "o".to_string(),
        checksum: 0,
        chunks: vec![ChunkInfo {
            id: 3,
            checksum: 0,
            storage_nodes: vec![MetaStorageNode { id: 1, address: "a".to_string() }],
        }],
        total_size: 0,
    }]);
    listing.on_connected();
    listing.on_encoded("Zm9v".to_string());
    let listed = listing.answer().unwrap();
    assert_eq!(listed.len(), 1);
    assert_eq!(listed[0].chunks[0].bytes, "Zm9v");
    assert_eq!(listed[0].chunks[0].node_address, "a");
    assert_eq!(
        no_node(7, "\"why\""),
        "could not read chunk 7 from storage nodes: (500, \"why\")"
    );
}

#[test]
fn test_put_get_delete_roundtrip() {
    let mut backend = Backend::new();
    let original_data = b"the quick brown fox jumps over the lazy dog";
    let encoded = STANDARD.encode(original_data);

    // PUT
    let put_result = backend.put("roundtrip-object", &encoded);
    assert!(put_result.is_ok());

    // GET
    let get_result = backend.get("roundtrip-object");
    assert!(get_result.is_ok());
    let retrieved = STANDARD.decode(&get_result.unwrap().bytes).unwrap();
    assert_eq!(retrieved, original_data);

    // DELETE
    let delete_result = backend.delete("roundtrip-object");
    assert!(delete_result.is_ok());

    // GET should now fail
    let get_after_delete = backend.get("roundtrip-object");
    assert!(get_after_delete.is_err());
}

#[test]
fn test_get_object_stream_success() {
    let mut backend = Backend::new();
    let data = b"hello streaming world";
    let encoded = STANDARD.encode(data);

    // PUT in one piece
    let put_result = backend.put("stream-get-test", &encoded);
    assert!(put_result.is_ok());

    // GET as a stream
    let get_result = backend.stream("stream-get-test");

    assert!(get_result.is_ok());
    assert_eq!(get_result.unwrap().concat(), data);
}

#[test]
fn test_get_object_stream_not_found() {
    let mut backend = Backend::new();

    let result = backend.stream("nonexistent");

    assert!(result.is_err());
    let failure = result.unwrap_err();
    assert_eq!(failure.status, 404);
}

#[test]
fn test_get_object_stream_multi_chunk() {
    let mut backend = Backend::new();

    let data = vec![0xABu8; 1024]; // 1KB object
    let encoded = STANDARD.encode(&data);

    let put_result = backend.put("multi-chunk-stream", &encoded);
    assert!(put_result.is_ok());

    let get_result = backend.stream("multi-chunk-stream");

    assert!(get_result.is_ok());
    let sent = get_result.unwrap();
    assert_eq!(sent.len(), 4);
    assert_eq!(sent.concat(), data);
}

#[test]
fn streamed_uploads_store_the_same_chunks() {
    let data: Vec<u8> = (0..1000).map(|i| (i * 7 % 251) as u8).collect();
    for cut in [1, 13, 256, 300, 999] {
        let mut backend = Backend::new();
        let pieces: Vec<&[u8]> = data.chunks(cut).collect();
        let fields = [Some("note"), None, Some("file")];
        let response = backend.put_form("o", &fields, &pieces).unwrap();
        assert_eq!(response.msg, "upload complete");
        assert_eq!(response.decoded_bytes_len, 1000);
        let object = backend.service.metadata_store.get_object("o".to_string()).unwrap();
        assert_eq!(object.checksum, compute_checksum(&data));
        assert_eq!(object.total_size, 1000);
        assert_eq!(backend.stream("o").unwrap(), split_into_chunks(&data, 256));
        assert_eq!(backend.get("o").unwrap().bytes, STANDARD.encode(&data));
    }
}

#[test]
fn failed_streams_are_told_why_and_rolled_back() {
    let cases = [
        ("list_nodes", 500, "no storage nodes found: list_nodes is broken"),
        ("connect", 500, "could not connect to storage node: connect is broken"),
        ("size", 500, "could not get chunk size: size is broken"),
        ("fields", 400, "multipart error: fields is broken"),
        ("stream", 400, "stream read error: stream is broken"),
        ("allocate", 500, "could not allocate chunk: allocate is broken"),
        ("write", 500, "could not write chunk: write is broken"),
        ("confirm", 500, "could not confirm chunk: confirm is broken"),
        ("update", 500, "could not update object checksum: update is broken"),
    ];
    for (broken, status, message) in cases {
        let mut backend = Backend::new();
        backend.broken.push(broken.to_string());
        let failure = backend.put_form("o", &[Some("file")], &[&[1u8; 600]]).unwrap_err();
        assert_eq!((failure.status, failure.message.as_str()), (status, message));
        assert!(!backend.has("o"), "{}", broken);
    }
    let mut backend = Backend::new();
    let failure = backend.put_form("o", &[Some("files"), None], &[]).unwrap_err();
    assert_eq!(
        (failure.status, failure.message.as_str()),
        (400, "missing 'file' field in multipart request")
    );
    assert!(!backend.has("o"));
    backend.put_form("o", &[Some("file")], &[]).unwrap();
    assert!(backend.has("o"));
    let failure = backend.put_form("o", &[Some("file")], &[]).unwrap_err();
    assert_eq!((failure.status, failure.counted), (409, true));
    assert!(backend.has("o"));
    let failure = backend.put_form("a b", &[Some("file")], &[]).unwrap_err();
    assert_eq!((failure.status, failure.counted), (400, true));
    backend.service.metadata_store.storage_nodes.clear();
    let failure = backend.put_form("p", &[Some("file")], &[]).unwrap_err();
    assert_eq!(failure.message, "no storage nodes found");
    assert!(!failure.counted);
}

#[test]
fn test_get_dispatch_json_accept() {
    let mut backend = Backend::new();
    let data = b"dispatch test data";
    backend.put("dispatch-get-json", &STANDARD.encode(data)).unwrap();

    // GET with Accept: application/json should return JSON response
    assert_eq!(get_form("application/json"), GetForm::Json);
    assert_eq!(get_form("text/html, application/json;q=0.9"), GetForm::Json);
    assert_eq!(backend.get("dispatch-get-json").unwrap().bytes, STANDARD.encode(data));
}

#[test]
fn test_get_dispatch_stream_default() {
    let mut backend = Backend::new();
    let data = b"stream dispatch test";
    backend.put("dispatch-get-stream", &STANDARD.encode(data)).unwrap();

    // GET without Accept header should return streaming binary
    assert_eq!(get_form(""), GetForm::Stream);
    assert_eq!(get_form("*/*"), GetForm::Stream);
    assert_eq!(get_form("application/jso"), GetForm::Stream);
    assert_eq!(backend.stream("dispatch-get-stream").unwrap().concat(), data);
}

#[test]
fn test_put_dispatch_json_content_type() {
    let mut backend = Backend::new();
    let data = b"json upload";

    assert_eq!(put_form("application/json"), PutForm::Json);
    assert_eq!(put_form(""), PutForm::Json);
    assert_eq!(put_form("multipart/form-data; boundary=x"), PutForm::Multipart);
    assert_eq!(put_form("x multipart/form-data"), PutForm::Json);
    let result = backend.put("dispatch-put-json", &STANDARD.encode(data));

    assert!(result.is_ok());

    // Verify the object was stored
    assert!(backend.has("dispatch-put-json"));
}

#[test]
fn requests_are_counted_by_status() {
    let labels = request_labels("PUT", "object", 409);
    assert_eq!(labels.method, "PUT");
    assert_eq!(labels.endpoint, "object");
    assert_eq!(labels.status, "409");
    assert_eq!(operation_labels("put_object").operation, "put_object");
}

#[test]
fn objects_are_given_out_under_their_content_type() {
    assert_eq!(content_type(get_form("application/json")), "application/json");
    assert_eq!(content_type(get_form("*/*")), "application/octet-stream");
}

#[test]
fn texts_that_fit_in_memory_can_be_encoded() {
    let most = isize::MAX as usize / 4 * 3;
    assert!(can_encode(0));
    assert!(can_encode(most));
    assert!(!can_encode(most + 1));
}

/// Reads a chunk of three nodes, of which node `n` is reached where `reached`
/// says so and gives its index from the try `gives[n]` on.
fn read_from(reached: [bool; 3], gives: [usize; 3]) -> (Result<Vec<u8>, u64>, usize) {
    let chunk = ChunkInfo {
        id: 5,
        checksum: 0,
        storage_nodes: (0..3u64)
            .map(|id| MetaStorageNode { id, address: id.to_string() })
            .collect(),
    };
    let mut read = ChunkRead::start(&chunk);
    let mut tries = [0usize; 3];
    let mut steps = 0;
    loop {
        match read.stage() {
            ReadStage::Connect => {
                let n: usize = read.address().parse().unwrap();
                if reached[n] {
                    read.on_connected();
                } else {
                    read.on_failed();
                }
            }
            ReadStage::Read => {
                let n: usize = read.address().parse().unwrap();
                let t = tries[n];
                tries[n] += 1;
                if t >= gives[n] {
                    read.on_read(vec![n as u8]);
                } else {
                    read.on_failed();
                }
            }
            ReadStage::Wait => read.on_waited(),
            ReadStage::Done | ReadStage::Exhausted => return (read.into_result(), steps),
        }
        steps += 1;
    }
}

#[test]
fn the_first_node_that_answers_in_time_counts() {
    assert_eq!(read_from([true, true, true], [0, 0, 0]), (Ok(vec![0]), 2));
    assert_eq!(read_from([true, true, true], [2, 0, 0]), (Ok(vec![0]), 6));
    assert_eq!(read_from([true, true, true], [3, 1, 0]), (Ok(vec![1]), 10));
    assert_eq!(read_from([false, false, true], [0, 0, 0]), (Ok(vec![2]), 4));
    assert_eq!(read_from([true, true, true], [3, 3, 3]), (Err(5), 18));
    assert_eq!(read_from([false, false, false], [0, 0, 0]), (Err(5), 3));
}

#[test]
fn listings_name_the_node_that_was_reached() {
    let mut listing = ObjectListing::start();
    listing.on_objects(vec![object_store::messages::ObjectInfo {
        name: "o".to_string(),
        checksum: 0,
        chunks: vec![ChunkInfo {
            id: 3,
            checksum: 0,
            storage_nodes: vec![
                MetaStorageNode { id: 1, address: "a".to_string() },
                MetaStorageNode { id: 2, address: "b".to_string() },
            ],
        }],
        total_size: 0,
    }]);
    listing.on_failed("refused");
    assert_eq!(listing.address(), "b");
    listing.on_connected();
    listing.on_chunk(b"foo".to_vec());
    let listed = listing.answer().unwrap();
    assert_eq!(listed[0].chunks[0].id, 3);
    assert_eq!(listed[0].chunks[0].node_address, "b");
    assert_eq!(listed[0].chunks[0].bytes, "Zm9v");
}

/// Deletes a copy from a node that gives it up at the try `deletes`, if it is
/// reached; tells the end, how often it was asked, and the waits.
fn erase_from(reached: bool, deletes: usize) -> (EraseStage, usize, Vec<u64>) {
    let mut erase = ReplicaDelete::start();
    let mut asked = 0;
    let mut waits = Vec::new();
    loop {
        match erase.stage() {
            EraseStage::Connect if reached => erase.on_done(),
            EraseStage::Connect => erase.on_failed(),
            EraseStage::Delete => {
                asked += 1;
                if asked > deletes {
                    erase.on_done();
                } else {
                    erase.on_failed();
                }
            }
            EraseStage::Wait => {
                waits.push(erase.delay());
                erase.on_done();
            }
            end => return (end, asked, waits),
        }
    }
}

#[test]
fn copies_are_deleted_within_three_tries() {
    assert_eq!(erase_from(true, 0), (EraseStage::Deleted, 1, vec![]));
    assert_eq!(erase_from(true, 1), (EraseStage::Deleted, 2, vec![100]));
    assert_eq!(erase_from(true, 2), (EraseStage::Deleted, 3, vec![100, 500]));
    assert_eq!(erase_from(true, 3), (EraseStage::Failed, 3, vec![100, 500]));
    assert_eq!(erase_from(false, 0), (EraseStage::Failed, 0, vec![]));
}

#[test]
fn deletions_go_by_their_plan() {
    let chunk = |id: u64, addresses: &[&str]| ChunkInfo {
        id,
        checksum: 0,
        storage_nodes: addresses
            .iter()
            .map(|a| MetaStorageNode { id: 1, address: a.to_string() })
            .collect(),
    };
    let mut deletion = Deletion::start("o".to_string());
    let mut asked = Vec::new();
    loop {
        match deletion.stage() {
            DeleteStage::GetObject => {
                asked.push(format!("find {}", deletion.name()));
                deletion.on_object(vec![chunk(4, &["a", "b"]), chunk(2, &["a"])]);
            }
            DeleteStage::DeleteCopies => {
                for (id, address) in deletion.targets() {
                    asked.push(format!("copy {} {}", id, address));
                }
                deletion.on_copies();
            }
            DeleteStage::DeleteChunk => {
                asked.push(format!("chunk {}", deletion.chunk_id()));
                deletion.on_failed(Code::Internal, "no");
            }
            DeleteStage::DeleteObject => {
                asked.push(format!("object {}", deletion.name()));
                deletion.on_done();
            }
            DeleteStage::Done | DeleteStage::Failed => break,
        }
    }
    assert_eq!(
        asked,
        vec!["find o", "copy 4 a", "copy 4 b", "copy 2 a", "chunk 4", "chunk 2", "object o"]
    );
    assert_eq!(deletion.answer().unwrap().msg, "object deleted");
}
