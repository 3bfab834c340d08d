//! An object store whose rules are proved: placement of objects on a hash
//! ring, the metadata of objects and chunks, the slot layout of a chunk file,
//! and the request protocols that tie gateway, metadata servers and storage
//! nodes together.
pub mod text;
pub mod text_laws;
pub mod name_map;
pub mod hash_ring;
pub mod checksum;
pub mod metadata_store;
pub mod random;
pub mod status;
pub mod tables;
pub mod selection;
pub mod store_laws;
pub mod record_laws;
pub mod chunk_header;
pub mod chunk_store;
pub mod chunk_disk;
pub mod slot_laws;
pub mod chunking;
pub mod http_reply;
pub mod object_name;
pub mod encoding;
pub mod put_object;
pub mod put_multipart;
pub mod connect;
pub mod replication;
pub mod cycle_laws;
pub mod retry;
pub mod chunk_index;
pub mod cluster;
pub mod membership_laws;
pub mod forwarding;
pub mod messages;
pub mod metadata_service;
pub mod cluster_service;
pub mod answer_laws;
pub mod migration;
pub mod handover_laws;
pub mod delete_object;
pub mod dispatch;
pub mod get_object;
pub mod list_objects;
pub mod read_chunk;
pub mod node_config;
pub mod node_service;
pub mod settings;
pub mod settings_laws;
pub mod round_trip;
pub mod gateway_laws;
pub mod view_laws;
