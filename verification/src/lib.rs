//! A catalog of markdown documents in folders, and the decisions around a
//! search index over them.
//!
//! - [`service`] holds the catalog: folders and documents are created,
//!   renamed, moved and removed, and every operation says what has to happen
//!   on the file system and which events to publish. [`catalog`] says what
//!   each operation does to the rows, [`laws`] what holds of the operations
//!   taken together, [`listing`] what the listings give, and [`restore`] how
//!   a catalog is taken up from rows that were kept elsewhere.
//! - [`chunker`] cuts markdown into chunks, [`ideas`] and [`references`]
//!   read idea files, and [`indexer`] makes of both the chunks that the
//!   index holds.
//! - [`index_build`] is a full build of the index as a machine,
//!   [`file_indexing`] the update of one file,
//!   [`index_sync`] gathers the changes that the catalog publishes, and
//!   [`embedding`] and [`vector_store`] decide what is asked of the embedding
//!   service and of the vector store.
//!
//! Nothing here reads a clock, a file or a socket. Time, random bytes, file
//! contents and the answers of services are handed in as plain values.

pub mod catalog;
pub mod chunker;
pub mod config;
pub mod embedding;
pub mod error;
pub mod events;
pub mod file_indexing;
pub mod ideas;
pub mod index_build;
pub mod index_sync;
pub mod indexer;
pub mod laws;
pub mod listing;
pub mod locations;
pub mod model;
pub mod order;
pub mod paths;
pub mod references;
pub mod restore;
pub mod search_error;
pub mod seqs;
pub mod service;
pub mod split;
pub mod stable_id;
mod store;
pub mod text;
pub mod timestamps;
pub mod types;
pub mod vector_store;
