//! A single-node worker: wire framing, the unit-of-work data model, file
//! localization planning, table ingestion planning and job sequencing.

pub mod codec;
pub mod db;
pub mod err;
pub mod file;
pub mod fixtures;
pub mod job;
pub mod protocol;
pub mod render;
pub mod scheduler;
pub mod text;
pub mod varint;
pub mod wire;
pub mod workload;
