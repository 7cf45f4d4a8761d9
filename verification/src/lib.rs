//! Verified core of a hot-memory proxy: slot routing, long-term memory
//! compilation and maintenance decisions, and the text they produce.

pub mod ai_processor;
pub mod clock;
pub mod config;
pub mod cypher;
pub mod ingest;
pub mod janitor;
pub mod memory_compiler;
pub mod models;
pub mod slot_manager;
pub mod text;
