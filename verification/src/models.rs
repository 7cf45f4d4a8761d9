//! Data carried between the ingestion API, the hot-memory slots and the
//! long-term memory stores.
use vstd::prelude::*;

verus! {

/// Request payload for ingesting a log entry: where it came from and the raw content.
/// Topic and summary are derived by the AI processor.
#[derive(Debug, Clone, PartialEq, Eq)]
pub struct IngestLogRequest {
    /// e.g. "ocr", "memos", "voice"
    pub source: String,
    /// raw, unprocessed data
    pub content: String,
}

/// Result of AI processing: extracted topic and summarized content.
#[derive(Debug, Clone, PartialEq, Eq)]
pub struct AiProcessedResult {
    pub topic: String,
    pub summary: String,
}

/// A timeline entry of a slot; `timestamp` is in Unix seconds.
#[derive(Debug, Clone, PartialEq, Eq)]
pub struct TimelineEntry {
    pub timestamp: i64,
    pub source: String,
    pub content: String,
}

/// Metadata of a slot; `last_updated` is in Unix seconds.
#[derive(Debug, Clone, PartialEq, Eq)]
pub struct SlotMeta {
    pub topic: String,
    pub focused_file: String,
    pub last_updated: i64,
}

/// A single triple extracted by the memory compiler LLM.
#[derive(Debug, Clone, PartialEq, Eq)]
pub struct Triple {
    pub source: String,
    /// "User" | "Context" | "Item" | "Artifact"
    pub source_type: String,
    /// "ENGAGED_IN" | "TOUCHED" | "PRODUCED"
    pub relation: String,
    pub target: String,
    /// "User" | "Context" | "Item" | "Artifact"
    pub target_type: String,
}

/// Structured output from the memory compiler LLM.
#[derive(Debug, Clone, PartialEq, Eq)]
pub struct CompiledMemory {
    pub summary: String,
    /// "development" | "study" | "game" | "life" | "other"
    pub domain: String,
    pub triples: Vec<Triple>,
}

/// Payload stored in Qdrant for a compiled memory.
#[derive(Debug, Clone, PartialEq, Eq)]
pub struct QdrantPayload {
    pub summary: String,
    pub timestamp: i64,
    pub context_name: String,
    pub domain: String,
    pub slot_id: String,
}

/// Request body for the embedding API.
#[derive(Debug, Clone, PartialEq, Eq)]
pub struct EmbeddingRequest {
    pub model: String,
    pub prompt: String,
    pub stream: Option<bool>,
}

/// The focused file a slot has when none is known.
pub fn default_focused_file() -> (s: String)
    ensures
        s@ == "None"@,
{
    String::from_str("None")
}

impl TimelineEntry {
    /// The timeline entry recorded for a processed log: its source and its
    /// summary, stamped with `now`.
    pub fn for_log(source: &str, processed: &AiProcessedResult, now: i64) -> (e: TimelineEntry)
        ensures
            e.timestamp == now,
            e.source@ == source@,
            e.content@ == processed.summary@,
    {
        TimelineEntry { timestamp: now, source: String::from_str(source), content: processed.summary.clone() }
    }
}

impl SlotMeta {
    /// Metadata of a slot created at `now` for `topic`.
    pub fn fresh(topic: &str, now: i64) -> (m: SlotMeta)
        ensures
            m.topic@ == topic@,
            m.focused_file@ == "None"@,
            m.last_updated == now,
    {
        SlotMeta { topic: String::from_str(topic), focused_file: default_focused_file(), last_updated: now }
    }
}

} // verus!
