# ai_proxy

A hot-memory proxy for a personal knowledge system. Raw inputs (OCR text,
memos, voice transcripts) are summarized by an OpenAI-compatible model,
routed into short-lived topic slots kept in Redis, and compiled into
long-term memory (a Qdrant vector collection and a Neo4j graph) when a slot
goes idle. A weekly janitor merges near-duplicate graph nodes, compacts old
memories into monthly episodes, and removes orphaned data.

## Layout

- `src/` — the verified library (Verus):
  - `slot_manager.rs`: slot routing (topic matching, context-shift
    detection, timeouts) as a function from the slots' state and a log to
    the changes to make, with the laws it obeys;
  - `janitor.rs`: Levenshtein distance, similar-name detection, the merge
    plan and node merge queries, compaction grouping by context and the
    compaction steps, the orphan audit and its paging;
  - `memory_compiler.rs`: compiler requests, payloads and graph queries;
  - `ai_processor.rs`: the topic prompt, chat requests, reply handling;
  - `ingest.rs`, `config.rs`, `models.rs`, `cypher.rs`, `clock.rs`, `text.rs`.
- `app/` — the server: HTTP (axum), Redis, HTTP calls to the model and the
  stores, Neo4j sessions, background workers.
- `tests/` — tests of the library.
