//! Compilation of a flushed slot into long-term memory: the request to the
//! compiler model, the vector-store payload, and the graph queries.
use vstd::prelude::*;

use crate::ai_processor::{chat_request, AiError, ChatRequest};
use crate::config::Config;
use crate::cypher::{int_param_is, text_param_is, CypherQuery};
use crate::models::{CompiledMemory, EmbeddingRequest, QdrantPayload, TimelineEntry, Triple};
use crate::text::{join_url, join_url_spec, str_eq};

verus! {

/// System prompt for the memory compiler model.
pub const COMPILER_SYSTEM_PROMPT: &'static str = r#"# 役割
あなたは自律型パーソナルAIの「記憶編纂システム」です。ユーザーの断片的な行動ログ（時系列テキスト、スクショOCR、日常メモ）を分析し、未来のAIエージェントが瞬時に文脈を理解できるよう、「客観的な要約（Summary）」と「知識グラフ（トリプル）」へ厳密に構造化・圧縮しなさい。

# 要約（Summary）の生成ルール
以下の4つの要素を必ず含め、客観的な3人称（「ユーザーは〜」）で、1文〜最大3文の簡潔なMarkdownテキストとして出力しなさい。
1. 【文脈/目的】ユーザーが何を目的として、どのコンテクスト（開発、勉強、ゲーム、生活手続き等）で動いていたか。
2. 【行動/事象】ログの中で発生した決定的な出来事（エラー、特定の計算、座標のメモ、文章の作成など）。
3. 【知見/データ】ログから得られた具体的な数値、座標、ソースコードの修正点、数式の作り方などの「コアデータ」。
4. 【状態】最終的にそのタスクがどうなったか（解決した、中断した、課題が残っているなど）。
※「〜と思われる」「〜かもしれない」といった曖昧な推測は一切禁止。ログにある事実のみを記述すること。

# 知識グラフ（トリプル）の抽出ルール
入力ログから重要な実体（Entity）を抽出し、以下の定義に厳密に沿ってJSON配列として出力しなさい。

## エンティティ・タイプ（Labels）
- User: ユーザー自身（固定で "GoshiEta" とする）
- Context: プロジェクト名、科目名、ゲームの目的、生活のタスク名など（例: "英文読解 ソクモン", "大学化学", "Minecraft"）
- Item: 使用したツール、プログラミング言語、化学の反応名、ゲーム内のアイテム名など（例: "Next.js", "酸化還元反応", "加速レール"）
- Artifact: 具体的な成果物、ファイルパス、具体的な数値データ、座標など（例: "src/main.rs", "X:125, Z:-340", "問い合わせメール文面"）

## リレーション・タイプ（Relations）
- "ENGAGED_IN": User が Context に取り組んでいるとき
- "TOUCHED": 今回の出来事が Item に触れた、あるいは使用したとき
- "PRODUCED": 今回の出来事によって Artifact が生成・変更・確定されたとき

# 出力フォーマット
出力は必ず以下のJSON形式のみとし、余計な挨拶や解説のテキストは一切含めてはならない。

```json
{
  "summary": "（生成ルールに沿った要約）",
  "domain": "development | study | game | life | other",
  "triples": [
    {
      "source": "実体Aの名称",
      "source_type": "User | Context | Item | Artifact",
      "relation": "ENGAGED_IN | TOUCHED | PRODUCED",
      "target": "実体Bの名称",
      "target_type": "User | Context | Item | Artifact"
    }
  ]
}
```"#;

/// Name of the Qdrant collection that holds the memories.
pub const MEMORY_COLLECTION: &'static str = "user_memories";

/// The text `chrono` writes for a Unix timestamp in UTC with the pattern
/// `%Y-%m-%d %H:%M:%S`; none when the timestamp is outside chrono's range.
pub uninterp spec fn formatted_utc_time(ts: i64) -> Option<Seq<char>>;

/// `chrono::DateTime::from_timestamp(ts, 0)` formatted with `%Y-%m-%d %H:%M:%S`.
#[verifier::external_body]
fn format_utc_seconds(ts: i64) -> (r: Option<String>)
    ensures
        r matches Some(s) ==> formatted_utc_time(ts) == Some(s@),
        r is None ==> formatted_utc_time(ts) is None,
{
    match chrono::DateTime::from_timestamp(ts, 0) {
        Some(t) => Some(t.format("%Y-%m-%d %H:%M:%S").to_string()),
        None => None,
    }
}

/// One line of the timeline handed to the compiler: `[time] (source: s) content`.
pub open spec fn log_line(time: Seq<char>, e: TimelineEntry) -> Seq<char> {
    "["@ + time + "] (source: "@ + e.source@ + ") "@ + e.content@ + "\n"@
}

/// The lines of the first `k` entries; none when a timestamp cannot be written.
pub open spec fn log_text(entries: Seq<TimelineEntry>, k: int) -> Option<Seq<char>>
    decreases k,
{
    if k <= 0 {
        Some(Seq::empty())
    } else {
        match (log_text(entries, k - 1), formatted_utc_time(entries[k - 1].timestamp)) {
            (Some(prev), Some(time)) => Some(prev + log_line(time, entries[k - 1])),
            _ => None,
        }
    }
}

/// The user message that carries a slot's timeline to the compiler model.
pub open spec fn compiler_message_spec(slot_id: Seq<char>, topic: Seq<char>, entries: Seq<TimelineEntry>) -> Option<Seq<char>> {
    match log_text(entries, entries.len() as int) {
        Some(text) => Some("Slot ID: "@ + slot_id + "\nTopic: "@ + topic + "\n\nTimeline logs:\n"@ + text),
        None => None,
    }
}

proof fn lemma_log_text_none_stable(entries: Seq<TimelineEntry>, k: int, n: int)
    requires
        0 <= k <= n,
        log_text(entries, k) is None,
    ensures
        log_text(entries, n) is None,
    decreases n - k,
{
    if k < n {
        lemma_log_text_none_stable(entries, k, n - 1);
    }
}

/// Builds the compiler model's user message; none when an entry's timestamp
/// cannot be written as a date.
pub fn compiler_user_message(slot_id: &str, topic: &str, entries: &[TimelineEntry]) -> (m: Option<String>)
    ensures
        m matches Some(s) ==> compiler_message_spec(slot_id@, topic@, entries@) == Some(s@),
        m is None ==> compiler_message_spec(slot_id@, topic@, entries@) is None,
{
    let mut text = String::new();
    let mut i: usize = 0;
    while i < entries.len()
        invariant
            i <= entries@.len(),
            log_text(entries@, i as int) == Some(text@),
        decreases entries.len() - i,
    {
        let e = &entries[i];
        match format_utc_seconds(e.timestamp) {
            Some(time) => {
                text.append("[");
                text.append(time.as_str());
                text.append("] (source: ");
                text.append(e.source.as_str());
                text.append(") ");
                text.append(e.content.as_str());
                text.append("\n");
            },
            None => {
                proof {
                    assert(log_text(entries@, i + 1) is None);
                    lemma_log_text_none_stable(entries@, i + 1, entries@.len() as int);
                }
                return None;
            },
        }
        i = i + 1;
    }
    let mut m = String::from_str("Slot ID: ");
    m.append(slot_id);
    m.append("\nTopic: ");
    m.append(topic);
    m.append("\n\nTimeline logs:\n");
    m.append(text.as_str());
    Some(m)
}

/// The request that asks the compiler model to structure a slot's timeline;
/// none when an entry's timestamp cannot be written as a date.
pub fn compiler_request(config: &Config, slot_id: &str, topic: &str, entries: &[TimelineEntry]) -> (r: Option<ChatRequest>)
    ensures
        r is None <==> compiler_message_spec(slot_id@, topic@, entries@) is None,
        r matches Some(req) ==> {
            &&& req.url@ == join_url_spec(config.ai_base_url@, "/chat/completions"@)
            &&& req.model == config.ai_model
            &&& req.bearer == config.ai_api_key
            &&& req.messages@.len() == 2
            &&& req.messages@[0].role@ == "system"@
            &&& req.messages@[0].content@ == COMPILER_SYSTEM_PROMPT@
            &&& req.messages@[1].role@ == "user"@
            &&& compiler_message_spec(slot_id@, topic@, entries@) == Some(req.messages@[1].content@)
            &&& req.temperature_tenths == 1
            &&& req.response_format@ == "json_object"@
        },
{
    match compiler_user_message(slot_id, topic, entries) {
        Some(m) => Some(chat_request(config, String::from_str(COMPILER_SYSTEM_PROMPT), m)),
        None => None,
    }
}

/// The message of a failed call to the embedding API: "Embedding API error
/// (status): body".
pub fn embedding_error_message(status: &str, body: &str) -> (m: String)
    ensures
        m@ == "Embedding API error ("@ + status@ + "): "@ + body@,
{
    let mut m = String::from_str("Embedding API error (");
    m.append(status);
    m.append("): ");
    m.append(body);
    m
}

/// The message of a failed upsert into the vector store: "Qdrant upsert
/// error (status): body".
pub fn qdrant_upsert_error_message(status: &str, body: &str) -> (m: String)
    ensures
        m@ == "Qdrant upsert error ("@ + status@ + "): "@ + body@,
{
    let mut m = String::from_str("Qdrant upsert error (");
    m.append(status);
    m.append("): ");
    m.append(body);
    m
}

/// The message of a failed compiler request.
pub open spec fn compiler_error_message_spec(e: AiError) -> Seq<char> {
    match e {
        AiError::Api { status, body } => "Compiler AI API error ("@ + status@ + "): "@ + body@,
        AiError::NoChoices => "Compiler AI returned no content"@,
        AiError::InvalidJson { error, raw } =>
            "Failed to parse compiler AI response: "@ + error@ + ". Raw: "@ + raw@,
        AiError::Transport(m) => m@,
    }
}

pub fn compiler_error_message(e: &AiError) -> (m: String)
    ensures
        m@ == compiler_error_message_spec(*e),
{
    match e {
        AiError::Api { status, body } => {
            let mut m = String::from_str("Compiler AI API error (");
            m.append(status.as_str());
            m.append("): ");
            m.append(body.as_str());
            m
        },
        AiError::NoChoices => String::from_str("Compiler AI returned no content"),
        AiError::InvalidJson { error, raw } => {
            let mut m = String::from_str("Failed to parse compiler AI response: ");
            m.append(error.as_str());
            m.append(". Raw: ");
            m.append(raw.as_str());
            m
        },
        AiError::Transport(t) => t.clone(),
    }
}

/// The graph label for an entity type; an unknown type becomes `Item`.
pub open spec fn label_spec(t: Seq<char>) -> Seq<char> {
    if t == "User"@ {
        "User"@
    } else if t == "Context"@ {
        "Context"@
    } else if t == "Item"@ {
        "Item"@
    } else if t == "Artifact"@ {
        "Artifact"@
    } else {
        "Item"@
    }
}

/// Maps a source_type/target_type string to the corresponding Neo4j label.
pub fn map_label(type_str: &str) -> (l: &'static str)
    ensures
        l@ == label_spec(type_str@),
{
    if str_eq(type_str, "User") {
        "User"
    } else if str_eq(type_str, "Context") {
        "Context"
    } else if str_eq(type_str, "Item") {
        "Item"
    } else if str_eq(type_str, "Artifact") {
        "Artifact"
    } else {
        "Item"
    }
}

/// Text of the query that merges one triple into the graph and links the
/// slot's memory chunk to the source entity.
pub open spec fn triple_cypher_text(t: Triple) -> Seq<char> {
    "\n        MERGE (s:"@ + label_spec(t.source_type@) + " {name: $source_name})\n        MERGE (t:"@
        + label_spec(t.target_type@) + " {name: $target_name})\n        MERGE (s)-[:"@ + t.relation@
        + "]->(t)\n        WITH s, t\n        MATCH (m:MemoryChunk {slot_id: $slot_id})\n        MERGE (m)-[:BELONGS_TO]->(s)\n        "@
}

/// The query for one triple, with its source, target and slot id as parameters.
pub fn build_triple_cypher(triple: &Triple, slot_id: &str) -> (q: CypherQuery)
    ensures
        q.text@ == triple_cypher_text(*triple),
        q.params@.len() == 3,
        text_param_is(q.params@[0], "source_name"@, triple.source@),
        text_param_is(q.params@[1], "target_name"@, triple.target@),
        text_param_is(q.params@[2], "slot_id"@, slot_id@),
{
    let source_label = map_label(triple.source_type.as_str());
    let target_label = map_label(triple.target_type.as_str());
    let mut text = String::from_str("\n        MERGE (s:");
    text.append(source_label);
    text.append(" {name: $source_name})\n        MERGE (t:");
    text.append(target_label);
    text.append(" {name: $target_name})\n        MERGE (s)-[:");
    text.append(triple.relation.as_str());
    text.append("]->(t)\n        WITH s, t\n        MATCH (m:MemoryChunk {slot_id: $slot_id})\n        MERGE (m)-[:BELONGS_TO]->(s)\n        ");
    CypherQuery::new(text)
        .text_param("source_name", triple.source.clone())
        .text_param("target_name", triple.target.clone())
        .text_param("slot_id", String::from_str(slot_id))
}

/// Text of the query that creates or updates a slot's memory chunk.
pub const MEMORY_CHUNK_QUERY: &'static str = "\n        MERGE (m:MemoryChunk {slot_id: $slot_id})\n        SET m.timestamp = $timestamp, m.summary = $summary, m.domain = $domain\n        ";

/// The query that records the compiled memory of `slot_id` as a memory chunk.
pub fn memory_chunk_query(slot_id: &str, timestamp: i64, compiled: &CompiledMemory) -> (q: CypherQuery)
    ensures
        q.text@ == MEMORY_CHUNK_QUERY@,
        q.params@.len() == 4,
        text_param_is(q.params@[0], "slot_id"@, slot_id@),
        int_param_is(q.params@[1], "timestamp"@, timestamp),
        text_param_is(q.params@[2], "summary"@, compiled.summary@),
        text_param_is(q.params@[3], "domain"@, compiled.domain@),
{
    CypherQuery::new(String::from_str(MEMORY_CHUNK_QUERY))
        .text_param("slot_id", String::from_str(slot_id))
        .int_param("timestamp", timestamp)
        .text_param("summary", compiled.summary.clone())
        .text_param("domain", compiled.domain.clone())
}

/// Index of the first triple before `k` whose source is a `Context`.
pub open spec fn first_context(triples: Seq<Triple>, k: int) -> Option<int>
    decreases k,
{
    if k <= 0 {
        None
    } else {
        match first_context(triples, k - 1) {
            Some(i) => Some(i),
            None => if triples[k - 1].source_type@ == "Context"@ { Some(k - 1) } else { None },
        }
    }
}

/// The context a compiled memory is filed under: the source of its first
/// triple whose source is a `Context`, else the slot's topic.
pub open spec fn context_name_spec(compiled: CompiledMemory, topic: Seq<char>) -> Seq<char> {
    match first_context(compiled.triples@, compiled.triples@.len() as int) {
        Some(i) => compiled.triples@[i].source@,
        None => topic,
    }
}

pub fn context_name(compiled: &CompiledMemory, topic: &str) -> (c: String)
    ensures
        c@ == context_name_spec(*compiled, topic@),
        forall|i: int| 0 <= i < compiled.triples@.len() && (#[trigger] compiled.triples@[i]).source_type@ == "Context"@
            && (forall|j: int| 0 <= j < i ==> (#[trigger] compiled.triples@[j]).source_type@ != "Context"@)
            ==> c@ == compiled.triples@[i].source@,
        (forall|j: int| 0 <= j < compiled.triples@.len() ==> (#[trigger] compiled.triples@[j]).source_type@ != "Context"@)
            ==> c@ == topic@,
{
    let mut i: usize = 0;
    while i < compiled.triples.len()
        invariant
            i <= compiled.triples@.len(),
            first_context(compiled.triples@, i as int) is None,
        decreases compiled.triples.len() - i,
    {
        if str_eq(compiled.triples[i].source_type.as_str(), "Context") {
            proof {
                let k = i as int;
                assert(first_context(compiled.triples@, k + 1) == Some(k));
                lemma_first_context_stable(compiled.triples@, k + 1, compiled.triples@.len() as int);
            }
            proof {
                lemma_context_name_laws(*compiled, topic@);
            }
            return compiled.triples[i].source.clone();
        }
        i = i + 1;
    }
    proof {
        lemma_context_name_laws(*compiled, topic@);
    }
    String::from_str(topic)
}

proof fn lemma_context_name_laws(compiled: CompiledMemory, topic: Seq<char>)
    ensures
        forall|i: int| 0 <= i < compiled.triples@.len() && (#[trigger] compiled.triples@[i]).source_type@ == "Context"@
            && (forall|j: int| 0 <= j < i ==> (#[trigger] compiled.triples@[j]).source_type@ != "Context"@)
            ==> context_name_spec(compiled, topic) == compiled.triples@[i].source@,
        (forall|j: int| 0 <= j < compiled.triples@.len() ==> (#[trigger] compiled.triples@[j]).source_type@ != "Context"@)
            ==> context_name_spec(compiled, topic) == topic,
{
    assert forall|i: int| 0 <= i < compiled.triples@.len() && (#[trigger] compiled.triples@[i]).source_type@ == "Context"@
        && (forall|j: int| 0 <= j < i ==> (#[trigger] compiled.triples@[j]).source_type@ != "Context"@)
        implies context_name_spec(compiled, topic) == compiled.triples@[i].source@ by {
        law_context_name_is_first_context_source(compiled, topic, i);
    }
    if forall|j: int| 0 <= j < compiled.triples@.len() ==> (#[trigger] compiled.triples@[j]).source_type@ != "Context"@ {
        law_context_name_falls_back_to_topic(compiled, topic);
    }
}

proof fn lemma_first_context_stable(triples: Seq<Triple>, k: int, n: int)
    requires
        0 <= k <= n,
        first_context(triples, k) is Some,
    ensures
        first_context(triples, n) == first_context(triples, k),
    decreases n - k,
{
    if k < n {
        lemma_first_context_stable(triples, k, n - 1);
    }
}

proof fn lemma_first_context(triples: Seq<Triple>, k: int)
    requires
        0 <= k <= triples.len(),
    ensures
        first_context(triples, k) matches Some(m) ==> 0 <= m < k && triples[m].source_type@ == "Context"@
            && forall|j: int| 0 <= j < m ==> (#[trigger] triples[j]).source_type@ != "Context"@,
        first_context(triples, k) is None ==> forall|j: int| 0 <= j < k ==> (#[trigger] triples[j]).source_type@ != "Context"@,
    decreases k,
{
    if k > 0 {
        lemma_first_context(triples, k - 1);
    }
}

/// A compiled memory is filed under the source of its first triple whose
/// source is a `Context`: when triple `i` is the first such, the context name
/// is its source.
pub proof fn law_context_name_is_first_context_source(compiled: CompiledMemory, topic: Seq<char>, i: int)
    requires
        0 <= i < compiled.triples@.len(),
        compiled.triples@[i].source_type@ == "Context"@,
        forall|j: int| 0 <= j < i ==> (#[trigger] compiled.triples@[j]).source_type@ != "Context"@,
    ensures
        context_name_spec(compiled, topic) == compiled.triples@[i].source@,
{
    let t = compiled.triples@;
    lemma_first_context(t, t.len() as int);
    match first_context(t, t.len() as int) {
        Some(m) => {
            if m < i {
                assert(t[m].source_type@ != "Context"@);
            } else if m > i {
                assert(t[i].source_type@ != "Context"@);
            }
        },
        None => {
            assert(t[i].source_type@ != "Context"@);
        },
    }
}

/// Only when no triple's source is a `Context` is a compiled memory filed
/// under the slot's topic.
pub proof fn law_context_name_falls_back_to_topic(compiled: CompiledMemory, topic: Seq<char>)
    requires
        forall|j: int| 0 <= j < compiled.triples@.len() ==> (#[trigger] compiled.triples@[j]).source_type@ != "Context"@,
    ensures
        context_name_spec(compiled, topic) == topic,
{
    let t = compiled.triples@;
    lemma_first_context(t, t.len() as int);
    if let Some(m) = first_context(t, t.len() as int) {
        assert(t[m].source_type@ == "Context"@);
    }
}

/// The timestamp a slot's memory is filed under: that of its first entry;
/// none for an empty timeline, which is not compiled.
pub fn compile_timestamp(entries: &[TimelineEntry]) -> (t: Option<i64>)
    ensures
        entries@.len() == 0 <==> t is None,
        t matches Some(ts) ==> ts == entries@[0].timestamp,
{
    if entries.len() == 0 {
        None
    } else {
        Some(entries[0].timestamp)
    }
}

/// The payload stored beside the memory's vector.
pub fn qdrant_payload(slot_id: &str, timestamp: i64, context_name: &str, compiled: &CompiledMemory) -> (p: QdrantPayload)
    ensures
        p.summary == compiled.summary,
        p.timestamp == timestamp,
        p.context_name@ == context_name@,
        p.domain == compiled.domain,
        p.slot_id@ == slot_id@,
{
    QdrantPayload {
        summary: compiled.summary.clone(),
        timestamp,
        context_name: String::from_str(context_name),
        domain: compiled.domain.clone(),
        slot_id: String::from_str(slot_id),
    }
}

/// The request that asks the embedding API for the vector of `text`.
pub fn embedding_request(config: &Config, text: &str) -> (r: EmbeddingRequest)
    ensures
        r.model == config.embedding_model,
        r.prompt@ == text@,
        r.stream == Some(false),
{
    EmbeddingRequest { model: config.embedding_model.clone(), prompt: String::from_str(text), stream: Some(false) }
}

/// URL of the embedding endpoint.
pub fn embeddings_url(config: &Config) -> (u: String)
    ensures
        u@ == join_url_spec(config.embedding_api_url@, "/embeddings"@),
{
    join_url(config.embedding_api_url.as_str(), "/embeddings")
}

/// URL of the memory collection in Qdrant.
pub fn qdrant_collection_url(config: &Config) -> (u: String)
    ensures
        u@ == join_url_spec(config.qdrant_url@, "/collections/user_memories"@),
{
    join_url(config.qdrant_url.as_str(), "/collections/user_memories")
}

/// URL for upserting points into the memory collection.
pub fn qdrant_points_url(config: &Config) -> (u: String)
    ensures
        u@ == join_url_spec(config.qdrant_url@, "/collections/user_memories/points"@),
{
    join_url(config.qdrant_url.as_str(), "/collections/user_memories/points")
}

/// URL for deleting points from the memory collection.
pub fn qdrant_delete_url(config: &Config) -> (u: String)
    ensures
        u@ == join_url_spec(config.qdrant_url@, "/collections/user_memories/points/delete"@),
{
    join_url(config.qdrant_url.as_str(), "/collections/user_memories/points/delete")
}

/// URL for scrolling through the points of the memory collection.
pub fn qdrant_scroll_url(config: &Config) -> (u: String)
    ensures
        u@ == join_url_spec(config.qdrant_url@, "/collections/user_memories/points/scroll"@),
{
    join_url(config.qdrant_url.as_str(), "/collections/user_memories/points/scroll")
}

} // verus!
