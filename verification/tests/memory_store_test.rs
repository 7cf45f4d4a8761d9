use ai_proxy::ai_processor::AiError;
use ai_proxy::clock::new_memory_id;
use ai_proxy::config::{Config, ConfigVars};
use ai_proxy::cypher::{to_neo4j_query, CypherParam, CypherQuery};
use ai_proxy::janitor::{
    chunk_ids_queries, compaction_clock, compaction_cutoff, compaction_plan, compaction_request,
    compaction_user_message, delete_chunk_query, delete_node_query, group_chunks_by_context,
    incoming_relations_query, merge_labels, merge_node_queries, merge_plan, monthly_chunk_query, monthly_payload,
    monthly_relink_query, needs_compaction, node_names_query, old_chunks_query, orphan_labels, orphan_nodes_query,
    orphan_point_ids, outgoing_relations_query, relink_from_row, similarity_at_least, CompactionStep, ContextChunks,
    find_similar_pairs, CompactionRun, MemoryChunkRow, Relink, ScrollCursor, ScrollOffset, ScrolledPoint, COMPACTION_SYSTEM_PROMPT,
};
use ai_proxy::memory_compiler::{
    build_triple_cypher, compile_timestamp, compiler_error_message, compiler_request, compiler_user_message,
    embedding_error_message, qdrant_upsert_error_message,
    context_name,
    embedding_request, embeddings_url, map_label, memory_chunk_query, qdrant_collection_url, qdrant_delete_url,
    qdrant_payload, qdrant_points_url, qdrant_scroll_url, COMPILER_SYSTEM_PROMPT,
};
use ai_proxy::models::{default_focused_file, CompiledMemory, SlotMeta, TimelineEntry, Triple};

fn config() -> Config {
    let vars = ConfigVars {
        port: None,
        redis_url: None,
        ai_base_url: None,
        ai_api_key: None,
        ai_model: None,
        qdrant_url: Some("http://qdrant:6333/".to_string()),
        neo4j_uri: None,
        neo4j_user: None,
        neo4j_password: None,
        embedding_api_url: None,
        embedding_api_password: None,
        embedding_model: None,
    };
    match Config::from_vars(vars) {
        Ok(c) => c,
        Err(_) => panic!("default port refused"),
    }
}

fn triple(s: &str, st: &str, r: &str, t: &str, tt: &str) -> Triple {
    Triple {
        source: s.to_string(),
        source_type: st.to_string(),
        relation: r.to_string(),
        target: t.to_string(),
        target_type: tt.to_string(),
    }
}

fn text_param(q: &CypherQuery, i: usize) -> (String, String) {
    match &q.params[i] {
        (k, CypherParam::Text(v)) => (k.clone(), v.clone()),
        (k, CypherParam::Int(n)) => (k.clone(), format!("int:{}", n)),
    }
}

#[test]
fn labels_map_known_types_and_default_to_item() {
    assert_eq!(map_label("User"), "User");
    assert_eq!(map_label("Context"), "Context");
    assert_eq!(map_label("Item"), "Item");
    assert_eq!(map_label("Artifact"), "Artifact");
    assert_eq!(map_label("Person"), "Item");
    assert_eq!(map_label(""), "Item");
}

#[test]
fn triple_query_uses_labels_and_relation() {
    let t = triple("Minecraft", "Context", "TOUCHED", "加速レール", "Widget");
    let q = build_triple_cypher(&t, "slot-1");
    assert_eq!(
        q.text,
        "\n        MERGE (s:Context {name: $source_name})\n        MERGE (t:Item {name: $target_name})\n        MERGE (s)-[:TOUCHED]->(t)\n        WITH s, t\n        MATCH (m:MemoryChunk {slot_id: $slot_id})\n        MERGE (m)-[:BELONGS_TO]->(s)\n        "
    );
    assert_eq!(text_param(&q, 0), ("source_name".to_string(), "Minecraft".to_string()));
    assert_eq!(text_param(&q, 1), ("target_name".to_string(), "加速レール".to_string()));
    assert_eq!(text_param(&q, 2), ("slot_id".to_string(), "slot-1".to_string()));
    let nq = to_neo4j_query(&q);
    assert!(nq.has_param_key("source_name"));
    assert!(nq.has_param_key("target_name"));
    assert!(nq.has_param_key("slot_id"));
    assert!(!nq.has_param_key("timestamp"));
}

#[test]
fn memory_chunk_query_carries_the_memory() {
    let compiled = CompiledMemory { summary: "s".to_string(), domain: "game".to_string(), triples: vec![] };
    let q = memory_chunk_query("slot-9", 1781848200, &compiled);
    assert!(q.text.contains("MERGE (m:MemoryChunk {slot_id: $slot_id})"));
    assert_eq!(text_param(&q, 0), ("slot_id".to_string(), "slot-9".to_string()));
    assert_eq!(text_param(&q, 1), ("timestamp".to_string(), "int:1781848200".to_string()));
    assert_eq!(text_param(&q, 2), ("summary".to_string(), "s".to_string()));
    assert_eq!(text_param(&q, 3), ("domain".to_string(), "game".to_string()));
    assert!(to_neo4j_query(&q).has_param_key("timestamp"));
}

#[test]
fn compiler_message_lists_the_timeline() {
    let entries = vec![
        TimelineEntry { timestamp: 1431648000, source: "ocr".to_string(), content: "first".to_string() },
        TimelineEntry { timestamp: 1431648061, source: "memos".to_string(), content: "second".to_string() },
    ];
    let m = compiler_user_message("slot-1", "topic", &entries);
    assert_eq!(
        m,
        Some(
            "Slot ID: slot-1\nTopic: topic\n\nTimeline logs:\n[2015-05-15 00:00:00] (source: ocr) first\n[2015-05-15 00:01:01] (source: memos) second\n"
                .to_string()
        )
    );
    assert_eq!(
        compiler_user_message("s", "t", &[]),
        Some("Slot ID: s\nTopic: t\n\nTimeline logs:\n".to_string())
    );
    let bad = vec![TimelineEntry { timestamp: i64::MAX, source: "x".to_string(), content: "y".to_string() }];
    assert_eq!(compiler_user_message("s", "t", &bad), None);
    let r = compiler_request(&config(), "slot-1", "topic", &entries).expect("request");
    assert_eq!(r.messages[0].content, COMPILER_SYSTEM_PROMPT);
    assert_eq!(Some(r.messages[1].content.clone()), m);
    assert_eq!(r.url, "http://localhost:8080/v1/chat/completions");
    assert!(compiler_request(&config(), "s", "t", &bad).is_none());
}

#[test]
fn context_name_prefers_first_context_triple() {
    let compiled = CompiledMemory {
        summary: "s".to_string(),
        domain: "game".to_string(),
        triples: vec![
            triple("GoshiEta", "User", "ENGAGED_IN", "Minecraft", "Context"),
            triple("Minecraft", "Context", "TOUCHED", "加速レール", "Item"),
            triple("Other", "Context", "TOUCHED", "x", "Item"),
        ],
    };
    assert_eq!(context_name(&compiled, "topic"), "Minecraft");
    let none = CompiledMemory { summary: "s".to_string(), domain: "d".to_string(), triples: vec![] };
    assert_eq!(context_name(&none, "topic"), "topic");
}

#[test]
fn compile_timestamp_is_first_entry() {
    assert_eq!(compile_timestamp(&[]), None);
    let entries = vec![
        TimelineEntry { timestamp: 5, source: String::new(), content: String::new() },
        TimelineEntry { timestamp: 3, source: String::new(), content: String::new() },
    ];
    assert_eq!(compile_timestamp(&entries), Some(5));
}

#[test]
fn payloads_and_requests() {
    let compiled = CompiledMemory { summary: "テスト要約".to_string(), domain: "game".to_string(), triples: vec![] };
    let p = qdrant_payload("550e8400-e29b-41d4-a716-446655440000", 1781848200, "Minecraft 鉄道敷設", &compiled);
    assert_eq!(p.summary, "テスト要約");
    assert_eq!(p.timestamp, 1781848200);
    assert_eq!(p.context_name, "Minecraft 鉄道敷設");
    assert_eq!(p.domain, "game");
    assert_eq!(p.slot_id, "550e8400-e29b-41d4-a716-446655440000");
    let c = config();
    let e = embedding_request(&c, "カレーの作り方");
    assert_eq!(e.model, "jeffh/intfloat-multilingual-e5-large:f32");
    assert_eq!(e.prompt, "カレーの作り方");
    assert_eq!(e.stream, Some(false));
    assert_eq!(embeddings_url(&c), "https://aisvr221.aikb.kyutech.ac.jp/api/embeddings");
    assert_eq!(qdrant_collection_url(&c), "http://qdrant:6333/collections/user_memories");
    assert_eq!(qdrant_points_url(&c), "http://qdrant:6333/collections/user_memories/points");
    assert_eq!(qdrant_delete_url(&c), "http://qdrant:6333/collections/user_memories/points/delete");
    assert_eq!(qdrant_scroll_url(&c), "http://qdrant:6333/collections/user_memories/points/scroll");
}

#[test]
fn slot_models() {
    assert_eq!(default_focused_file(), "None");
    let m = SlotMeta::fresh("topic", 42);
    assert_eq!(m.topic, "topic");
    assert_eq!(m.focused_file, "None");
    assert_eq!(m.last_updated, 42);
}

#[test]
fn fresh_ids_are_hyphenated_uuids() {
    let a = new_memory_id();
    let b = new_memory_id();
    assert_ne!(a, b);
    assert_eq!(a.len(), 36);
    for (i, c) in a.chars().enumerate() {
        if i == 8 || i == 13 || i == 18 || i == 23 {
            assert_eq!(c, '-');
        } else {
            assert!(c.is_ascii_hexdigit() && !c.is_ascii_uppercase());
        }
    }
}

#[test]
fn similarity_threshold_is_exact() {
    // 1 - 1/10 = 0.9 exactly.
    assert!(similarity_at_least("abcdefghij", "abcdefghiX", 9, 10));
    assert!(!similarity_at_least("abcdefghi", "abcdefghX", 9, 10));
    assert!(similarity_at_least("", "", 1, 1));
    assert!(!similarity_at_least("", "", 2, 1));
    assert!(similarity_at_least("x", "y", 0, 1));
    // Similarity counts characters, not UTF-8 bytes: 1 - 2/6 for this pair.
    assert!(!similarity_at_least("酸化還元反応", "酸化還元", 4, 5));
    assert!(similarity_at_least("酸化還元反応", "酸化還元", 13, 20));
}

#[test]
fn merge_queries_relink_then_delete() {
    assert_eq!(merge_labels(), vec!["Context", "Item", "Artifact"]);
    assert_eq!(node_names_query("Item").text, "MATCH (n:Item) RETURN n.name AS name ORDER BY n.name");
    let out_q = outgoing_relations_query("Item", "nextjs");
    assert_eq!(
        out_q.text,
        "MATCH (source:Item {name: $remove})-[r]->(x) RETURN type(r) AS rel_type, elementId(r) AS rel_id"
    );
    assert_eq!(text_param(&out_q, 0), ("remove".to_string(), "nextjs".to_string()));
    let in_q = incoming_relations_query("Item", "nextjs");
    assert_eq!(
        in_q.text,
        "MATCH (y)-[r]->(source:Item {name: $remove}) RETURN type(r) AS rel_type, elementId(r) AS rel_id"
    );
    assert_eq!(relink_from_row("TOUCHED".to_string(), String::new()), None);
    assert_eq!(relink_from_row(String::new(), "5:abc:1".to_string()), None);
    let out = relink_from_row("USES".to_string(), "5:abc:1".to_string()).expect("kept");
    assert_eq!(out, Relink { rel_type: "USES".to_string(), rel_id: "5:abc:1".to_string() });
    // A relationship from a node without a name (a memory chunk) is kept too.
    let inc = relink_from_row("BELONGS_TO".to_string(), "5:abc:2".to_string()).expect("kept");
    let qs = merge_node_queries("Item", "Next.js", "nextjs", &[out], &[inc]);
    assert_eq!(qs.len(), 3);
    assert_eq!(
        qs[0].text,
        "MATCH (t:Item {name: $keep}) MATCH ()-[old]->(x) WHERE elementId(old) = $rel_id MERGE (t)-[r:USES]->(x) SET r += properties(old)"
    );
    assert_eq!(text_param(&qs[0], 0), ("keep".to_string(), "Next.js".to_string()));
    assert_eq!(text_param(&qs[0], 1), ("rel_id".to_string(), "5:abc:1".to_string()));
    assert_eq!(
        qs[1].text,
        "MATCH (t:Item {name: $keep}) MATCH (y)-[old]->() WHERE elementId(old) = $rel_id MERGE (y)-[r:BELONGS_TO]->(t) SET r += properties(old)"
    );
    assert_eq!(text_param(&qs[1], 1), ("rel_id".to_string(), "5:abc:2".to_string()));
    assert_eq!(qs[2].text, "MATCH (source:Item {name: $remove}) DETACH DELETE source");
    assert_eq!(qs[2], delete_node_query("Item", "nextjs"));
}

#[test]
fn similar_pairs_keep_the_longer_encoding() {
    // 21 characters in 22 bytes against 22 characters in 22 bytes: a tie in
    // bytes keeps the first name.
    let first = format!("{}é", "a".repeat(20));
    let second = format!("{}bc", "a".repeat(20));
    let pairs = find_similar_pairs(&[first.clone(), second.clone()], 9, 10);
    assert_eq!(pairs, vec![(first.clone(), second.clone())]);
    let pairs = find_similar_pairs(&[second.clone(), first.clone()], 9, 10);
    assert_eq!(pairs, vec![(second, first)]);
}

#[test]
fn compaction_run_stops_when_the_monthly_chunk_fails() {
    let run = CompactionRun::start();
    assert_eq!(run.next_step(3), Some(0));
    let failed = run.clone().record(false);
    assert!(failed.stopped);
    assert!(!failed.created);
    assert_eq!(failed.next_step(3), None);
    let mut run = run.record(true);
    assert!(run.created);
    assert_eq!(run.next_step(3), Some(1));
    run = run.record(false);
    assert!(!run.stopped);
    assert_eq!(run.next_step(3), Some(2));
    run = run.record(true);
    assert_eq!(run.next_step(3), None);
}

#[test]
fn service_error_messages() {
    assert_eq!(embedding_error_message("500 Internal Server Error", "boom"), "Embedding API error (500 Internal Server Error): boom");
    assert_eq!(qdrant_upsert_error_message("400 Bad Request", "bad"), "Qdrant upsert error (400 Bad Request): bad");
}

fn row(slot: &str, summary: &str, domain: &str, ts: i64, context: &str) -> MemoryChunkRow {
    MemoryChunkRow {
        slot_id: slot.to_string(),
        summary: summary.to_string(),
        domain: domain.to_string(),
        timestamp: ts,
        context: context.to_string(),
    }
}

#[test]
fn compaction_groups_old_chunks_by_context() {
    assert_eq!(compaction_cutoff(3_000_000), 3_000_000 - 30 * 24 * 3600);
    let (now, cutoff) = compaction_clock().expect("the clock reads after the epoch");
    assert!(now > 1_600_000_000);
    assert_eq!(cutoff, now - 2_592_000);
    let q = old_chunks_query(100);
    assert!(q.text.contains("MATCH (m:MemoryChunk)-[:BELONGS_TO]->(c:Context)"));
    assert!(q.text.contains("WHERE m.timestamp <= $cutoff"));
    assert!(q.text.contains("c.name AS context"));
    assert_eq!(text_param(&q, 0), ("cutoff".to_string(), "int:100".to_string()));

    let rows = vec![
        row("a", "one", "game", 1, "Minecraft"),
        row("", "dropped", "game", 2, "Minecraft"),
        row("b", "two", "study", 3, "大学化学"),
        row("c", "three", "development", 4, "Minecraft"),
        row("a", "one", "game", 1, "大学化学"),
    ];
    let groups = group_chunks_by_context(&rows);
    assert_eq!(
        groups,
        vec![
            ContextChunks { context: "Minecraft".to_string(), chunks: vec![rows[0].clone(), rows[3].clone()] },
            ContextChunks { context: "大学化学".to_string(), chunks: vec![rows[2].clone()] },
        ]
    );
    assert!(needs_compaction(&groups[0]));
    assert!(!needs_compaction(&groups[1]));
    assert_eq!(
        compaction_user_message(&groups[0]),
        "コンテキスト: Minecraft\n\n圧縮対象の記憶:\n1. [game] one\n2. [development] three\n"
    );
    let r = compaction_request(&config(), &groups[0]);
    assert_eq!(r.messages[0].content, COMPACTION_SYSTEM_PROMPT);
    assert_eq!(r.messages[1].content, compaction_user_message(&groups[0]));
    assert_eq!(r.temperature_tenths, 1);
    assert_eq!(r.response_format, "json_object");

    let compacted = CompiledMemory { summary: "monthly".to_string(), domain: "development".to_string(), triples: vec![] };
    let m = monthly_chunk_query("new-id", 77, "monthly", "development");
    assert!(m.text.contains("CREATE (m:MonthlyMemoryChunk"));
    assert_eq!(text_param(&m, 3), ("domain".to_string(), "development".to_string()));
    let p = monthly_payload("new-id", 77, "Minecraft", &compacted);
    assert_eq!(p.context_name, "Minecraft");
    assert_eq!(p.domain, "development");
    assert_eq!(p.slot_id, "new-id");
    let d = delete_chunk_query("a");
    assert_eq!(d.text, "MATCH (m:MemoryChunk {slot_id: $slot_id}) DETACH DELETE m");
    assert_eq!(text_param(&d, 0), ("slot_id".to_string(), "a".to_string()));
    let l = monthly_relink_query("new-id", "a");
    assert!(l.text.contains("MATCH (old:MemoryChunk {slot_id: $old_slot_id})-[:BELONGS_TO]->(e)"));
    assert!(l.text.contains("MERGE (m)-[:BELONGS_TO]->(e)"));
    assert_eq!(text_param(&l, 0), ("slot_id".to_string(), "new-id".to_string()));
    assert_eq!(text_param(&l, 1), ("old_slot_id".to_string(), "a".to_string()));
}

#[test]
fn compaction_plan_creates_before_it_deletes() {
    let group = ContextChunks {
        context: "Minecraft".to_string(),
        chunks: vec![row("a", "one", "game", 1, "Minecraft"), row("c", "three", "game", 4, "Minecraft")],
    };
    let compacted = CompiledMemory { summary: "monthly".to_string(), domain: "game".to_string(), triples: vec![] };
    let steps = compaction_plan("new-id", 77, &group, &compacted);
    assert_eq!(steps.len(), 8);
    assert_eq!(steps[0], CompactionStep::Graph(monthly_chunk_query("new-id", 77, "monthly", "game")));
    assert_eq!(steps[1], CompactionStep::Graph(monthly_relink_query("new-id", "a")));
    assert_eq!(steps[2], CompactionStep::Graph(monthly_relink_query("new-id", "c")));
    assert_eq!(steps[3], CompactionStep::Graph(delete_chunk_query("a")));
    assert_eq!(steps[4], CompactionStep::Graph(delete_chunk_query("c")));
    assert_eq!(steps[5], CompactionStep::DeletePoints("a".to_string()));
    assert_eq!(steps[6], CompactionStep::DeletePoints("c".to_string()));
    assert_eq!(steps[7], CompactionStep::StorePoint(monthly_payload("new-id", 77, "Minecraft", &compacted)));
}

#[test]
fn merge_plan_never_keeps_a_removed_name() {
    let pairs = vec![
        ("Next.js".to_string(), "nextjs".to_string()),
        ("nextjs".to_string(), "next".to_string()),
        ("Next.js".to_string(), "nextjs".to_string()),
        ("next".to_string(), "Next.js".to_string()),
    ];
    assert_eq!(
        merge_plan(&pairs),
        vec![
            ("Next.js".to_string(), "nextjs".to_string()),
            ("Next.js".to_string(), "next".to_string()),
        ]
    );
    let chain = vec![("B".to_string(), "C".to_string()), ("A".to_string(), "B".to_string()), ("C".to_string(), "D".to_string())];
    assert_eq!(
        merge_plan(&chain),
        vec![("B".to_string(), "C".to_string()), ("A".to_string(), "B".to_string()), ("A".to_string(), "D".to_string())]
    );
}

#[test]
fn scroll_cursor_pages_until_no_offset() {
    let c = ScrollCursor::start();
    assert_eq!(c.offset, None);
    assert!(!c.done);
    let c = c.advance(Some(ScrollOffset::Text("p100".to_string())));
    assert_eq!(c.offset, Some(ScrollOffset::Text("p100".to_string())));
    assert!(!c.done);
    let c = c.advance(Some(ScrollOffset::Num(200)));
    assert_eq!(c.offset, Some(ScrollOffset::Num(200)));
    let c = c.advance(None);
    assert!(c.done);
    assert_eq!(c.offset, None);
}

#[test]
fn orphan_audit_selects_unknown_points() {
    let known = vec!["s1".to_string(), "s2".to_string()];
    let points = vec![
        ScrolledPoint { id: Some("p1".to_string()), slot_id: Some("s1".to_string()) },
        ScrolledPoint { id: Some("p2".to_string()), slot_id: Some("gone".to_string()) },
        ScrolledPoint { id: None, slot_id: Some("gone".to_string()) },
        ScrolledPoint { id: Some("p4".to_string()), slot_id: None },
        ScrolledPoint { id: Some("p5".to_string()), slot_id: Some("also-gone".to_string()) },
    ];
    assert_eq!(orphan_point_ids(&known, &points), vec!["p2".to_string(), "p5".to_string()]);
    assert_eq!(orphan_labels(), vec!["Item", "Artifact"]);
    let q = orphan_nodes_query("Item");
    assert!(q.text.starts_with("\n            MATCH (n:Item)\n"));
    assert!(q.text.contains("WHERE NOT (n)--(:Context)"));
    assert!(q.text.contains("AND NOT (:MemoryChunk)-->(n)"));
    assert!(q.text.contains("DETACH DELETE n"));
    assert!(q.params.is_empty());
    let ids = chunk_ids_queries();
    assert_eq!(ids[0].text, "MATCH (m:MemoryChunk) RETURN m.slot_id AS slot_id");
    assert_eq!(ids[1].text, "MATCH (m:MonthlyMemoryChunk) RETURN m.slot_id AS slot_id");
}

#[test]
fn compiler_error_messages() {
    let e = AiError::Api { status: "502 Bad Gateway".to_string(), body: "b".to_string() };
    assert_eq!(compiler_error_message(&e), "Compiler AI API error (502 Bad Gateway): b");
    assert_eq!(compiler_error_message(&AiError::NoChoices), "Compiler AI returned no content");
    let e = AiError::InvalidJson { error: "eof".to_string(), raw: "{".to_string() };
    assert_eq!(compiler_error_message(&e), "Failed to parse compiler AI response: eof. Raw: {");
}
