use ai_proxy::ai_processor::{
    build_system_prompt, build_user_message, chat_completions_url, reply_content, topic_request, AiError,
    NO_TOPICS, PROMPT_HEAD, PROMPT_TAIL,
};
use ai_proxy::config::{Config, ConfigVars};
use ai_proxy::ingest::{truncate_str, IngestReply, IngestStage};

fn config(api_key: Option<&str>) -> Config {
    let vars = ConfigVars {
        port: None,
        redis_url: None,
        ai_base_url: Some("http://ai.local/v1/".to_string()),
        ai_api_key: api_key.map(|k| k.to_string()),
        ai_model: Some("m".to_string()),
        qdrant_url: None,
        neo4j_uri: None,
        neo4j_user: None,
        neo4j_password: None,
        embedding_api_url: None,
        embedding_api_password: None,
        embedding_model: None,
    };
    match Config::from_vars(vars) {
        Ok(c) => c,
        Err(_) => panic!("default port refused"),
    }
}

#[test]
fn prompt_lists_existing_topics_numbered() {
    let topics = vec!["英文読解 ソクモン 開発".to_string(), "Minecraft".to_string()];
    let p = build_system_prompt(&topics);
    let expected = format!(
        "{}  1. \"英文読解 ソクモン 開発\"\n  2. \"Minecraft\"{}",
        PROMPT_HEAD, PROMPT_TAIL
    );
    assert_eq!(p, expected);
    assert!(p.contains("Existing topics:\n  1. \"英文読解 ソクモン 開発\"\n  2. \"Minecraft\"\n\nWhen deciding"));
    assert!(p.ends_with("{\"topic\": \"<chosen or new topic>\", \"summary\": \"<structured summary>\"}"));
}

#[test]
fn prompt_without_topics_says_none() {
    let p = build_system_prompt(&[]);
    assert_eq!(p, format!("{}{}{}", PROMPT_HEAD, NO_TOPICS, PROMPT_TAIL));
    assert!(p.contains("Existing topics:\n(none — no existing topics yet)\n\nWhen deciding"));
}

#[test]
fn prompt_numbers_past_nine() {
    let topics: Vec<String> = (0..12).map(|i| format!("t{}", i)).collect();
    let p = build_system_prompt(&topics);
    assert!(p.contains("  10. \"t9\"\n  11. \"t10\"\n  12. \"t11\""));
}

#[test]
fn urls_drop_trailing_slashes() {
    assert_eq!(chat_completions_url("http://x/v1///"), "http://x/v1/chat/completions");
    assert_eq!(chat_completions_url("http://x/v1"), "http://x/v1/chat/completions");
    assert_eq!(chat_completions_url(""), "/chat/completions");
}

#[test]
fn user_message_carries_source_and_content() {
    assert_eq!(build_user_message("ocr", "text"), "Source: ocr\n\nRaw content:\ntext");
}

#[test]
fn topic_request_is_complete() {
    let c = config(Some("key"));
    let r = topic_request(&c, "ocr", "raw", &[]);
    assert_eq!(r.url, "http://ai.local/v1/chat/completions");
    assert_eq!(r.model, "m");
    assert_eq!(r.bearer, Some("key".to_string()));
    assert_eq!(r.temperature_tenths, 1);
    assert_eq!(r.response_format, "json_object");
    assert_eq!(r.messages.len(), 2);
    assert_eq!(r.messages[0].role, "system");
    assert_eq!(r.messages[0].content, build_system_prompt(&[]));
    assert_eq!(r.messages[1].role, "user");
    assert_eq!(r.messages[1].content, "Source: ocr\n\nRaw content:\nraw");
    assert_eq!(topic_request(&config(None), "a", "b", &[]).bearer, None);
}

#[test]
fn reply_content_is_trimmed_first_choice() {
    assert_eq!(reply_content(Some("  {\"a\":1}\n\t".to_string())), Ok("{\"a\":1}".to_string()));
    assert_eq!(reply_content(Some("\u{3000}x\u{a0}".to_string())), Ok("x".to_string()));
    assert_eq!(reply_content(Some(" \n ".to_string())), Ok(String::new()));
    assert_eq!(reply_content(None), Err(AiError::NoChoices));
    for s in ["  a b  ", "\u{2028}z\u{85}", "", "x", "\u{200b}y"] {
        assert_eq!(reply_content(Some(s.to_string())), Ok(s.trim().to_string()));
    }
}

#[test]
fn ai_error_messages() {
    let e = AiError::Api { status: "500 Internal Server Error".to_string(), body: "oops".to_string() };
    assert_eq!(e.message(), "AI API error (500 Internal Server Error): oops");
    assert_eq!(AiError::NoChoices.message(), "AI API returned no choices");
    let e = AiError::InvalidJson { error: "bad".to_string(), raw: "{".to_string() };
    assert_eq!(e.message(), "Failed to parse AI response as JSON: bad. Raw: {");
    assert_eq!(AiError::Transport("down".to_string()).message(), "down");
}

#[test]
fn truncate_keeps_short_text_and_cuts_long_text() {
    assert_eq!(truncate_str("hello", 5), "hello");
    assert_eq!(truncate_str("hello", 4), "hell...");
    assert_eq!(truncate_str("", 0), "");
    assert_eq!(truncate_str("酸化還元反応", 2), "酸化...");
    assert_eq!(truncate_str("abc", 0), "...");
}

#[test]
fn ingest_replies() {
    let ok = IngestReply::success("id-1".to_string());
    assert_eq!(ok.status_code(), 200);
    assert_eq!(ok, IngestReply::Success { slot_id: "id-1".to_string() });
    let ai = IngestReply::failure(IngestStage::AiProcessing, "timeout");
    assert_eq!(ai.status_code(), 500);
    assert_eq!(ai, IngestReply::Failure { message: "AI processing failed: timeout".to_string() });
    let slot = IngestReply::failure(IngestStage::SlotPlacement, "redis down");
    assert_eq!(slot, IngestReply::Failure { message: "redis down".to_string() });
    let topics = IngestReply::failure(IngestStage::FetchTopics, "e");
    assert_eq!(topics, IngestReply::Failure { message: "e".to_string() });
}
