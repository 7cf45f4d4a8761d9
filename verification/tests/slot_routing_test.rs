use ai_proxy::models::AiProcessedResult;
use ai_proxy::clock::{unix_now, unix_seconds};
use ai_proxy::slot_manager::{
    existing_topics, place_log, route_log, shift_entry, shift_entry_timestamp, slot_meta_key,
    slot_takes_topic, slot_timeline_key, timed_out_slots, timed_out_slots_now, ActiveSlot,
};

fn slot(uuid: &str, topic: Option<&str>, last: Option<i64>) -> ActiveSlot {
    ActiveSlot { uuid: uuid.to_string(), topic: topic.map(|t| t.to_string()), last_updated: last }
}

#[test]
fn keys_follow_the_slot_layout() {
    assert_eq!(slot_meta_key("abc"), "slot:abc:meta");
    assert_eq!(slot_timeline_key("abc"), "slot:abc:timeline");
}

#[test]
fn topic_matching_is_equality_or_containment() {
    let s = slot("a", Some("英文読解 ソクモン 開発"), Some(0));
    assert!(slot_takes_topic(&s, "英文読解 ソクモン 開発"));
    assert!(slot_takes_topic(&s, "ソクモン"));
    assert!(!slot_takes_topic(&s, "ソクモン 開発 続き"));
    assert!(slot_takes_topic(&s, ""));
    let none = slot("b", None, Some(0));
    assert!(!slot_takes_topic(&none, "anything"));
}

#[test]
fn matching_topic_reuses_the_last_matching_slot() {
    let slots = vec![
        slot("s1", Some("Rust project"), Some(100)),
        slot("s2", Some("cooking"), Some(100)),
        slot("s3", Some("Rust project notes"), Some(100)),
    ];
    let p = place_log(&slots, &[], "Rust project", "fresh", 1000);
    assert_eq!(p.slot_id, "s3");
    assert!(!p.is_new);
    assert_eq!(p.shift_entry, "s3|1000");
    assert_eq!(p.shift_trim, 0);
    assert!(p.flush_candidates.is_empty());
}

#[test]
fn unmatched_topic_opens_a_new_slot() {
    let slots = vec![slot("s1", Some("cooking"), Some(100))];
    let p = place_log(&slots, &[], "chemistry", "fresh-id", 500);
    assert_eq!(p.slot_id, "fresh-id");
    assert!(p.is_new);
    assert_eq!(p.shift_entry, "fresh-id|500");
}

#[test]
fn stale_shift_entries_are_trimmed_from_the_front() {
    let slots = vec![slot("s1", Some("t"), Some(900))];
    let log = vec![
        "s1|100".to_string(),
        "s1|200".to_string(),
        "s1|900".to_string(),
        "s1|150".to_string(),
    ];
    // cutoff = 1000 - 180 = 820: the first two are older, the third is not.
    let p = place_log(&slots, &log, "t", "fresh", 1000);
    assert_eq!(p.shift_trim, 2);
    // Remaining: s1|900, s1|150, s1|1000 -> three for s1, threshold reached,
    // but there is no other slot to flush.
    assert!(p.flush_candidates.is_empty());
}

#[test]
fn context_shift_flushes_other_idle_slots() {
    let slots = vec![
        slot("busy", Some("work"), Some(990)),
        slot("idle", Some("games"), Some(500)),
        slot("recent", Some("music"), Some(900)),
        slot("unknown", Some("misc"), None),
    ];
    let log = vec!["busy|950".to_string(), "busy|980".to_string()];
    let p = place_log(&slots, &log, "work", "fresh", 1000);
    assert_eq!(p.slot_id, "busy");
    assert_eq!(p.flush_candidates, vec!["idle".to_string()]);

    // Below the threshold nothing is flushed.
    let log = vec!["busy|980".to_string()];
    let p = place_log(&slots, &log, "work", "fresh", 1000);
    assert!(p.flush_candidates.is_empty());
}

#[test]
fn ordered_shift_list_counts_the_last_window() {
    let slots = vec![slot("busy", Some("work"), Some(990)), slot("idle", Some("games"), Some(500))];
    // In time order: the entries before 820 fall out of the window, and the
    // two recent ones plus the new one reach the threshold.
    let log = vec![
        "busy|700".to_string(),
        "idle|810".to_string(),
        "busy|820".to_string(),
        "busy|990".to_string(),
    ];
    let p = place_log(&slots, &log, "work", "fresh", 1000);
    assert_eq!(p.shift_trim, 2);
    assert_eq!(p.flush_candidates, vec!["idle".to_string()]);
    // With the entry at 819 one second too old, only two remain.
    let log = vec!["busy|819".to_string(), "busy|990".to_string()];
    let p = place_log(&slots, &log, "work", "fresh", 1000);
    assert_eq!(p.shift_trim, 1);
    assert!(p.flush_candidates.is_empty());
}

#[test]
fn shift_entries_read_back_their_timestamp() {
    assert_eq!(shift_entry("abc", 1781848200), "abc|1781848200");
    assert_eq!(shift_entry("abc", -5), "abc|-5");
    assert_eq!(shift_entry_timestamp("abc|1781848200"), Some(1781848200));
    assert_eq!(shift_entry_timestamp("abc|-5"), Some(-5));
    assert_eq!(shift_entry_timestamp("||abc||42|x"), Some(42));
    assert_eq!(shift_entry_timestamp("abc"), None);
    assert_eq!(shift_entry_timestamp("abc|"), None);
    assert_eq!(shift_entry_timestamp("abc|12x"), None);
    assert_eq!(shift_entry_timestamp("abc|9223372036854775807"), Some(i64::MAX));
    assert_eq!(shift_entry_timestamp("abc|-9223372036854775808"), Some(i64::MIN));
    assert_eq!(shift_entry_timestamp("abc|9223372036854775808"), None);
}

#[test]
fn timeout_monitor_flushes_slots_idle_over_fifteen_minutes() {
    let slots = vec![
        slot("a", Some("x"), Some(1000)),
        slot("b", Some("y"), Some(99)),
        slot("c", Some("z"), Some(100)),
        slot("d", Some("w"), None),
    ];
    // Exactly 900 seconds idle is not yet a timeout.
    assert_eq!(timed_out_slots(&slots, 999), Vec::<String>::new());
    assert_eq!(timed_out_slots(&slots, 1000), vec!["b".to_string()]);
    assert_eq!(timed_out_slots(&slots, 1901), vec!["a".to_string(), "b".to_string(), "c".to_string()]);
    let idle = vec![slot("old", None, Some(0))];
    assert_eq!(timed_out_slots_now(&idle), Some(vec!["old".to_string()]));
}

#[test]
fn existing_topics_skip_slots_without_topic() {
    let slots = vec![slot("a", Some("x"), None), slot("b", None, None), slot("c", Some("y"), None)];
    assert_eq!(existing_topics(&slots), vec!["x".to_string(), "y".to_string()]);
}

#[test]
fn routing_stamps_the_entry_and_creates_uuid_slots() {
    let processed = AiProcessedResult { topic: "new topic".to_string(), summary: "did things".to_string() };
    let r = route_log(&[], &[], "ocr", &processed).expect("the clock reads after the epoch");
    assert!(r.now > 1_600_000_000);
    assert_eq!(r.entry.timestamp, r.now);
    assert_eq!(r.entry.source, "ocr");
    assert_eq!(r.entry.content, "did things");
    assert!(r.placement.is_new);
    assert_eq!(r.placement.slot_id.len(), 36);
    assert_eq!(r.placement.slot_id.matches('-').count(), 4);
    assert_eq!(r.placement.shift_entry, format!("{}|{}", r.placement.slot_id, r.now));
    let again = route_log(&[], &[], "ocr", &processed).expect("the clock reads after the epoch");
    assert_ne!(again.placement.slot_id, r.placement.slot_id);
    // A new slot's id is none of the active slots' ids.
    let active = vec![slot(&r.placement.slot_id, Some("cooking"), Some(r.now))];
    let third = route_log(&active, &[], "ocr", &processed).expect("the clock reads after the epoch");
    assert!(third.placement.is_new);
    assert_ne!(third.placement.slot_id, r.placement.slot_id);
}

#[test]
fn unix_seconds_fit_in_i64() {
    assert_eq!(unix_seconds(0), Some(0));
    assert_eq!(unix_seconds(1_781_848_200), Some(1_781_848_200));
    assert_eq!(unix_seconds(i64::MAX as u64), Some(i64::MAX));
    assert_eq!(unix_seconds(i64::MAX as u64 + 1), None);
    assert!(unix_now().expect("the clock reads after the epoch") > 1_600_000_000);
}
