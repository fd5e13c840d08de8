use roger::compaction::{
    apply_summary, condense_request, is_content, is_due, note_global, note_room, plan, render,
    section, ActiveRooms,
};
use roger::history::{ChatMessage, HistoryStore};
use roger::memory::MemoryStore;
use roger::scheduler::{secs_from, secs_until_hour};
use std::time::{SystemTime, UNIX_EPOCH};

#[test]
fn section_extracts_between_headers() {
    let out = "### SUMMARY\nchatted about cats.\n### ROOM_MEMORY\n- likes cats\n### GLOBAL_MEMORY\nnone";
    assert_eq!(section(out, "### SUMMARY").unwrap(), "chatted about cats.");
    assert_eq!(section(out, "### ROOM_MEMORY").unwrap(), "- likes cats");
    assert_eq!(section(out, "### GLOBAL_MEMORY").unwrap(), "none");
    assert!(section(out, "### MISSING").is_none());
}

#[test]
fn is_content_rejects_none_and_blank() {
    assert!(is_content("- a real fact"));
    assert!(!is_content("  none "));
    assert!(!is_content("None"));
    assert!(!is_content(""));
}

#[test]
fn render_labels_roles() {
    let msgs = vec![
        ChatMessage::user("hi"),
        ChatMessage::assistant("hello"),
        ChatMessage::system("[summary]"),
    ];
    let r = render(&msgs);
    assert!(r.contains("User: hi"));
    assert!(r.contains("Assistant: hello"));
    assert!(r.contains("Note: [summary]"));
}

fn long_room() -> HistoryStore {
    let mut h = HistoryStore::new("/h");
    for i in 0..6u32 {
        h.append("!r:s", ChatMessage::user(&format!("turn {}", i)));
    }
    h
}

#[test]
fn a_compaction_keeps_the_recent_turns() {
    let mut h = long_room();
    let mut m = MemoryStore::new("/state", None, None);
    let p = plan(&h, "!r:s", 2).unwrap();
    assert_eq!(p.request.len(), 2);
    assert_eq!(p.request[0].role, "system");
    assert!(p.request[0].content.starts_with("You compact a chat assistant's memory."));
    assert_eq!(
        p.request[1].content,
        "Earlier conversation:\n\nUser: turn 0\n\nUser: turn 1\n\nUser: turn 2\n\nUser: turn 3"
    );
    let reply = "### SUMMARY\nsix turns\n### ROOM_MEMORY\n- a fact\n### GLOBAL_MEMORY\nNONE";
    let facts = apply_summary(&mut h, &mut m, "!r:s", &p, reply).unwrap();
    let msgs = h.load("!r:s");
    assert_eq!(msgs.len(), 3);
    assert_eq!(msgs[0].role, "system");
    assert_eq!(msgs[0].content, "[Earlier conversation summary]\nsix turns");
    assert_eq!(msgs[1].content, "turn 4");
    assert_eq!(msgs[2].content, "turn 5");
    assert_eq!(m.read_tldr("!r:s"), "six turns");

    assert!(note_room(&mut m, "!r:s", &facts.room, 3000).is_none());
    assert!(note_global(&mut m, &facts.global, 1500).is_none());
    assert_eq!(m.read_room("!r:s"), "- a fact");
    assert!(m.read_global().is_empty());
}

#[test]
fn a_reply_without_a_summary_changes_nothing() {
    let mut h = long_room();
    let mut m = MemoryStore::new("/state", None, None);
    let p = plan(&h, "!r:s", 2).unwrap();
    assert!(apply_summary(&mut h, &mut m, "!r:s", &p, "I cannot do that.").is_none());
    assert_eq!(h.load("!r:s").len(), 6);
    assert!(m.read_tldr("!r:s").is_empty());
}

#[test]
fn a_message_that_comes_in_meanwhile_survives() {
    let mut h = long_room();
    let mut m = MemoryStore::new("/state", None, None);
    let p = plan(&h, "!r:s", 2).unwrap();
    assert_eq!((p.old.len(), p.recent.len()), (4, 2));
    h.append("!r:s", ChatMessage::user("turn 6"));
    assert!(apply_summary(&mut h, &mut m, "!r:s", &p, "### SUMMARY\nfour turns").is_some());
    let msgs = h.load("!r:s");
    assert_eq!(msgs.len(), 4);
    assert_eq!(msgs[0].content, "[Earlier conversation summary]\nfour turns");
    assert_eq!(msgs[1].content, "turn 4");
    assert_eq!(msgs[2].content, "turn 5");
    assert_eq!(msgs[3].content, "turn 6");
}

#[test]
fn a_history_cleared_meanwhile_gets_the_summary() {
    let mut h = long_room();
    let mut m = MemoryStore::new("/state", None, None);
    let p = plan(&h, "!r:s", 2).unwrap();
    h.clear("!r:s");
    assert!(apply_summary(&mut h, &mut m, "!r:s", &p, "### SUMMARY\nfour turns").is_some());
    let msgs = h.load("!r:s");
    assert_eq!(msgs.len(), 3);
    assert_eq!(msgs[0].content, "[Earlier conversation summary]\nfour turns");
    assert_eq!(msgs[1].content, "turn 4");
    assert_eq!(msgs[2].content, "turn 5");
    assert_eq!(m.read_tldr("!r:s"), "four turns");
}

#[test]
fn messages_after_a_clearing_survive() {
    let mut h = long_room();
    let mut m = MemoryStore::new("/state", None, None);
    let p = plan(&h, "!r:s", 2).unwrap();
    h.clear("!r:s");
    for i in 0..7u32 {
        h.append("!r:s", ChatMessage::user(&format!("afresh {}", i)));
    }
    assert!(apply_summary(&mut h, &mut m, "!r:s", &p, "### SUMMARY\nfour turns").is_some());
    let msgs = h.load("!r:s");
    assert_eq!(msgs.len(), 10);
    assert_eq!(msgs[2].content, "turn 5");
    assert_eq!(msgs[3].content, "afresh 0");
    assert_eq!(msgs[9].content, "afresh 6");
}

#[test]
fn short_histories_are_not_compacted() {
    let h = long_room();
    assert!(plan(&h, "!r:s", 6).is_none());
    assert!(plan(&h, "!other:s", 0).is_none());
}

#[test]
fn over_cap_memory_is_condensed() {
    let mut m = MemoryStore::new("/state", None, None);
    // "- abcdefghij" has 12 bytes: 12/4 + 4 = 7 tokens.
    assert_eq!(note_room(&mut m, "!r:s", "- abcdefghij", 6).as_deref(), Some("- abcdefghij"));
    assert!(note_room(&mut m, "!r:s", "none", 0).is_none());
    assert_eq!(note_global(&mut m, "- abcdefghij", 7), None);
    let ask = condense_request("notes", 1500);
    assert_eq!(
        ask[0].content,
        "Condense the following notes to well under 1500 tokens, keeping the most important durable facts as short bullets. Merge duplicates. Output only the condensed notes."
    );
    assert_eq!(ask[1].content, "notes");
}

#[test]
fn a_room_is_compacted_by_one_task() {
    let mut active = ActiveRooms::new();
    assert!(active.begin("!a:s"));
    assert!(!active.begin("!a:s"));
    assert!(active.begin("!b:s"));
    active.end("!a:s");
    assert!(active.begin("!a:s"));
}

#[test]
fn compaction_is_triggered_by_size() {
    let h = long_room();
    // Six bodies of six bytes: 6 * (6/4 + 4) = 30 tokens.
    assert!(is_due(&h, "!r:s", true, 29, 0));
    assert!(!is_due(&h, "!r:s", true, 30, 0));
    assert!(!is_due(&h, "!r:s", false, 1, 0));
    // Without a fixed trigger the share of the window decides.
    assert!(is_due(&h, "!r:s", true, 0, 29));
    assert!(!is_due(&h, "!r:s", true, 0, 30));
}

#[test]
fn secs_until_hour_is_within_a_day() {
    for h in 0..24u32 {
        let s = secs_until_hour(h);
        assert!(s <= 86400, "hour {} gave {} secs (>24h)", h, s);
        assert!(s > 0, "hour {} gave 0 secs", h);
    }
}

#[test]
fn secs_until_hour_future_is_less_than_present() {
    let now_secs = SystemTime::now()
        .duration_since(UNIX_EPOCH)
        .unwrap()
        .as_secs();
    let current_hour = ((now_secs % 86400) / 3600) as u32;
    let next_hour = (current_hour + 1) % 24;
    let s_next = secs_until_hour(next_hour);
    // Next hour is always ≤ 1 hour away (plus a small buffer for test latency)
    assert!(s_next <= 3601, "next hour {} is {}s away (expected ≤ 3601)", next_hour, s_next);
}

#[test]
fn the_wait_is_exact() {
    assert_eq!(secs_from(0, 3), 10800);
    assert_eq!(secs_from(10800, 3), 86400);
    assert_eq!(secs_from(10801, 3), 86399);
    assert_eq!(secs_from(86399, 24), 1);
}
