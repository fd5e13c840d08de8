use roger::history::{estimate_tokens, ChatMessage, HistoryFile, HistoryStore};

fn temp_store() -> HistoryStore {
    HistoryStore::new("/data/history")
}

#[test]
fn test_empty_room_returns_empty() {
    let store = temp_store();
    assert!(store.load("!room:server").is_empty());
}

#[test]
fn test_append_and_load() {
    let mut store = temp_store();
    store.append("!room:server", ChatMessage::user("hello"));
    store.append("!room:server", ChatMessage::assistant("hi"));
    let msgs = store.load("!room:server");
    assert_eq!(msgs.len(), 2);
    assert_eq!(msgs[0].role, "user");
    assert_eq!(msgs[1].role, "assistant");
}

#[test]
fn test_windowed_truncates() {
    let mut store = temp_store();
    for i in 0..25u32 {
        store.append("!room:server", ChatMessage::user(&i.to_string()));
    }
    let windowed = store.windowed("!room:server", 20);
    assert_eq!(windowed.len(), 20);
    assert_eq!(windowed[0].content, "5");
}

#[test]
fn test_windowed_under_max_returns_all() {
    let mut store = temp_store();
    store.append("!room:server", ChatMessage::user("a"));
    store.append("!room:server", ChatMessage::user("b"));
    assert_eq!(store.windowed("!room:server", 20).len(), 2);
}

#[test]
fn test_clear() {
    let mut store = temp_store();
    store.append("!room:server", ChatMessage::user("x"));
    store.clear("!room:server");
    assert!(store.load("!room:server").is_empty());
}

#[test]
fn test_room_ids_are_isolated() {
    let mut store = temp_store();
    store.append("!room1:server", ChatMessage::user("room1"));
    store.append("!room2:server", ChatMessage::user("room2"));
    assert_eq!(store.load("!room1:server").len(), 1);
    assert_eq!(store.load("!room2:server").len(), 1);
}

#[test]
fn test_special_chars_in_room_id_dont_crash() {
    let mut store = temp_store();
    store.append("!abc/def:host.example.com", ChatMessage::user("hi"));
    assert_eq!(store.load("!abc/def:host.example.com").len(), 1);
}

#[test]
fn test_windowed_by_tokens_keeps_recent_within_budget() {
    let mut store = temp_store();
    // Each body is 35 chars → estimate 35/4 + 4 = 12 tokens.
    for i in 0..10u32 {
        store.append("!room:server", ChatMessage::user(&format!("message number {:020}", i)));
    }
    // Budget 40 tokens fits 3 messages (36), the 4th (48) is dropped.
    let kept = store.windowed_by_tokens("!room:server", 40);
    assert_eq!(kept.len(), 3);
    // Chronological order, newest retained at the end.
    assert!(kept.last().unwrap().content.ends_with("0000000009"));
    assert!(kept.first().unwrap().content.ends_with("0000000007"));
}

#[test]
fn test_windowed_by_tokens_always_keeps_latest() {
    let mut store = temp_store();
    store.append("!room:server", ChatMessage::user(&"x".repeat(10_000)));
    // Budget far too small, but the latest message must still be returned.
    let kept = store.windowed_by_tokens("!room:server", 1);
    assert_eq!(kept.len(), 1);
}

#[test]
fn test_windowed_by_tokens_empty_room() {
    let store = temp_store();
    assert!(store.windowed_by_tokens("!room:server", 1000).is_empty());
}

#[test]
fn test_rewrite_replaces_history() {
    let mut store = temp_store();
    for i in 0..5u32 {
        store.append("!room:server", ChatMessage::user(&i.to_string()));
    }
    store.rewrite(
        "!room:server",
        vec![ChatMessage::system("summary"), ChatMessage::user("4")],
    );
    let msgs = store.load("!room:server");
    assert_eq!(msgs.len(), 2);
    assert_eq!(msgs[0].role, "system");
    assert_eq!(msgs[0].content, "summary");
    assert_eq!(msgs[1].content, "4");
}

#[test]
fn test_list_room_ids_empty() {
    let store = temp_store();
    assert!(store.list_room_ids().is_empty());
}

#[test]
fn test_list_room_ids_after_append() {
    let mut store = temp_store();
    store.append("!a:srv", ChatMessage::user("hi"));
    store.append("!b:srv", ChatMessage::user("hi"));
    let mut ids = store.list_room_ids();
    ids.sort();
    assert_eq!(ids, vec!["!a:srv", "!b:srv"]);
}

#[test]
fn test_list_room_ids_no_duplicates() {
    let mut store = temp_store();
    store.append("!a:srv", ChatMessage::user("1"));
    store.append("!a:srv", ChatMessage::user("2"));
    assert_eq!(store.list_room_ids().len(), 1);
}

#[test]
fn test_list_room_ids_persists_across_instances() {
    let mut store = temp_store();
    store.append("!r:srv", ChatMessage::user("hello"));
    let path = store.known_rooms_path();
    let text = match store.file(&path) {
        Some(HistoryFile::Rooms(t)) => t.clone(),
        _ => panic!("no sidecar"),
    };
    // A new instance reads the sidecar.
    let mut store2 = temp_store();
    store2.restore(path, HistoryFile::Rooms(text));
    assert_eq!(store2.list_room_ids(), vec!["!r:srv"]);
}

#[test]
fn test_token_count_sums_estimates() {
    let mut store = temp_store();
    assert_eq!(store.token_count("!room:server"), 0);
    // Each "hi" body → 2/4 + 4 = 4 tokens.
    store.append("!room:server", ChatMessage::user("hi"));
    store.append("!room:server", ChatMessage::assistant("hi"));
    assert_eq!(store.token_count("!room:server"), 8);
}

#[test]
fn tokens_count_bytes() {
    assert_eq!(estimate_tokens(""), 4);
    assert_eq!(estimate_tokens("abcd"), 5);
    // Four characters of two bytes each.
    assert_eq!(estimate_tokens("äöüß"), 6);
}

#[test]
fn sidecar_is_a_json_list() {
    let mut store = temp_store();
    store.append("!a:srv", ChatMessage::user("hi"));
    store.append("!b:srv", ChatMessage::user("hi"));
    match store.file("/data/history/known_rooms.json") {
        Some(HistoryFile::Rooms(t)) => assert_eq!(t, "[\n  \"!a:srv\",\n  \"!b:srv\"\n]"),
        _ => panic!("no sidecar"),
    }
}

#[test]
fn unreadable_sidecar_lists_no_room() {
    let mut store = temp_store();
    let path = store.known_rooms_path();
    store.restore(path, HistoryFile::Rooms("not json".to_string()));
    assert!(store.list_room_ids().is_empty());
    store.append("!a:srv", ChatMessage::user("hi"));
    assert_eq!(store.list_room_ids(), vec!["!a:srv"]);
}

#[test]
fn cleared_rooms_stay_listed() {
    let mut store = temp_store();
    store.append("!a:srv", ChatMessage::user("hi"));
    store.clear("!a:srv");
    assert_eq!(store.list_room_ids(), vec!["!a:srv"]);
}

#[test]
fn room_files_have_safe_names() {
    let store = temp_store();
    assert_eq!(store.path("!abc/def:host"), "/data/history/_abc_def_host.json");
}

#[test]
fn window_grows_with_the_budget() {
    let mut store = temp_store();
    for _ in 0..4 {
        store.append("!r:s", ChatMessage::user("hi"));
    }
    for budget in 0..20usize {
        let want = (budget / 4).max(1).min(4);
        assert_eq!(store.windowed_by_tokens("!r:s", budget).len(), want);
    }
}
