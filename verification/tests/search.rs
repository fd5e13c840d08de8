use roger::history::{ChatMessage, HistoryStore};
use roger::html::{find_place, page_shown};
use roger::search::{search_history, search_history_checked, show_hits};

fn searched_store() -> HistoryStore {
    HistoryStore::new("/data/h")
}

#[test]
fn search_history_returns_no_results_on_empty_store() {
    let history = searched_store();
    let result = search_history(&history, "hello", None, 10);
    assert!(result.contains("No") || result.contains("no"), "got: {}", result);
}

#[test]
fn search_history_finds_message_in_room() {
    let mut history = searched_store();
    let msg = ChatMessage {
        role: "user".to_string(),
        content: "let's talk about rust and memory safety".to_string(),
    };
    history.append("!room1:server", msg);

    let result = search_history(&history, "memory safety", None, 10);
    assert!(result.contains("memory safety"), "got: {}", result);
    assert!(result.contains("room1"), "got: {}", result);
}

#[test]
fn search_history_is_case_insensitive() {
    let mut history = searched_store();
    let msg = ChatMessage {
        role: "assistant".to_string(),
        content: "The quick brown FOX jumps".to_string(),
    };
    history.append("!room1:server", msg);

    let result = search_history(&history, "quick brown fox", None, 10);
    assert!(result.contains("FOX"), "got: {}", result);
}

#[test]
fn search_history_room_filter_limits_results() {
    let mut history = searched_store();
    let msg = ChatMessage {
        role: "user".to_string(),
        content: "needle in room A".to_string(),
    };
    history.append("!roomA:server", msg);
    let msg2 = ChatMessage {
        role: "user".to_string(),
        content: "needle in room B".to_string(),
    };
    history.append("!roomB:server", msg2);

    let result = search_history(&history, "needle", Some("!roomA:server"), 10);
    assert!(result.contains("room A"), "got: {}", result);
    assert!(!result.contains("room B"), "got: {}", result);
}

#[test]
fn search_history_respects_limit() {
    let mut history = searched_store();
    for i in 0..10 {
        let msg = ChatMessage {
            role: "user".to_string(),
            content: format!("hit number {}", i),
        };
        history.append("!room:server", msg);
    }
    let result = search_history(&history, "hit number", None, 3);
    // Each match block starts with "Room:" — count those.
    let count = result.matches("Room:").count();
    assert!(count <= 3, "expected ≤3 match blocks, got {}", count);
}

#[test]
fn search_history_empty_query_errors() {
    let history = searched_store();
    let result = search_history(&history, "", None, 10);
    assert!(result.starts_with("error:"), "got: {}", result);
}

#[test]
fn hits_come_with_their_neighbours() {
    let mut history = searched_store();
    history.append("!r:s", ChatMessage::user("one"));
    history.append("!r:s", ChatMessage::assistant("Needle"));
    history.append("!r:s", ChatMessage::user("three"));
    history.append("!r:s", ChatMessage::user("four"));
    assert_eq!(
        search_history(&history, "needle", None, 10),
        "Found 1 match(es) for 'needle':\n\nRoom: !r:s\n    [user] one\n>>> [assistant] Needle\n    [user] three"
    );
    assert_eq!(search_history(&history, "five", None, 10), "No messages found matching 'five'.");
}

#[test]
fn zero_hits_are_shown_where_none_are_asked_for() {
    let mut history = searched_store();
    history.append("!r:s", ChatMessage::user("needle"));
    assert_eq!(search_history(&history, "needle", None, 0), "No messages found matching 'needle'.");
}

#[test]
fn long_messages_are_cut_at_a_character() {
    let mut history = searched_store();
    history.append("!r:s", ChatMessage::user(&format!("needle {}", "x".repeat(400))));
    let out = search_history_checked(&history, "needle", None, 10).unwrap();
    assert!(out.ends_with(&format!("needle {}…", "x".repeat(293))));
    let mut history = searched_store();
    history.append("!r:s", ChatMessage::user(&format!("needle {}é{}", "x".repeat(292), "x".repeat(99))));
    assert!(search_history_checked(&history, "needle", None, 10).is_none());
}

#[test]
fn hits_are_shown_with_their_neighbours() {
    let mut h = HistoryStore::new("/h");
    for t in ["one", "two", "three", "four"] {
        h.append("!r:s", ChatMessage::user(t));
    }
    let places = vec![("!r:s".to_string(), 0), ("!r:s".to_string(), 2)];
    assert_eq!(
        show_hits(&h, "q", &places).unwrap(),
        "Found 2 match(es) for 'q':\n\nRoom: !r:s\n>>> [user] one\n    [user] two\n\n---\n\nRoom: !r:s\n    [user] two\n>>> [user] three\n    [user] four"
    );
    assert_eq!(show_hits(&h, "q", &[]).unwrap(), "No messages found matching 'q'.");
    h.append("!w:s", ChatMessage::user(&format!("{}é", "z".repeat(299))));
    assert_eq!(show_hits(&h, "q", &[("!w:s".to_string(), 0)]), None);
}

#[test]
fn places_are_counted_in_bytes() {
    assert_eq!(find_place("éSCRIPT", "éscript", "script", 0), Some(Some(1)));
    assert_eq!(find_place("abc", "abc", "x", 0), None);
    assert_eq!(find_place("é", "ab", "b", 0), Some(None));
    assert_eq!(find_place("abc", "abc", "b", 2), Some(Some(3)));
    assert_eq!(find_place("abc", "abc", "b", 9), Some(None));
}

#[test]
fn stripped_pages_are_shown() {
    assert_eq!(
        page_shown("<h1> A &amp; B </h1>\n\n <p>c", "u").unwrap(),
        "[Content from u]\n\nA & B\nc"
    );
    assert_eq!(page_shown(&format!("{}é", "x".repeat(7999)), "u"), None);
}
