use roger::memory::MemoryStore;

#[test]
fn missing_files_read_empty() {
    let store = MemoryStore::new("/state", None, None);
    assert!(store.read_global().is_empty());
    assert!(store.read_room("!r:s").is_empty());
}

#[test]
fn reads_written_files_and_isolates_rooms() {
    let mut store = MemoryStore::new("/state", None, None);
    store.write("/state/memory/global.md".to_string(), "  global fact\n".to_string());
    store.write("/state/memory/rooms/_r_s.md".to_string(), "room fact".to_string());
    assert_eq!(store.read_global(), "global fact");
    assert_eq!(store.read_room("!r:s"), "room fact");
    assert!(store.read_room("!other:s").is_empty());
}

#[test]
fn global_override_path_is_used() {
    let mut store = MemoryStore::new("/state", Some("/state/custom.md"), None);
    store.write("/state/custom.md".to_string(), "custom".to_string());
    assert_eq!(store.read_global(), "custom");
}

#[test]
fn tldr_read_write_clear() {
    let mut store = MemoryStore::new("/state", None, None);
    // Missing → empty
    assert!(store.read_tldr("!r:s").is_empty());
    // Write then read back
    store.rewrite_tldr("!r:s", "  summary line  ");
    assert_eq!(store.read_tldr("!r:s"), "summary line");
    // Rewrite replaces (not appends)
    store.rewrite_tldr("!r:s", "new summary");
    assert_eq!(store.read_tldr("!r:s"), "new summary");
    // Clear
    store.clear_tldr("!r:s");
    assert!(store.read_tldr("!r:s").is_empty());
}

#[test]
fn tldr_rooms_are_isolated() {
    let mut store = MemoryStore::new("/state", None, None);
    store.rewrite_tldr("!a:s", "room a");
    store.rewrite_tldr("!b:s", "room b");
    assert_eq!(store.read_tldr("!a:s"), "room a");
    assert_eq!(store.read_tldr("!b:s"), "room b");
    store.clear_tldr("!a:s");
    assert!(store.read_tldr("!a:s").is_empty());
    assert_eq!(store.read_tldr("!b:s"), "room b");
}

#[test]
fn blocks_are_separated_by_a_blank_line() {
    let mut store = MemoryStore::new("/state", None, None);
    store.append_room("!r:s", "  - one\n");
    store.append_room("!r:s", "- two");
    store.append_room("!r:s", " \n ");
    assert_eq!(store.read_room("!r:s"), "- one\n\n- two");
    store.append_global("- a");
    store.append_global("- b");
    assert_eq!(store.read_global(), "- a\n\n- b");
}

#[test]
fn tokens_are_zero_when_empty() {
    let mut store = MemoryStore::new("/state", None, None);
    assert_eq!(store.global_tokens(), 0);
    assert_eq!(store.room_tokens("!r:s"), 0);
    store.rewrite_global("abcdefgh");
    store.rewrite_room("!r:s", "abcd");
    assert_eq!(store.global_tokens(), 6);
    assert_eq!(store.room_tokens("!r:s"), 5);
    store.clear_global();
    store.clear_room("!r:s");
    assert_eq!(store.global_tokens(), 0);
    assert_eq!(store.room_tokens("!r:s"), 0);
}

#[test]
fn home_is_expanded_in_the_override() {
    let store = MemoryStore::new("/state", Some("~/notes.md"), Some("/home/r"));
    assert_eq!(store.global_path(), "/home/r/notes.md");
    let store = MemoryStore::new("/state", Some("~/notes.md"), None);
    assert_eq!(store.global_path(), "~/notes.md");
}

#[test]
fn memory_and_tldr_have_their_own_files() {
    let mut store = MemoryStore::new("/state/", None, None);
    assert_eq!(store.room_path("!r:s"), "/state/memory/rooms/_r_s.md");
    assert_eq!(store.tldr_path("!r:s"), "/state/memory/tldr/_r_s.md");
    store.rewrite_tldr("!r:s", "tldr");
    assert!(store.read_room("!r:s").is_empty());
}
