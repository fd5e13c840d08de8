use roger::names::NameMap;
use roger::room_profiles::RoomProfileStore;
use roger::room_workdirs::{resolve_workdir, RoomWorkdirStore};
use roger::skills::{description_of, sanitize, SkillDir, SkillError, SkillStore};

#[test]
fn missing_file_loads_empty() {
    let store = RoomProfileStore::new("/state/rp.json".to_string());
    assert_eq!(store.load().len(), 0);
}

#[test]
fn save_then_load_roundtrips() {
    let mut store = RoomProfileStore::new("/state/rp.json".to_string());
    let mut map: NameMap<String> = NameMap::new();
    map.insert("!a:srv".to_string(), "reason".to_string());
    store.save(&map);
    assert_eq!(store.load().pairs(), map.pairs());
}

#[test]
fn saved_profiles_are_json() {
    let mut store = RoomProfileStore::new("/state/rp.json".to_string());
    let mut map: NameMap<String> = NameMap::new();
    map.insert("!b:srv".to_string(), "chat".to_string());
    map.insert("!a:srv".to_string(), "reason".to_string());
    store.save(&map);
    assert_eq!(store.file(), Some("{\n  \"!a:srv\": \"reason\",\n  \"!b:srv\": \"chat\"\n}"));
    store.restore("[1]".to_string());
    assert_eq!(store.load().len(), 0);
}

#[test]
fn write_pending_approve_read_forget_cycle() {
    let mut store = SkillStore::new("/cfg", "/state");

    assert!(store.index().is_empty());
    store
        .write_pending("deploy-flow", "# deploy-flow\nHow to deploy\n\n1. build\n2. ship")
        .unwrap();
    // Pending, not active yet.
    assert!(store.index().is_empty());
    assert_eq!(store.list().1, vec!["deploy-flow"]);

    store.approve("deploy-flow").unwrap();
    let idx = store.index();
    assert_eq!(idx.len(), 1);
    assert_eq!(idx[0], ("deploy-flow".to_string(), "How to deploy".to_string()));
    assert!(store.read("deploy-flow").unwrap().contains("1. build"));

    assert!(store.forget("deploy-flow"));
    assert!(store.index().is_empty());
}

#[test]
fn description_skips_headings() {
    assert_eq!(description_of("# Title\n\n> does a thing\n\nsteps"), "does a thing");
    assert_eq!(description_of("plain first line"), "plain first line");
}

#[test]
fn learned_overrides_committed() {
    let mut store = SkillStore::new("/cfg", "/state");
    store.restore(
        SkillDir::Committed,
        "x.md".to_string(),
        "# x\ncommitted desc".to_string(),
    );
    assert_eq!(store.index()[0].1, "committed desc");
    store.write_pending("x", "# x\nlearned desc").unwrap();
    store.approve("x").unwrap();
    assert_eq!(store.index()[0].1, "learned desc");
}

#[test]
fn an_approved_draft_is_read_back() {
    let mut store = SkillStore::new("/cfg", "/state");
    store.restore(
        SkillDir::Committed,
        "x.md".to_string(),
        "# x\ncommitted desc".to_string(),
    );
    assert_eq!(store.read("x").unwrap(), "# x\ncommitted desc");
    store.write_pending("x", "# x\nlearned desc").unwrap();
    assert_eq!(store.read("x").unwrap(), "# x\ncommitted desc");
    store.approve("x").unwrap();
    assert_eq!(store.read("x").unwrap(), "# x\nlearned desc");
}

#[test]
fn sanitizing_settles() {
    assert_eq!(sanitize("../etc/passwd"), "etc_passwd");
    assert_eq!(sanitize("etc_passwd"), "etc_passwd");
    assert_eq!(sanitize(" __ "), "");
    assert_eq!(SkillStore::file_name("../etc/passwd"), "etc_passwd.md");
    assert_eq!(SkillStore::file_name("etc_passwd"), "etc_passwd.md");
    assert_eq!(SkillStore::file_name("__a-b__"), "a-b.md");
    assert_eq!(SkillStore::file_name("a-b"), "a-b.md");
}

#[test]
fn skill_errors_say_what_is_wrong() {
    let mut store = SkillStore::new("/cfg", "/state");
    let e = store.write_pending(" ?! ", "x").unwrap_err();
    assert!(matches!(e, SkillError::InvalidName));
    assert_eq!(e.message(), "invalid skill name");
    let e = store.approve("nope").unwrap_err();
    assert_eq!(e.message(), "no pending skill 'nope'");
    assert!(!store.forget("nope"));
}

#[test]
fn committed_skills_survive_forgetting() {
    let mut store = SkillStore::new("/cfg", "/state");
    store.restore(SkillDir::Committed, "x.md".to_string(), "body".to_string());
    store.restore(SkillDir::Learned, "x.md".to_string(), "other".to_string());
    assert!(store.forget("x"));
    assert_eq!(store.read("x").unwrap(), "body");
    assert_eq!(store.list().0, vec!["x"]);
}

#[test]
fn skill_names_are_sanitized() {
    assert_eq!(SkillStore::file_name("  ../etc/passwd "), "etc_passwd.md");
    assert_eq!(SkillStore::file_name("Deploy Flow"), "Deploy_Flow.md");
    let store = SkillStore::new("/cfg", "/state");
    assert_eq!(store.dir(SkillDir::Committed), "/cfg/skills");
    assert_eq!(store.dir(SkillDir::Learned), "/state/skills/active");
    assert_eq!(store.dir(SkillDir::Pending), "/state/skills/pending");
}

#[test]
fn only_named_markdown_files_are_skills() {
    let mut store = SkillStore::new("/cfg", "/state");
    store.restore(SkillDir::Learned, "notes.txt".to_string(), "text".to_string());
    store.restore(SkillDir::Learned, ".md".to_string(), "text".to_string());
    store.restore(SkillDir::Learned, "b.md".to_string(), "bee".to_string());
    store.restore(SkillDir::Learned, "a.md".to_string(), "aye".to_string());
    assert_eq!(store.list().0, vec!["a", "b"]);
}

#[test]
fn descriptions_are_cut() {
    let long = "y".repeat(200);
    assert_eq!(description_of(&long), "y".repeat(120));
    assert_eq!(description_of("# only\n\n## headings"), "");
}

#[test]
fn workdirs_are_kept_per_room() {
    let mut dirs = RoomWorkdirStore::load("/state/rw.json".to_string(), None);
    assert!(dirs.get("!r:s").is_none());
    let text = dirs.set("!r:s", "/src/foo");
    let again = RoomWorkdirStore::load("/state/rw.json".to_string(), Some(&text));
    assert_eq!(again.get("!r:s").as_deref(), Some("/src/foo"));
    assert_eq!(resolve_workdir(&again, "!r:s", Some("~/work"), Some("/home/r")).as_deref(), Some("/src/foo"));
    assert_eq!(resolve_workdir(&again, "!x:s", Some("~/work"), Some("/home/r")).as_deref(), Some("/home/r/work"));
    assert_eq!(resolve_workdir(&again, "!x:s", None, Some("/home/r")), None);
}

#[test]
fn name_maps_keep_their_keys_in_order() {
    let mut m: NameMap<u32> = NameMap::new();
    m.insert("b".to_string(), 2);
    m.insert("a".to_string(), 1);
    m.insert("b".to_string(), 3);
    assert_eq!(m.len(), 2);
    assert_eq!(m.keys(), vec!["a", "b"]);
    assert_eq!(m.get("b"), Some(&3));
    assert_eq!(m.remove("a"), Some(1));
    assert_eq!(m.remove("a"), None);
    assert!(!m.contains_key("a"));
}
