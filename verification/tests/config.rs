use roger::audio::{failed_text, transcript, SpeachesClient};
use roger::config::{
    expand_projects, inject, inject_date, localpart_of, parse_allowlist, BackendConfig,
    BackendKind, CommsConfig, CommsMode, Config, Environment, ProfileConfig, ProfilesFile,
    RoomConfig,
};
use roger::llm::{Backend, SubprocessKind};
use roger::metrics::Metrics;
use roger::names::NameMap;
use roger::paths::{expand_tilde, join_path, state_dir};
use roger::state::{ReloadError, ReloadableState};
use roger::web::{
    check_auth, commands, dashboard, list_rooms, refuse_message, room_not_found,
};

#[test]
fn inject_date_replaces_placeholder() {
    let out = inject_date("today is {date}.");
    assert!(!out.contains("{date}"));
    assert!(out.starts_with("today is "));
}

#[test]
fn dates_are_put_in() {
    assert_eq!(inject("{date} and {date}", "2024-02-03"), "2024-02-03 and 2024-02-03");
    assert_eq!(inject("{da{date}te}", "2024-02-03"), "{da2024-02-03te}");
    let today = inject_date("{date}");
    assert_eq!(today.len(), 10);
    assert_eq!(today.chars().filter(|c| *c == '-').count(), 2);
}

fn profile(backend: &str, fallback: &[&str]) -> ProfileConfig {
    ProfileConfig {
        backend: backend.into(),
        fallback: fallback.iter().map(|s| s.to_string()).collect(),
        max_tokens: None,
        context_tokens: Some(4096),
        comms: CommsMode::Sync,
        idle_timeout_ms: None,
        permission_mode: None,
        max_turns: Some(3),
    }
}

fn backend(kind: BackendKind, base_url: &str, model: &str, key: &str) -> BackendConfig {
    BackendConfig { kind, base_url: base_url.into(), model: model.into(), api_key_env: key.into() }
}

fn environment() -> Environment {
    Environment {
        matrix_homeserver: Some("http://hs".into()),
        matrix_user: Some("roger".into()),
        matrix_password: Some("SECRET-REDACTED".into()),
        room_allowlist: Some(" !a:s, ,!b:s,".into()),
        speaches_url: None,
        searxng_url: Some("http://sx".into()),
    }
}

fn profiles_file() -> ProfilesFile {
    let mut profiles = NameMap::new();
    profiles.insert("chat".to_string(), profile("local", &["missing", "cloud"]));
    profiles.insert("code".to_string(), profile("agent", &[]));
    profiles.insert("broken".to_string(), profile("missing", &[]));
    let mut rooms = NameMap::new();
    rooms.insert(
        "!z:s".to_string(),
        RoomConfig { name: "Alpha".into(), system_prompt: Some("on {date}".into()), ..RoomConfig::default() },
    );
    rooms.insert("!y:s".to_string(), RoomConfig { name: "Beta".into(), ..RoomConfig::default() });
    let mut projects = NameMap::new();
    projects.insert("p".to_string(), "~/p".to_string());
    ProfilesFile {
        profiles,
        comms: None,
        context: None,
        memory: None,
        compaction: None,
        rooms,
        projects,
    }
}

fn backends() -> NameMap<BackendConfig> {
    let mut b = NameMap::new();
    b.insert("local".to_string(), backend(BackendKind::OpenAi, "http://l/v1/", "gemma", ""));
    b.insert("cloud".to_string(), backend(BackendKind::OpenAi, "http://c", "big", "KEY"));
    b.insert("agent".to_string(), backend(BackendKind::ClaudeCode, "http://gw/", "coder", "KEY"));
    b
}

fn assembled() -> Config {
    Config::assemble_on(profiles_file(), backends(), environment(), Some("It is {date}."), "2024-02-03").ok().unwrap()
}

#[test]
fn configuration_is_assembled() {
    let cfg = assembled();
    assert_eq!(cfg.room_allowlist, vec!["!a:s", "!b:s"]);
    assert_eq!(cfg.system_prompt, "It is 2024-02-03.");
    assert_eq!(cfg.rooms.get("!z:s").unwrap().system_prompt.as_deref(), Some("on 2024-02-03"));
    assert!(cfg.rooms.get("!y:s").unwrap().system_prompt.is_none());
    assert_eq!(cfg.comms.sync_budget_ms, 7000);
    assert_eq!(cfg.memory.max_room_tokens, 3000);
    assert_eq!(cfg.compaction.profile, "fast");
    assert_eq!(cfg.searxng_url.as_deref(), Some("http://sx"));
    let dated = Config::assemble(profiles_file(), backends(), environment(), None).ok().unwrap();
    assert_eq!(dated.system_prompt, "You are Roger, a helpful Matrix-native AI assistant.");
    assert!(!dated.rooms.get("!z:s").unwrap().system_prompt.as_deref().unwrap().contains("{date}"));
}

#[test]
fn missing_variables_are_named() {
    let fails = |env: Environment| {
        Config::assemble_on(profiles_file(), backends(), env, None, "2024-02-03").err().unwrap()
    };
    assert_eq!(fails(Environment { matrix_homeserver: None, ..environment() }), "MATRIX_HOMESERVER not set");
    assert_eq!(fails(Environment { matrix_user: None, ..environment() }), "MATRIX_USER not set");
    assert_eq!(fails(Environment { matrix_password: None, ..environment() }), "MATRIX_PASSWORD not set");
}

#[test]
fn profiles_are_built_from_their_backends() {
    let cfg = assembled();
    let mut env = NameMap::new();
    env.insert("KEY".to_string(), "SECRET-REDACTED".to_string());
    let chat = cfg.build_profile_llm("chat", &env, None).ok().unwrap();
    assert_eq!(chat.model_chain(), vec!["gemma", "big"]);
    match (&chat.clients()[0], &chat.clients()[1]) {
        (Backend::Http(l), Backend::Http(c)) => {
            assert_eq!(l.base_url, "http://l/v1");
            assert_eq!(l.api_key, None);
            assert_eq!((l.max_tokens, l.context_tokens), (1024, 4096));
            assert_eq!(c.base_url, "http://c/v1");
            assert_eq!(c.api_key.as_deref(), Some("SECRET-REDACTED"));
        }
        _ => panic!("not http"),
    }
    let code = cfg.build_profile_llm("code", &env, None).ok().unwrap();
    assert!(code.is_subprocess());
    match &code.clients()[0] {
        Backend::Subprocess(s) => {
            assert_eq!(s.flavor, SubprocessKind::ClaudeCode);
            assert_eq!(s.base_url, "http://gw");
            assert_eq!(s.permission_mode, "acceptEdits");
            assert_eq!((s.idle_ms, s.ceiling_ms, s.max_turns), (60000, 1800000, Some(3)));
        }
        Backend::Http(_) => panic!("http"),
    }
    assert_eq!(cfg.build_profile_llm("nope", &env, None).err().unwrap(), "unknown profile: nope");
    assert_eq!(cfg.build_profile_llm("broken", &env, None).err().unwrap(), "profile 'broken' has no usable backend");
    assert_eq!(
        cfg.build_client("nope", cfg.profiles.get("chat").unwrap(), &env, None).err().unwrap(),
        "unknown backend 'nope'"
    );
    let all = cfg.build_all_llms(&env, None).ok().unwrap();
    assert_eq!(all.keys(), vec!["chat", "code"]);
}

#[test]
fn chat_is_required() {
    let mut file = profiles_file();
    file.profiles.remove("chat");
    let cfg = Config::assemble_on(file, backends(), environment(), None, "2024-02-03").ok().unwrap();
    assert_eq!(
        cfg.build_all_llms(&NameMap::new(), None).err().unwrap(),
        "the 'chat' profile is required but failed to build"
    );
}

#[test]
fn reloads_drop_overrides_that_no_longer_build() {
    let env = NameMap::new();
    let mut overrides = NameMap::new();
    overrides.insert("!a:s".to_string(), "code".to_string());
    overrides.insert("!b:s".to_string(), "broken".to_string());
    let cfg = assembled();
    let llms = cfg.build_all_llms(&env, None).ok().unwrap();
    let mut st = ReloadableState::from_config(cfg, llms, &overrides);
    assert_eq!(st.room_profiles.keys(), vec!["!a:s"]);
    let mut file = profiles_file();
    file.profiles.remove("code");
    let cfg = Config::assemble_on(file, backends(), environment(), Some("new"), "2024-02-03").ok().unwrap();
    let llms = cfg.build_all_llms(&env, None).ok().unwrap();
    st.reload(cfg, llms);
    assert_eq!(st.room_profiles.len(), 0);
    assert_eq!(st.system_prompt, "new");
    assert_eq!(st.profile_comms.keys(), vec!["broken", "chat"]);
}

#[test]
fn a_bad_config_leaves_the_running_one_in_place() {
    let env = NameMap::new();
    let mut overrides = NameMap::new();
    overrides.insert("!a:s".to_string(), "code".to_string());
    let cfg = assembled();
    let llms = cfg.build_all_llms(&env, None).ok().unwrap();
    let mut st = ReloadableState::from_config(cfg, llms, &overrides);
    let prompt = st.system_prompt.clone();

    let e = st.reload_from(Err("no such file".to_string()), &env, None).err().unwrap();
    assert!(matches!(e, ReloadError::Load(_)));
    assert_eq!(e.message(), "config reload failed (keeping current config): no such file");
    assert_eq!(st.system_prompt, prompt);
    assert_eq!(st.llms.keys(), vec!["chat", "code"]);

    let mut file = profiles_file();
    file.profiles.remove("chat");
    let bad = Config::assemble_on(file, backends(), environment(), Some("bad"), "2024-02-03").ok().unwrap();
    let e = st.reload_from(Ok(bad), &env, None).err().unwrap();
    assert!(matches!(e, ReloadError::Build(_)));
    assert_eq!(
        e.message(),
        "config reload failed building LLMs (keeping current config): the 'chat' profile is required but failed to build"
    );
    assert_eq!(st.system_prompt, prompt);
    assert_eq!(st.room_profiles.keys(), vec!["!a:s"]);

    let mut file = profiles_file();
    file.profiles.remove("code");
    let good = Config::assemble_on(file, backends(), environment(), Some("new"), "2024-02-03").ok().unwrap();
    assert!(st.reload_from(Ok(good), &env, None).is_ok());
    assert_eq!(st.system_prompt, "new");
    assert_eq!(st.llms.keys(), vec!["chat"]);
    assert_eq!(st.room_profiles.len(), 0);
}

#[test]
fn base_urls_end_in_one_v1() {
    let mut b = NameMap::new();
    b.insert("x".to_string(), backend(BackendKind::OpenAi, "http://x/v1/v1//", "m", ""));
    let cfg = Config::assemble_on(profiles_file(), b, environment(), None, "2024-02-03").ok().unwrap();
    match cfg.build_client("x", cfg.profiles.get("chat").unwrap(), &NameMap::new(), None) {
        Ok(Backend::Http(c)) => assert_eq!(c.base_url, "http://x/v1"),
        _ => panic!("not http"),
    }
}

#[test]
fn paths_and_names_are_read() {
    assert_eq!(parse_allowlist(""), Vec::<String>::new());
    assert_eq!(localpart_of("@roger:srv:8448"), "roger");
    assert_eq!(localpart_of("roger"), "roger");
    assert_eq!(expand_tilde(Some("/h"), "~"), "/h");
    assert_eq!(expand_tilde(Some("/h/"), "~/a"), "/h/a");
    assert_eq!(expand_tilde(Some("/h"), "~user/a"), "~user/a");
    assert_eq!(expand_tilde(None, "~/a"), "~/a");
    assert_eq!(join_path("a", "/b"), "/b");
    assert_eq!(join_path("", "b"), "b");
    assert_eq!(state_dir(None, Some("/h")), "/h/.roger");
    assert_eq!(state_dir(Some("/x"), Some("/h")), "/x");
    let expanded = expand_projects(&profiles_file().projects, Some("/h"));
    assert_eq!(expanded.get("p").map(String::as_str), Some("/h/p"));
}

#[test]
fn transcripts_are_trimmed() {
    let c = SpeachesClient::new("http://sp//".to_string());
    assert_eq!(c.transcriptions_url(), "http://sp/v1/audio/transcriptions");
    assert_eq!(transcript("  hello \n"), "hello");
    assert_eq!(failed_text("500", "x"), "speaches transcription failed 500: x");
}

#[test]
fn the_panel_asks_for_its_token() {
    assert!(check_auth("", None));
    assert!(check_auth("SECRET-REDACTED", Some("Bearer SECRET-REDACTED")));
    assert!(!check_auth("SECRET-REDACTED", Some("SECRET-REDACTED")));
    assert!(!check_auth("SECRET-REDACTED", None));
    assert_eq!(refuse_message(" "), Some("message is empty"));
    assert_eq!(refuse_message("x"), None);
    assert_eq!(room_not_found("!a:s"), "room not found: !a:s");
}

#[test]
fn the_panel_lists_rooms_by_name() {
    let cfg = assembled();
    let llms = cfg.build_all_llms(&NameMap::new(), None).ok().unwrap();
    let st = ReloadableState::from_config(cfg, llms, &NameMap::new());
    let rooms = list_rooms(&st);
    let seen: Vec<(&str, &str, &str, bool)> = rooms
        .iter()
        .map(|(n, r)| (n.as_str(), r.id.as_str(), r.profile.as_str(), r.require_mention))
        .collect();
    assert_eq!(seen, vec![("Alpha", "!z:s", "chat", true), ("Beta", "!y:s", "chat", true)]);
    let page = dashboard("@roger:s", 12, 3, &rooms);
    assert!(page.starts_with("<!DOCTYPE html>\n<html lang=\"en\">"));
    assert!(page.contains("  @roger:s &nbsp;|&nbsp;\n  uptime 12s &nbsp;|&nbsp;\n  3 active job(s) &nbsp;|&nbsp;"));
    assert!(page.contains("<select id=\"room\"><option value=\"!z:s\">Alpha</option>\n<option value=\"!y:s\">Beta</option></select>"));
    assert!(page.contains("<tr><th colspan=\"3\" class=\"cat\">Info</th></tr>\n<tr><td><code>/status</code></td><td><code></code></td><td>Show active jobs, profile, memory sizes</td></tr>\n<tr><td><code>/jobs</code></td>"));
    assert!(page.ends_with("</script>\n</body>\n</html>"));
    assert_eq!(page.matches("class=\"cat\"").count(), 7);
}

#[test]
fn the_command_table_is_complete() {
    let cmds = commands();
    assert_eq!(cmds.len(), 13);
    assert_eq!(cmds[0].name, "/help");
    assert_eq!(cmds[12].description, "Remove a learned or pending skill");
}

#[test]
fn averages_are_zero_without_requests() {
    let mut m = Metrics::default();
    assert_eq!(m.snapshot().avg_latency_ms, 0);
    m.record(u64::MAX, true);
    m.record(u64::MAX, true);
    assert_eq!(m.snapshot().avg_latency_ms, u64::MAX);
    assert_eq!(m.snapshot().requests, 2);
    assert_eq!(m.snapshot().errors, 0);
}

#[test]
fn budgets_have_defaults() {
    let c = CommsConfig::default();
    assert_eq!(
        (c.idle_timeout_ms, c.absolute_ceiling_ms, c.soft_worker_cap, c.max_concurrent_children, c.edit_debounce_ms),
        (60000, 1800000, 4, 3, 600)
    );
    assert_eq!(CommsMode::default(), CommsMode::Auto);
    assert_eq!(BackendKind::default(), BackendKind::OpenAi);
    assert!(RoomConfig::default().require_mention);
}
