use roger::files::{
    list_dir_reply, read_file_reply, shows_whole_characters, write_file_reply, EntryInfo,
    WriteOutcome,
};
use roger::mcp::{call_reply, render_content, McpManager, McpOutcome, McpTool, Route};
use roger::names::NameMap;
use roger::room_workdirs::RoomWorkdirStore;
use roger::skills::{SkillDir, SkillStore};
use roger::tools::{
    tool_definitions, web_fetch_reply, web_search_reply, FetchOutcome, Schema, SearchOutcome,
    ToolAction, ToolCall, ToolExecutor, ToolFunction,
};

fn call(name: &str, arguments: &str) -> ToolCall {
    ToolCall {
        id: "1".into(),
        kind: "function".into(),
        function: ToolFunction { name: name.into(), arguments: arguments.into() },
    }
}

fn workdir_call(project: &str) -> ToolCall {
    call("set_workdir", &format!("{{\"project\":\"{}\"}}", project))
}

fn plain() -> ToolExecutor {
    ToolExecutor::with_projects(None, NameMap::new(), None, None, None)
}

fn reply(a: ToolAction) -> String {
    match a {
        ToolAction::Reply(t) => t,
        ToolAction::SaveWorkdirs { reply, .. } => reply,
        ToolAction::SaveDraft { reply, .. } => reply,
        other => panic!("{:?}", other),
    }
}

#[test]
fn set_workdir_records_for_room() {
    let store = RoomWorkdirStore::load("/state/rw.json".to_string(), None);
    let mut projects = NameMap::new();
    projects.insert("foo".to_string(), "/tmp/foo".to_string());
    let mut exec = ToolExecutor::with_projects(None, projects, Some(store), None, None);

    let out = reply(exec.execute(&workdir_call("foo"), Some("!room:s"), false, "/root"));
    assert!(out.contains("/tmp/foo"), "got: {}", out);
    assert_eq!(exec.room_workdirs.unwrap().get("!room:s").as_deref(), Some("/tmp/foo"));
}

#[test]
fn set_workdir_unknown_project_errors() {
    let store = RoomWorkdirStore::load("/state/rw.json".to_string(), None);
    let mut exec = ToolExecutor::with_projects(None, NameMap::new(), Some(store), None, None);

    let out = reply(exec.execute(&workdir_call("bar"), Some("!room:s"), false, "/root"));
    assert!(out.starts_with("error: unknown project"), "got: {}", out);
    assert!(exec.room_workdirs.unwrap().get("!room:s").is_none());
}

#[test]
fn executor_tool_definitions_returns_native_without_mcp() {
    let exec = plain();
    assert_eq!(exec.tool_definitions(&[]).len(), 9);
}

#[test]
fn run_subagent_advertised_only_when_scoped() {
    let exec = plain();
    assert_eq!(exec.tool_definitions(&[]).len(), 9);

    let agents = vec![
        ("coder".to_string(), "writes code".to_string()),
        ("plain".to_string(), String::new()),
    ];
    let defs = exec.tool_definitions(&agents);
    let names: Vec<String> = defs.iter().map(|t| t.name.clone()).collect();
    assert!(names.contains(&"run_subagent".to_string()));
    assert!(defs.last().unwrap().description.ends_with("Available agents: coder — writes code; plain"));
}

#[test]
fn run_subagent_routes_to_host_or_errors() {
    let mut exec = plain();
    let c = call("run_subagent", "{\"agent\":\"coder\",\"task\":\"hi\"}");
    // Unscoped → not available.
    assert!(reply(exec.execute(&c, None, false, "/root")).contains("not available"));
    // Scoped → routed to the host.
    match exec.execute(&c, None, true, "/root") {
        ToolAction::Subagent { agent, task } => {
            assert_eq!(agent, "coder");
            assert_eq!(task, "hi");
        }
        other => panic!("{:?}", other),
    }
}

#[test]
fn tool_definitions_is_valid_json_array() {
    let arr = tool_definitions();
    assert_eq!(arr.len(), 9);
    let names: Vec<&str> = arr.iter().map(|t| t.name.as_str()).collect();
    assert_eq!(
        names,
        &[
            "web_search", "web_fetch", "read_file", "write_file", "list_dir",
            "search_history", "read_skill", "write_skill", "set_workdir"
        ]
    );
}

#[test]
fn only_the_query_of_a_history_search_is_required() {
    let defs = tool_definitions();
    match &defs[5].schema {
        Schema::Params(ps) => {
            let seen: Vec<(&str, &str, bool)> =
                ps.iter().map(|p| (p.name.as_str(), p.kind.as_str(), p.required)).collect();
            assert_eq!(
                seen,
                vec![("query", "string", true), ("room", "string", false), ("limit", "integer", false)]
            );
        }
        Schema::Json(_) => panic!("no params"),
    }
}

#[test]
fn bad_arguments_are_told() {
    let mut exec = plain();
    assert_eq!(
        reply(exec.execute(&call("web_fetch", "{"), None, false, "/root")),
        "error: bad arguments: EOF while parsing an object at line 1 column 1"
    );
    // JSON that is no object has no arguments.
    assert_eq!(reply(exec.execute(&call("web_fetch", "[1]"), None, false, "/root")), "error: empty URL");
    assert_eq!(reply(exec.execute(&call("nope", "{}"), None, false, "/root")), "error: unknown tool 'nope'");
}

#[test]
fn tools_ask_for_their_work() {
    let mut exec = ToolExecutor::with_projects(Some("http://s//".into()), NameMap::new(), None, None, None);
    match exec.execute(&call("web_search", "{\"query\":\"rust\"}"), None, false, "/root") {
        ToolAction::WebSearch { url, query } => assert_eq!((url.as_str(), query.as_str()), ("http://s/search", "rust")),
        other => panic!("{:?}", other),
    }
    match exec.execute(&call("read_file", "{\"path\":\"~/a\"}"), None, false, "/home/r") {
        ToolAction::ReadFile { path } => assert_eq!(path, "/home/r/a"),
        other => panic!("{:?}", other),
    }
    match exec.execute(&call("write_file", "{\"path\":\"/a\",\"content\":\"c\"}"), None, false, "/home/r") {
        ToolAction::WriteFile { path, content } => assert_eq!((path.as_str(), content.as_str()), ("/a", "c")),
        other => panic!("{:?}", other),
    }
    match exec.execute(&call("list_dir", "{}"), None, false, "/home/r") {
        ToolAction::ListDir { path } => assert_eq!(path, "/home/r"),
        other => panic!("{:?}", other),
    }
    assert_eq!(reply(exec.execute(&call("read_file", "{}"), None, false, "/root")), "error: path is required");
    assert_eq!(reply(exec.execute(&call("write_file", "{}"), None, false, "/root")), "error: path is required");
    assert_eq!(
        reply(plain().execute(&call("web_search", "{}"), None, false, "/root")),
        "error: web search is not configured (no SEARXNG_URL)"
    );
}

#[test]
fn history_searches_are_limited() {
    let mut exec = plain();
    assert_eq!(
        reply(exec.execute(&call("search_history", "{\"query\":\"x\"}"), None, false, "/root")),
        "error: history search is not configured"
    );
    let mut exec = plain().with_history();
    for (args, want) in [
        ("{\"query\":\"x\"}", 10usize),
        ("{\"query\":\"x\",\"limit\":3}", 3),
        ("{\"query\":\"x\",\"limit\":999}", 50),
        ("{\"query\":\"x\",\"limit\":-1}", 10),
    ] {
        match exec.execute(&call("search_history", args), None, false, "/root") {
            ToolAction::SearchHistory { query, room, limit } => {
                assert_eq!(query, "x");
                assert_eq!(room, None);
                assert_eq!(limit, want);
            }
            other => panic!("{:?}", other),
        }
    }
}

#[test]
fn skills_are_read_and_drafted() {
    let mut exec = plain();
    assert_eq!(
        reply(exec.execute(&call("read_skill", "{\"name\":\"x\"}"), None, false, "/root")),
        "error: skills are not configured"
    );
    assert_eq!(
        reply(exec.execute(&call("write_skill", "{}"), None, false, "/root")),
        "error: skills are not configured"
    );
    let mut skills = SkillStore::new("/cfg", "/state");
    skills.restore(SkillDir::Committed, "x.md".into(), "the body".into());
    let mut exec = ToolExecutor::with_projects(None, NameMap::new(), None, None, Some(skills));
    assert_eq!(reply(exec.execute(&call("read_skill", "{\"name\":\"x\"}"), None, false, "/root")), "the body");
    assert_eq!(
        reply(exec.execute(&call("read_skill", "{\"name\":\"y\"}"), None, false, "/root")),
        "error: no skill named 'y'"
    );
    match exec.execute(
        &call("write_skill", "{\"name\":\"my flow\",\"description\":\"d\",\"steps\":\"s\"}"),
        None,
        false,
        "/root",
    ) {
        ToolAction::SaveDraft { file, content, reply } => {
            assert_eq!(file, "my_flow.md");
            assert_eq!(content, "# my flow\n\nd\n\ns");
            assert_eq!(reply, "Drafted skill 'my flow' (pending). Ask the user to run `/skills approve my flow`.");
        }
        other => panic!("{:?}", other),
    }
    assert_eq!(exec.skills.as_ref().unwrap().list().1, vec!["my_flow"]);
    assert_eq!(
        reply(exec.execute(&call("write_skill", "{\"name\":\"!\"}"), None, false, "/root")),
        "error: invalid skill name"
    );
}

#[test]
fn workdir_errors_say_what_is_missing() {
    assert_eq!(
        reply(plain().execute(&workdir_call("foo"), Some("!r:s"), false, "/root")),
        "error: workdir routing is not configured"
    );
    let store = RoomWorkdirStore::load("/state/rw.json".to_string(), None);
    let mut projects = NameMap::new();
    projects.insert("b".to_string(), "/b".to_string());
    projects.insert("a".to_string(), "/a".to_string());
    let mut exec = ToolExecutor::with_projects(None, projects, Some(store), None, None);
    assert_eq!(
        reply(exec.execute(&workdir_call("a"), None, false, "/root")),
        "error: no room context for set_workdir"
    );
    assert_eq!(
        reply(exec.execute(&workdir_call("c"), Some("!r:s"), false, "/root")),
        "error: unknown project 'c'. Known projects: a, b"
    );
}

#[test]
fn handles_recognizes_mcp_prefix() {
    assert!(McpManager::handles("mcp__fs__read"));
    assert!(!McpManager::handles("web_search"));
    assert!(!McpManager::handles("read_file"));
}

#[test]
fn empty_manager_advertises_nothing() {
    let m = McpManager::default();
    assert!(m.is_empty());
    assert!(m.tool_definitions().is_empty());
    assert_eq!(m.summary(), (0, 0));
}

fn connected() -> McpManager {
    let mut m = McpManager::default();
    let tool = |n: &str| McpTool {
        name: n.to_string(),
        description: Some(format!("does {}", n)),
        schema: "{\"type\":\"object\"}".to_string(),
    };
    assert!(m.add_server("fs", vec![tool("read"), tool("write__all")]));
    assert!(m.add_server("web", vec![McpTool { name: "get".into(), description: None, schema: "{}".into() }]));
    assert!(!m.add_server("fs", vec![]));
    m
}

#[test]
fn mcp_tools_are_namespaced() {
    let m = connected();
    assert_eq!(m.summary(), (2, 3));
    let defs = m.tool_definitions();
    assert_eq!(defs[0].name, "mcp__fs__read");
    assert_eq!(defs[0].description, "does read");
    assert_eq!(defs[2].name, "mcp__web__get");
    assert_eq!(defs[2].description, "");
    assert!(matches!(&defs[0].schema, Schema::Json(j) if j == "{\"type\":\"object\"}"));
    let exec = ToolExecutor::with_projects(None, NameMap::new(), None, Some(m), None);
    assert_eq!(exec.mcp_summary(), (2, 3));
    assert_eq!(exec.tool_definitions(&[]).len(), 12);
}

#[test]
fn mcp_calls_are_routed_back() {
    let m = connected();
    match m.route("mcp__fs__write__all") {
        Route::Call { server, tool } => assert_eq!((server.as_str(), tool.as_str()), ("fs", "write__all")),
        Route::Refused(why) => panic!("{}", why),
    }
    let refused = |name: &str| match m.route(name) {
        Route::Refused(why) => why,
        Route::Call { .. } => panic!("routed"),
    };
    assert_eq!(refused("web_search"), "error: not an mcp tool: web_search");
    assert_eq!(refused("mcp__fs"), "error: malformed mcp tool name: mcp__fs");
    assert_eq!(refused("mcp__db__get"), "error: unknown mcp server 'db'");
    let mut exec = plain();
    assert_eq!(reply(exec.execute(&call("mcp__fs__read", "{}"), None, false, "/root")), "error: MCP is not configured");
    exec.mcp = Some(m);
    match exec.execute(&call("mcp__fs__read", "{}"), None, false, "/root") {
        ToolAction::Mcp { server, tool } => assert_eq!((server.as_str(), tool.as_str()), ("fs", "read")),
        other => panic!("{:?}", other),
    }
}

#[test]
fn reserved_server_names_are_skipped() {
    assert!(McpManager::accepts("fs", true));
    assert!(!McpManager::accepts("fs", false));
    assert!(!McpManager::accepts("a__b", true));
}

#[test]
fn mcp_results_are_flattened() {
    assert_eq!(render_content(&[]), "(no text content)");
    assert_eq!(render_content(&[Some("a".into()), None, Some("b".into())]), "a\nb");
    assert_eq!(call_reply(&McpOutcome::Failed("gone".into())), "error: mcp call failed: gone");
    assert_eq!(
        call_reply(&McpOutcome::Done { is_error: true, blocks: vec![Some("bad".into())] }),
        "error: bad"
    );
    assert_eq!(call_reply(&McpOutcome::Done { is_error: false, blocks: vec![] }), "(no text content)");
}

#[test]
fn file_tools_answer() {
    assert_eq!(read_file_reply("/a", Ok("text")), "[/a]\n\ntext");
    assert_eq!(read_file_reply("/a", Err("gone")), "error reading /a: gone");
    let long = "z".repeat(50_001);
    assert_eq!(
        read_file_reply("/a", Ok(&long)),
        format!("[/a]\n\n{}\n\n[truncated: 50000 of 50001 bytes shown]", "z".repeat(50_000))
    );
    assert!(!shows_whole_characters(&format!("{}é", "z".repeat(49_999))));
    assert!(shows_whole_characters(&format!("{}é", "z".repeat(49_998))));
    assert_eq!(write_file_reply("/a", "é", &WriteOutcome::Done), "wrote 2 bytes to /a");
    assert_eq!(
        write_file_reply("/a", "", &WriteOutcome::NoDirectory("no".into())),
        "error creating directories for /a: no"
    );
    assert_eq!(write_file_reply("/a", "", &WriteOutcome::Failed("no".into())), "error writing /a: no");
    assert_eq!(list_dir_reply("/d", Ok(vec![])), "[/d]\n  (empty)");
    assert_eq!(list_dir_reply("/d", Err("no".into())), "error listing /d: no");
    assert_eq!(
        list_dir_reply(
            "/d",
            Ok(vec![
                ("b".into(), EntryInfo { is_dir: false, size: 12 }),
                ("a".into(), EntryInfo { is_dir: true, size: 0 }),
            ])
        ),
        "[/d]\n  a/\n  b (12 bytes)"
    );
}

#[test]
fn web_tools_answer() {
    assert_eq!(web_search_reply("q", &SearchOutcome::Failed("x".into())), "error: search request failed: x");
    assert_eq!(web_search_reply("q", &SearchOutcome::Status("500".into())), "error: search returned 500");
    assert_eq!(
        web_search_reply("q", &SearchOutcome::Unreadable("x".into())),
        "error: failed to parse search results: x"
    );
    assert_eq!(web_fetch_reply("u", &FetchOutcome::Failed("x".into())).unwrap(), "error: fetch failed: x");
    assert_eq!(web_fetch_reply("u", &FetchOutcome::Status("404".into())).unwrap(), "error: u returned 404");
    assert_eq!(
        web_fetch_reply("u", &FetchOutcome::Unreadable("x".into())).unwrap(),
        "error: failed to read response: x"
    );
    assert_eq!(
        web_fetch_reply("u", &FetchOutcome::Page("<b>hi</b>".into())).unwrap(),
        "[Content from u]\n\nhi"
    );
}
