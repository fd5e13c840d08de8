//! The tools that a model can call, and what each call asks for.

use crate::config;
use crate::files;
use crate::html;
use crate::json;
use crate::mcp::{McpManager, Route};
use crate::mcp;
use crate::names;
use crate::names::NameMap;
use crate::room_workdirs::RoomWorkdirStore;
use crate::search::SearxngResponse;
use crate::search;
use crate::skills::SkillStore;
use crate::skills;
use crate::text;
use crate::text::Class;
use vstd::prelude::*;
use vstd::string::*;

verus! {

/// A parameter of a tool.
#[derive(Debug)]
pub struct ToolParam {
    pub name: String,
    pub kind: String,
    pub description: String,
    pub required: bool,
}

/// What a tool takes: named parameters, or a JSON schema as text.
#[derive(Debug)]
pub enum Schema {
    Params(Vec<ToolParam>),
    Json(String),
}

/// A tool as it is told to the model.
#[derive(Debug)]
pub struct ToolDef {
    pub name: String,
    pub description: String,
    pub schema: Schema,
}

/// A parameter, by its texts.
#[verifier::ext_equal]
pub struct ParamView {
    pub name: Seq<char>,
    pub kind: Seq<char>,
    pub description: Seq<char>,
    pub required: bool,
}

/// A tool with named parameters, by its texts.
#[verifier::ext_equal]
pub struct ToolView {
    pub name: Seq<char>,
    pub description: Seq<char>,
    pub params: Seq<ParamView>,
}

impl View for ToolParam {
    type V = ParamView;

    open spec fn view(&self) -> ParamView {
        ParamView {
            name: self.name@,
            kind: self.kind@,
            description: self.description@,
            required: self.required,
        }
    }
}

impl ToolDef {
    /// The definition of `t`.
    pub open spec fn is(self, t: ToolView) -> bool {
        &&& self.name@ == t.name
        &&& self.description@ == t.description
        &&& self.schema matches Schema::Params(ps)
        &&& ps@.map_values(|p: ToolParam| p@) == t.params
    }
}

/// A parameter with the given texts.
pub open spec fn param(
    name: Seq<char>,
    kind: Seq<char>,
    description: Seq<char>,
    required: bool,
) -> ParamView {
    ParamView { name, kind, description, required }
}

/// The native tools.
pub open spec fn native_tools() -> Seq<ToolView> {
    seq![
        ToolView {
            name: "web_search"@,
            description: "Search the web for current information, news, and facts. Use this when you need up-to-date information or when you don't know something."@,
            params: seq![
                param("query"@, "string"@, "The search query"@, true),
            ],
        },
        ToolView {
            name: "web_fetch"@,
            description: "Fetch and read the contents of a web page. Use this to read articles, documentation, or any URL."@,
            params: seq![
                param("url"@, "string"@, "The full URL to fetch"@, true),
            ],
        },
        ToolView {
            name: "read_file"@,
            description: "Read the contents of a file on the local filesystem. Use ~ for the home directory."@,
            params: seq![
                param("path"@, "string"@, "Absolute or ~ path to the file"@, true),
            ],
        },
        ToolView {
            name: "write_file"@,
            description: "Write (or overwrite) a file on the local filesystem. Creates parent directories as needed."@,
            params: seq![
                param("path"@, "string"@, "Absolute or ~ path to the file"@, true),
                param("content"@, "string"@, "Text content to write"@, true),
            ],
        },
        ToolView {
            name: "list_dir"@,
            description: "List the contents of a directory on the local filesystem."@,
            params: seq![
                param("path"@, "string"@, "Absolute or ~ path to the directory"@, true),
            ],
        },
        ToolView {
            name: "search_history"@,
            description: "Search past conversation history across rooms for messages containing a keyword or phrase. Returns matching messages with room context. Use when the user asks about something discussed before, or to recall a past decision."@,
            params: seq![
                param("query"@, "string"@, "Keyword or phrase to search for (case-insensitive)"@, true),
                param("room"@, "string"@, "Limit search to a specific room ID (optional; omit to search all rooms)"@, false),
                param("limit"@, "integer"@, "Max number of matching messages to return (default 10, max 50)"@, false),
            ],
        },
        ToolView {
            name: "read_skill"@,
            description: "Load the full steps of a named skill listed in the Skills section."@,
            params: seq![
                param("name"@, "string"@, "The skill name"@, true),
            ],
        },
        ToolView {
            name: "write_skill"@,
            description: "Capture a reusable procedure as a skill (saved pending user approval). Use after solving a non-trivial task that would recur."@,
            params: seq![
                param("name"@, "string"@, "Short kebab-case skill name"@, true),
                param("description"@, "string"@, "One-line summary of what it does / when to use it"@, true),
                param("steps"@, "string"@, "The procedure, as markdown steps"@, true),
            ],
        },
        ToolView {
            name: "set_workdir"@,
            description: "Set the working directory (project) for this room's agentic coding agent. Call this when the user asks to work on, edit, or build a specific known project. The choice persists for the room until changed."@,
            params: seq![
                param("project"@, "string"@, "The name of a known project to work in"@, true),
            ],
        },
    ]
}

/// A parameter with the given texts.
fn new_param(name: &str, kind: &str, description: &str, required: bool) -> (r: ToolParam)
    ensures
        r@ == param(name@, kind@, description@, required),
{
    ToolParam {
        name: name.to_owned(),
        kind: kind.to_owned(),
        description: description.to_owned(),
        required,
    }
}

/// A tool with the given texts.
fn new_tool(name: &str, description: &str, params: Vec<ToolParam>) -> (r: ToolDef)
    ensures
        r.is(
            ToolView {
                name: name@,
                description: description@,
                params: params@.map_values(|p: ToolParam| p@),
            },
        ),
{
    ToolDef {
        name: name.to_owned(),
        description: description.to_owned(),
        schema: Schema::Params(params),
    }
}

/// `defs` are the definitions of `tools`, one for one.
pub open spec fn defines(defs: Seq<ToolDef>, tools: Seq<ToolView>) -> bool {
    defs.len() == tools.len() && forall|i: int|
        0 <= i < defs.len() ==> (#[trigger] defs[i]).is(tools[i])
}

/// The definition of `web_search`.
fn web_search_def() -> (r: ToolDef)
    ensures
        r.is(native_tools()[0]),
{
    let mut ps: Vec<ToolParam> = Vec::new();
    ps.push(new_param("query", "string", "The search query", true));
    assert(ps@.map_values(|p: ToolParam| p@) =~= native_tools()[0].params);
    new_tool("web_search", "Search the web for current information, news, and facts. Use this when you need up-to-date information or when you don't know something.", ps)
}

/// The definition of `web_fetch`.
fn web_fetch_def() -> (r: ToolDef)
    ensures
        r.is(native_tools()[1]),
{
    let mut ps: Vec<ToolParam> = Vec::new();
    ps.push(new_param("url", "string", "The full URL to fetch", true));
    assert(ps@.map_values(|p: ToolParam| p@) =~= native_tools()[1].params);
    new_tool("web_fetch", "Fetch and read the contents of a web page. Use this to read articles, documentation, or any URL.", ps)
}

/// The definition of `read_file`.
fn read_file_def() -> (r: ToolDef)
    ensures
        r.is(native_tools()[2]),
{
    let mut ps: Vec<ToolParam> = Vec::new();
    ps.push(new_param("path", "string", "Absolute or ~ path to the file", true));
    assert(ps@.map_values(|p: ToolParam| p@) =~= native_tools()[2].params);
    new_tool("read_file", "Read the contents of a file on the local filesystem. Use ~ for the home directory.", ps)
}

/// The definition of `write_file`.
fn write_file_def() -> (r: ToolDef)
    ensures
        r.is(native_tools()[3]),
{
    let mut ps: Vec<ToolParam> = Vec::new();
    ps.push(new_param("path", "string", "Absolute or ~ path to the file", true));
    ps.push(new_param("content", "string", "Text content to write", true));
    assert(ps@.map_values(|p: ToolParam| p@) =~= native_tools()[3].params);
    new_tool("write_file", "Write (or overwrite) a file on the local filesystem. Creates parent directories as needed.", ps)
}

/// The definition of `list_dir`.
fn list_dir_def() -> (r: ToolDef)
    ensures
        r.is(native_tools()[4]),
{
    let mut ps: Vec<ToolParam> = Vec::new();
    ps.push(new_param("path", "string", "Absolute or ~ path to the directory", true));
    assert(ps@.map_values(|p: ToolParam| p@) =~= native_tools()[4].params);
    new_tool("list_dir", "List the contents of a directory on the local filesystem.", ps)
}

/// The definition of `search_history`.
fn search_history_def() -> (r: ToolDef)
    ensures
        r.is(native_tools()[5]),
{
    let mut ps: Vec<ToolParam> = Vec::new();
    ps.push(new_param("query", "string", "Keyword or phrase to search for (case-insensitive)", true));
    ps.push(new_param("room", "string", "Limit search to a specific room ID (optional; omit to search all rooms)", false));
    ps.push(new_param("limit", "integer", "Max number of matching messages to return (default 10, max 50)", false));
    assert(ps@.map_values(|p: ToolParam| p@) =~= native_tools()[5].params);
    new_tool("search_history", "Search past conversation history across rooms for messages containing a keyword or phrase. Returns matching messages with room context. Use when the user asks about something discussed before, or to recall a past decision.", ps)
}

/// The definition of `read_skill`.
fn read_skill_def() -> (r: ToolDef)
    ensures
        r.is(native_tools()[6]),
{
    let mut ps: Vec<ToolParam> = Vec::new();
    ps.push(new_param("name", "string", "The skill name", true));
    assert(ps@.map_values(|p: ToolParam| p@) =~= native_tools()[6].params);
    new_tool("read_skill", "Load the full steps of a named skill listed in the Skills section.", ps)
}

/// The definition of `write_skill`.
fn write_skill_def() -> (r: ToolDef)
    ensures
        r.is(native_tools()[7]),
{
    let mut ps: Vec<ToolParam> = Vec::new();
    ps.push(new_param("name", "string", "Short kebab-case skill name", true));
    ps.push(new_param("description", "string", "One-line summary of what it does / when to use it", true));
    ps.push(new_param("steps", "string", "The procedure, as markdown steps", true));
    assert(ps@.map_values(|p: ToolParam| p@) =~= native_tools()[7].params);
    new_tool("write_skill", "Capture a reusable procedure as a skill (saved pending user approval). Use after solving a non-trivial task that would recur.", ps)
}

/// The definition of `set_workdir`.
fn set_workdir_def() -> (r: ToolDef)
    ensures
        r.is(native_tools()[8]),
{
    let mut ps: Vec<ToolParam> = Vec::new();
    ps.push(new_param("project", "string", "The name of a known project to work in", true));
    assert(ps@.map_values(|p: ToolParam| p@) =~= native_tools()[8].params);
    new_tool("set_workdir", "Set the working directory (project) for this room's agentic coding agent. Call this when the user asks to work on, edit, or build a specific known project. The choice persists for the room until changed.", ps)
}

/// The native tools, which every chat request advertises.
pub fn tool_definitions() -> (r: Vec<ToolDef>)
    ensures
        defines(r@, native_tools()),
{
    let mut out: Vec<ToolDef> = Vec::new();
    out.push(web_search_def());
    out.push(web_fetch_def());
    out.push(read_file_def());
    out.push(write_file_def());
    out.push(list_dir_def());
    out.push(search_history_def());
    out.push(read_skill_def());
    out.push(write_skill_def());
    out.push(set_workdir_def());
    out
}

/// A call of a tool, as the model makes it.
#[derive(Debug)]
pub struct ToolCall {
    pub id: String,
    pub kind: String,
    pub function: ToolFunction,
}

/// The tool that is called, and the JSON text of its arguments.
#[derive(Debug)]
pub struct ToolFunction {
    pub name: String,
    pub arguments: String,
}

impl Clone for ToolFunction {
    fn clone(&self) -> (r: Self)
        ensures
            r == *self,
    {
        ToolFunction { name: self.name.clone(), arguments: self.arguments.clone() }
    }
}

impl Clone for ToolCall {
    fn clone(&self) -> (r: Self)
        ensures
            r == *self,
    {
        ToolCall { id: self.id.clone(), kind: self.kind.clone(), function: self.function.clone() }
    }
}

/// The arguments that the tools read, each where it was given and has the right type.
#[derive(Debug)]
pub struct ToolArgs {
    pub query: Option<String>,
    pub url: Option<String>,
    pub path: Option<String>,
    pub content: Option<String>,
    pub project: Option<String>,
    pub name: Option<String>,
    pub description: Option<String>,
    pub steps: Option<String>,
    pub room: Option<String>,
    pub agent: Option<String>,
    pub task: Option<String>,
    pub limit: Option<u64>,
}

/// The arguments, by their texts.
pub struct ArgsView {
    pub query: Option<Seq<char>>,
    pub url: Option<Seq<char>>,
    pub path: Option<Seq<char>>,
    pub content: Option<Seq<char>>,
    pub project: Option<Seq<char>>,
    pub name: Option<Seq<char>>,
    pub description: Option<Seq<char>>,
    pub steps: Option<Seq<char>>,
    pub room: Option<Seq<char>>,
    pub agent: Option<Seq<char>>,
    pub task: Option<Seq<char>>,
    pub limit: Option<u64>,
}

impl View for ToolArgs {
    type V = ArgsView;

    open spec fn view(&self) -> ArgsView {
        ArgsView {
            query: text::opt_string(self.query),
            url: text::opt_string(self.url),
            path: text::opt_string(self.path),
            content: text::opt_string(self.content),
            project: text::opt_string(self.project),
            name: text::opt_string(self.name),
            description: text::opt_string(self.description),
            steps: text::opt_string(self.steps),
            room: text::opt_string(self.room),
            agent: text::opt_string(self.agent),
            task: text::opt_string(self.task),
            limit: self.limit,
        }
    }
}

/// The arguments that a JSON text holds.
pub open spec fn args_in(json: Seq<char>) -> ArgsView {
    ArgsView {
        query: json::json_string_at(json, "query"@),
        url: json::json_string_at(json, "url"@),
        path: json::json_string_at(json, "path"@),
        content: json::json_string_at(json, "content"@),
        project: json::json_string_at(json, "project"@),
        name: json::json_string_at(json, "name"@),
        description: json::json_string_at(json, "description"@),
        steps: json::json_string_at(json, "steps"@),
        room: json::json_string_at(json, "room"@),
        agent: json::json_string_at(json, "agent"@),
        task: json::json_string_at(json, "task"@),
        limit: json::json_u64_at(json, "limit"@),
    }
}

/// Reads the arguments of a call.
fn read_args(arguments: &str) -> (r: ToolArgs)
    ensures
        r@ == args_in(arguments@),
{
    ToolArgs {
        query: json::string_at(arguments, "query"),
        url: json::string_at(arguments, "url"),
        path: json::string_at(arguments, "path"),
        content: json::string_at(arguments, "content"),
        project: json::string_at(arguments, "project"),
        name: json::string_at(arguments, "name"),
        description: json::string_at(arguments, "description"),
        steps: json::string_at(arguments, "steps"),
        room: json::string_at(arguments, "room"),
        agent: json::string_at(arguments, "agent"),
        task: json::string_at(arguments, "task"),
        limit: json::u64_at(arguments, "limit"),
    }
}

/// An argument, empty where it was not given.
pub open spec fn given(arg: Option<Seq<char>>) -> Seq<char> {
    match arg {
        Some(t) => t,
        None => ""@,
    }
}

/// An argument, empty where it was not given.
fn given_text(arg: &Option<String>) -> (r: String)
    ensures
        r@ == given(text::opt_string(*arg)),
{
    match arg {
        Some(t) => t.clone(),
        None => "".to_owned(),
    }
}

/// What a call asks for.
#[derive(Debug)]
pub enum ToolAction {
    /// The answer is here already.
    Reply(String),
    /// Call the tool of an MCP server with the arguments of the call.
    Mcp { server: String, tool: String },
    /// Ask the search engine at `url`.
    WebSearch { url: String, query: String },
    /// Fetch a page.
    WebFetch { url: String },
    /// Read a file.
    ReadFile { path: String },
    /// Write a file.
    WriteFile { path: String, content: String },
    /// List a directory.
    ListDir { path: String },
    /// Search the history.
    SearchHistory { query: String, room: Option<String>, limit: usize },
    /// Save the workdir selections, then answer.
    SaveWorkdirs { content: String, reply: String },
    /// Save a drafted skill among the pending ones, then answer.
    SaveDraft { file: String, content: String, reply: String },
    /// Run a subagent.
    Subagent { agent: String, task: String },
}

/// What a call asks for, by its texts.
pub enum ActionView {
    Reply(Seq<char>),
    Mcp { server: Seq<char>, tool: Seq<char> },
    WebSearch { url: Seq<char>, query: Seq<char> },
    WebFetch { url: Seq<char> },
    ReadFile { path: Seq<char> },
    WriteFile { path: Seq<char>, content: Seq<char> },
    ListDir { path: Seq<char> },
    SearchHistory { query: Seq<char>, room: Option<Seq<char>>, limit: nat },
    SaveWorkdirs { content: Seq<char>, reply: Seq<char> },
    SaveDraft { file: Seq<char>, content: Seq<char>, reply: Seq<char> },
    Subagent { agent: Seq<char>, task: Seq<char> },
}

impl View for ToolAction {
    type V = ActionView;

    open spec fn view(&self) -> ActionView {
        match self {
            ToolAction::Reply(t) => ActionView::Reply(t@),
            ToolAction::Mcp { server, tool } => ActionView::Mcp { server: server@, tool: tool@ },
            ToolAction::WebSearch { url, query } => ActionView::WebSearch {
                url: url@,
                query: query@,
            },
            ToolAction::WebFetch { url } => ActionView::WebFetch { url: url@ },
            ToolAction::ReadFile { path } => ActionView::ReadFile { path: path@ },
            ToolAction::WriteFile { path, content } => ActionView::WriteFile {
                path: path@,
                content: content@,
            },
            ToolAction::ListDir { path } => ActionView::ListDir { path: path@ },
            ToolAction::SearchHistory { query, room, limit } => ActionView::SearchHistory {
                query: query@,
                room: text::opt_string(*room),
                limit: *limit as nat,
            },
            ToolAction::SaveWorkdirs { content, reply } => ActionView::SaveWorkdirs {
                content: content@,
                reply: reply@,
            },
            ToolAction::SaveDraft { file, content, reply } => ActionView::SaveDraft {
                file: file@,
                content: content@,
                reply: reply@,
            },
            ToolAction::Subagent { agent, task } => ActionView::Subagent {
                agent: agent@,
                task: task@,
            },
        }
    }
}

/// What the executor knows and keeps.
pub struct ExecutorView {
    pub searxng_url: Option<Seq<char>>,
    pub projects: Map<Seq<char>, Seq<char>>,
    pub workdirs: Option<Map<Seq<char>, Seq<char>>>,
    pub mcp: Option<mcp::McpView>,
    pub skills: Option<skills::SkillView>,
    pub history: bool,
}

/// The tools' own state: the search engine, the known projects, and the stores that tools work on.
pub struct ToolExecutor {
    pub searxng_url: Option<String>,
    /// Known projects (name → expanded path) for the `set_workdir` tool.
    pub projects: NameMap<String>,
    /// Persists per-room workdir selections.
    pub room_workdirs: Option<RoomWorkdirStore>,
    /// Connected MCP servers whose tools are also exposed to the model.
    pub mcp: Option<McpManager>,
    /// Skill store for read_skill / write_skill.
    pub skills: Option<SkillStore>,
    /// Whether there is a history for search_history.
    pub history: bool,
}

impl View for ToolExecutor {
    type V = ExecutorView;

    open spec fn view(&self) -> ExecutorView {
        ExecutorView {
            searxng_url: text::opt_string(self.searxng_url),
            projects: json::text_map(self.projects@),
            workdirs: match self.room_workdirs {
                Some(s) => Some(s@),
                None => None,
            },
            mcp: match self.mcp {
                Some(m) => Some(m@),
                None => None,
            },
            skills: match self.skills {
                Some(s) => Some(s@),
                None => None,
            },
            history: self.history,
        }
    }
}

/// The known projects in a line.
pub open spec fn known_projects(projects: Map<Seq<char>, Seq<char>>) -> Seq<char> {
    let list = text::join(names::key_list(projects.dom()), ", "@);
    if list.len() == 0 {
        "(none configured)"@
    } else {
        list
    }
}

/// `set_workdir`: the room's workdir becomes the path of a known project.
pub open spec fn workdir_set(e: ExecutorView, project: Seq<char>, room: Option<Seq<char>>) -> (
    ExecutorView,
    ActionView,
) {
    match (e.workdirs, room) {
        (None, _) => (e, ActionView::Reply("error: workdir routing is not configured"@)),
        (Some(_), None) => (e, ActionView::Reply("error: no room context for set_workdir"@)),
        (Some(dirs), Some(r)) => if e.projects.contains_key(project) {
            let after = dirs.insert(r, e.projects[project]);
            (
                ExecutorView { workdirs: Some(after), ..e },
                ActionView::SaveWorkdirs {
                    content: json::string_map_json(after),
                    reply: "Working directory for this room set to '"@ + project + "' ("@
                        + e.projects[project] + ")."@,
                },
            )
        } else {
            (
                e,
                ActionView::Reply(
                    "error: unknown project '"@ + project + "'. Known projects: "@
                        + known_projects(e.projects),
                ),
            )
        },
    }
}

/// `read_skill`: the body of an active skill.
pub open spec fn skill_read(e: ExecutorView, name: Seq<char>) -> ActionView {
    match e.skills {
        None => ActionView::Reply("error: skills are not configured"@),
        Some(s) => match s.body(name) {
            Some(body) => ActionView::Reply(body),
            None => ActionView::Reply("error: no skill named '"@ + name + "'"@),
        },
    }
}

/// `write_skill`: a draft among the pending skills.
pub open spec fn skill_written(
    e: ExecutorView,
    name: Seq<char>,
    description: Seq<char>,
    steps: Seq<char>,
) -> (ExecutorView, ActionView) {
    match e.skills {
        None => (e, ActionView::Reply("error: skills are not configured"@)),
        Some(s) => {
            let content = "# "@ + name + "\n\n"@ + description + "\n\n"@ + steps;
            if skills::sanitized(name).len() == 0 {
                (e, ActionView::Reply("error: invalid skill name"@))
            } else {
                (
                    ExecutorView { skills: Some(s.drafted(name, content)), ..e },
                    ActionView::SaveDraft {
                        file: skills::skill_file(name),
                        content,
                        reply: "Drafted skill '"@ + name
                            + "' (pending). Ask the user to run `/skills approve "@ + name + "`."@,
                    },
                )
            }
        },
    }
}

/// `web_search`: a request to the search engine.
pub open spec fn search_asked(e: ExecutorView, query: Seq<char>) -> ActionView {
    match e.searxng_url {
        None => ActionView::Reply("error: web search is not configured (no SEARXNG_URL)"@),
        Some(base) => ActionView::WebSearch {
            url: text::trim_back(base, Class::Only('/')) + "/search"@,
            query,
        },
    }
}

/// How many hits a history search shows: ten where nothing is said, at most fifty.
pub open spec fn hit_limit(limit: Option<u64>) -> nat {
    match limit {
        None => 10,
        Some(n) => if n <= 50 {
            n as nat
        } else {
            50
        },
    }
}

/// What a call of the tool `name` asks for, and what the executor keeps of it. `room` is the room of
/// the turn, `subagents` whether any can be run, `home` the home directory.
pub open spec fn decided(
    e: ExecutorView,
    name: Seq<char>,
    args: ArgsView,
    room: Option<Seq<char>>,
    subagents: bool,
    home: Seq<char>,
) -> (ExecutorView, ActionView) {
    if text::starts_with(name, "mcp__"@) {
        (
            e,
            match e.mcp {
                None => ActionView::Reply("error: MCP is not configured"@),
                Some(m) => match mcp::routed(m, name) {
                    mcp::RouteView::Call { server, tool } => ActionView::Mcp { server, tool },
                    mcp::RouteView::Refused(why) => ActionView::Reply(why),
                },
            },
        )
    } else if name == "web_search"@ {
        (e, search_asked(e, given(args.query)))
    } else if name == "web_fetch"@ {
        (
            e,
            if given(args.url).len() == 0 {
                ActionView::Reply("error: empty URL"@)
            } else {
                ActionView::WebFetch { url: given(args.url) }
            },
        )
    } else if name == "read_file"@ {
        (
            e,
            if given(args.path).len() == 0 {
                ActionView::Reply("error: path is required"@)
            } else {
                ActionView::ReadFile { path: files::tool_path(home, given(args.path)) }
            },
        )
    } else if name == "write_file"@ {
        (
            e,
            if given(args.path).len() == 0 {
                ActionView::Reply("error: path is required"@)
            } else {
                ActionView::WriteFile {
                    path: files::tool_path(home, given(args.path)),
                    content: given(args.content),
                }
            },
        )
    } else if name == "list_dir"@ {
        (
            e,
            ActionView::ListDir {
                path: files::tool_path(
                    home,
                    if given(args.path).len() == 0 {
                        "~"@
                    } else {
                        given(args.path)
                    },
                ),
            },
        )
    } else if name == "set_workdir"@ {
        workdir_set(e, given(args.project), room)
    } else if name == "read_skill"@ {
        (e, skill_read(e, given(args.name)))
    } else if name == "write_skill"@ {
        skill_written(e, given(args.name), given(args.description), given(args.steps))
    } else if name == "search_history"@ {
        (
            e,
            if e.history {
                ActionView::SearchHistory {
                    query: given(args.query),
                    room: args.room,
                    limit: hit_limit(args.limit),
                }
            } else {
                ActionView::Reply("error: history search is not configured"@)
            },
        )
    } else if name == "run_subagent"@ {
        (
            e,
            if subagents {
                ActionView::Subagent { agent: given(args.agent), task: given(args.task) }
            } else {
                ActionView::Reply("error: subagents are not available"@)
            },
        )
    } else {
        (e, ActionView::Reply("error: unknown tool '"@ + name + "'"@))
    }
}

/// Only `set_workdir` and `write_skill` change what the executor keeps; and they change no more than
/// the workdir selections and the pending skills.
pub proof fn law_tools_keep_the_rest(
    e: ExecutorView,
    name: Seq<char>,
    args: ArgsView,
    room: Option<Seq<char>>,
    subagents: bool,
    home: Seq<char>,
)
    ensures
        ({
            let after = decided(e, name, args, room, subagents, home).0;
            &&& after.searxng_url == e.searxng_url
            &&& after.projects == e.projects
            &&& after.mcp == e.mcp
            &&& after.history == e.history
            &&& name != "set_workdir"@ ==> after.workdirs == e.workdirs
            &&& name != "write_skill"@ ==> after.skills == e.skills
            &&& (after.skills matches Some(s) ==> e.skills matches Some(t) && s.committed
                == t.committed && s.learned == t.learned)
        }),
{
}

/// One line of the subagent list.
pub open spec fn agent_line(a: (String, String)) -> Seq<char> {
    if a.1@.len() == 0 {
        a.0@
    } else {
        a.0@ + " — "@ + a.1@
    }
}

/// The tool that runs the given subagents.
pub open spec fn subagent_tool(agents: Seq<(String, String)>) -> ToolView {
    ToolView {
        name: "run_subagent"@,
        description: "Delegate a self-contained task to a named subagent and get its result back. Available agents: "@
            + text::join(agents.map_values(|a: (String, String)| agent_line(a)), "; "@),
        params: seq![
            param("agent"@, "string"@, "The subagent name"@, true),
            param(
                "task"@,
                "string"@,
                "The task, with all context the subagent needs"@,
                true,
            ),
        ],
    }
}

/// The tool that runs the given subagents.
fn subagent_def(agents: &[(String, String)]) -> (r: ToolDef)
    ensures
        r.is(subagent_tool(agents@)),
{
    let mut listed: Vec<String> = Vec::new();
    let ghost all = agents@.map_values(|a: (String, String)| agent_line(a));
    let mut i: usize = 0;
    assert(text::views(listed@) =~= all.take(0));
    while i < agents.len()
        invariant
            i <= agents.len(),
            all == agents@.map_values(|a: (String, String)| agent_line(a)),
            text::views(listed@) == all.take(i as int),
        decreases agents.len() - i,
    {
        let mut line = agents[i].0.clone();
        if text::chars_of(agents[i].1.as_str()).len() > 0 {
            line.append(" — ");
            line.append(agents[i].1.as_str());
        }
        let ghost before = listed@;
        let ghost l = line@;
        listed.push(line);
        assert(text::views(listed@) =~= text::views(before).push(l));
        assert(all.take(i + 1) =~= all.take(i as int).push(all[i as int]));
        i += 1;
    }
    assert(all.take(all.len() as int) =~= all);
    let list = text::joined(listed.as_slice(), "; ");
    let mut description = "Delegate a self-contained task to a named subagent and get its result back. Available agents: ".to_owned();
    description.append(list.as_str());
    let mut ps: Vec<ToolParam> = Vec::new();
    ps.push(new_param("agent", "string", "The subagent name", true));
    ps.push(new_param("task", "string", "The task, with all context the subagent needs", true));
    assert(ps@.map_values(|p: ToolParam| p@) =~= subagent_tool(agents@).params);
    new_tool("run_subagent", description.as_str(), ps)
}

impl ToolExecutor {
    /// An executor without a history.
    pub fn with_projects(
        searxng_url: Option<String>,
        projects: NameMap<String>,
        room_workdirs: Option<RoomWorkdirStore>,
        mcp: Option<McpManager>,
        skills: Option<SkillStore>,
    ) -> (r: Self)
        ensures
            r.searxng_url == searxng_url,
            r.projects == projects,
            r.room_workdirs == room_workdirs,
            r.mcp == mcp,
            r.skills == skills,
            !r.history,
    {
        ToolExecutor { searxng_url, projects, room_workdirs, mcp, skills, history: false }
    }

    /// The executor with a history to search.
    pub fn with_history(self) -> (r: Self)
        ensures
            r == (ToolExecutor { history: true, ..self }),
    {
        ToolExecutor {
            searxng_url: self.searxng_url,
            projects: self.projects,
            room_workdirs: self.room_workdirs,
            mcp: self.mcp,
            skills: self.skills,
            history: true,
        }
    }

    /// Connected MCP servers + total MCP tools (for `/status`).
    pub fn mcp_summary(&self) -> (r: (usize, usize))
        ensures
            match self@.mcp {
                Some(m) => r.0 == m.servers.len() && r.1 == m.tools.len(),
                None => r == (0usize, 0usize),
            },
    {
        match &self.mcp {
            Some(m) => m.summary(),
            None => (0, 0),
        }
    }

    /// The tools of the connected MCP servers.
    pub open spec fn mcp_tools(self) -> Seq<(Seq<char>, mcp::McpTool)> {
        match self@.mcp {
            Some(m) => m.tools,
            None => Seq::empty(),
        }
    }

    /// The full tool list advertised to the model: roger's native tools, connected
    /// MCP server tools, and — when subagents are configured for this turn —
    /// `run_subagent`.
    pub fn tool_definitions(&self, agents: &[(String, String)]) -> (r: Vec<ToolDef>)
        ensures
            r@.len() == native_tools().len() + self.mcp_tools().len() + (if agents@.len() > 0 {
                1int
            } else {
                0
            }),
            forall|i: int|
                0 <= i < native_tools().len() ==> (#[trigger] r@[i]).is(native_tools()[i]),
            forall|i: int|
                native_tools().len() <= i < native_tools().len() + self.mcp_tools().len()
                    ==> mcp::is_definition(
                    #[trigger] r@[i],
                    self.mcp_tools()[i - native_tools().len()].0,
                    self.mcp_tools()[i - native_tools().len()].1,
                ),
            agents@.len() > 0 ==> r@.last().is(subagent_tool(agents@)),
    {
        let mut defs = tool_definitions();
        let ghost native = defs@;
        if let Some(m) = &self.mcp {
            let mut offered = m.tool_definitions();
            let ghost all = offered@;
            defs.append(&mut offered);
            assert(defs@ =~= native + all);
        }
        if agents.len() > 0 {
            defs.push(subagent_def(agents));
        }
        defs
    }

    /// The stores of `after` stand where those of `self` do: the workdir selections in the same file,
    /// the skills in the same directories.
    pub open spec fn same_places(self, after: ToolExecutor) -> bool {
        &&& match (self.room_workdirs, after.room_workdirs) {
            (Some(a), Some(b)) => a.path_view() == b.path_view(),
            (None, None) => true,
            _ => false,
        }
        &&& match (self.skills, after.skills) {
            (Some(a), Some(b)) => forall|d: skills::SkillDir| #[trigger] a.dir_view(d) == b.dir_view(
                d,
            ),
            (None, None) => true,
            _ => false,
        }
    }

    /// Resolve a known project name to its path and record it as the turn's room's workdir.
    fn set_workdir(&mut self, project: &str, room: Option<&str>) -> (r: ToolAction)
        ensures
            (final(self)@, r@) == workdir_set(old(self)@, project@, text::opt_str(room)),
            old(self).same_places(*final(self)),
    {
        if self.room_workdirs.is_none() {
            return ToolAction::Reply("error: workdir routing is not configured".to_owned());
        }
        let room = match room {
            Some(r) => r,
            None => {
                return ToolAction::Reply("error: no room context for set_workdir".to_owned());
            },
        };
        match self.projects.get(project) {
            Some(p) => {
                let path = p.clone();
                let mut reply = "Working directory for this room set to '".to_owned();
                reply.append(project);
                reply.append("' (");
                reply.append(path.as_str());
                reply.append(").");
                let mut store: Option<RoomWorkdirStore> = None;
                std::mem::swap(&mut store, &mut self.room_workdirs);
                let mut content = String::new();
                if let Some(mut s) = store {
                    content = s.set(room, path.as_str());
                    self.room_workdirs = Some(s);
                }
                ToolAction::SaveWorkdirs { content, reply }
            },
            None => {
                let names = self.projects.keys();
                assert(self.projects@.dom() =~= self@.projects.dom());
                let list = text::joined(names.as_slice(), ", ");
                let mut out = "error: unknown project '".to_owned();
                out.append(project);
                out.append("'. Known projects: ");
                if text::chars_of(list.as_str()).len() == 0 {
                    out.append("(none configured)");
                } else {
                    out.append(list.as_str());
                }
                ToolAction::Reply(out)
            },
        }
    }

    /// The body of an active skill.
    fn read_skill(&self, name: &str) -> (r: ToolAction)
        ensures
            r@ == skill_read(self@, name@),
    {
        match &self.skills {
            None => ToolAction::Reply("error: skills are not configured".to_owned()),
            Some(s) => match s.read(name) {
                Some(body) => ToolAction::Reply(body),
                None => {
                    let mut out = "error: no skill named '".to_owned();
                    out.append(name);
                    out.append("'");
                    ToolAction::Reply(out)
                },
            },
        }
    }

    /// A draft among the pending skills.
    fn write_skill(&mut self, name: &str, description: &str, steps: &str) -> (r: ToolAction)
        ensures
            (final(self)@, r@) == skill_written(old(self)@, name@, description@, steps@),
            old(self).same_places(*final(self)),
    {
        let mut content = "# ".to_owned();
        content.append(name);
        content.append("\n\n");
        content.append(description);
        content.append("\n\n");
        content.append(steps);
        let mut store: Option<SkillStore> = None;
        std::mem::swap(&mut store, &mut self.skills);
        match store {
            None => ToolAction::Reply("error: skills are not configured".to_owned()),
            Some(mut s) => {
                let drafted = s.write_pending(name, content.as_str());
                self.skills = Some(s);
                match drafted {
                    Ok(_) => {
                        let mut reply = "Drafted skill '".to_owned();
                        reply.append(name);
                        reply.append("' (pending). Ask the user to run `/skills approve ");
                        reply.append(name);
                        reply.append("`.");
                        ToolAction::SaveDraft { file: SkillStore::file_name(name), content, reply }
                    },
                    Err(e) => {
                        proof {
                            reveal_strlit("error: ");
                            reveal_strlit("invalid skill name");
                            reveal_strlit("error: invalid skill name");
                            assert("error: "@ + "invalid skill name"@
                                =~= "error: invalid skill name"@);
                        }
                        let mut out = "error: ".to_owned();
                        let why = e.message();
                        out.append(why.as_str());
                        ToolAction::Reply(out)
                    },
                }
            },
        }
    }

    /// A request to the search engine.
    fn web_search(&self, query: String) -> (r: ToolAction)
        ensures
            r@ == search_asked(self@, query@),
    {
        match &self.searxng_url {
            None => ToolAction::Reply(
                "error: web search is not configured (no SEARXNG_URL)".to_owned(),
            ),
            Some(base) => {
                let v = text::chars_of(base.as_str());
                let mut url = text::string_of(text::skip_back(v.as_slice(), Class::Only('/')));
                url.append("/search");
                ToolAction::WebSearch { url, query }
            },
        }
    }

    /// Decides what a call of the tool `name` asks for.
    pub fn dispatch(
        &mut self,
        name: &str,
        args: &ToolArgs,
        room: Option<&str>,
        subagents: bool,
        home: &str,
    ) -> (r: ToolAction)
        ensures
            (final(self)@, r@) == decided(
                old(self)@,
                name@,
                args@,
                text::opt_str(room),
                subagents,
                home@,
            ),
            old(self).same_places(*final(self)),
    {
        if McpManager::handles(name) {
            return match &self.mcp {
                None => ToolAction::Reply("error: MCP is not configured".to_owned()),
                Some(m) => match m.route(name) {
                    Route::Call { server, tool } => ToolAction::Mcp { server, tool },
                    Route::Refused(why) => ToolAction::Reply(why),
                },
            };
        }
        if text::same(name, "web_search") {
            return self.web_search(given_text(&args.query));
        }
        if text::same(name, "web_fetch") {
            let url = given_text(&args.url);
            return if text::chars_of(url.as_str()).len() == 0 {
                ToolAction::Reply("error: empty URL".to_owned())
            } else {
                ToolAction::WebFetch { url }
            };
        }
        if text::same(name, "read_file") {
            let path = given_text(&args.path);
            return if text::chars_of(path.as_str()).len() == 0 {
                ToolAction::Reply("error: path is required".to_owned())
            } else {
                ToolAction::ReadFile { path: files::expand_tilde(home, path.as_str()) }
            };
        }
        if text::same(name, "write_file") {
            let path = given_text(&args.path);
            return if text::chars_of(path.as_str()).len() == 0 {
                ToolAction::Reply("error: path is required".to_owned())
            } else {
                ToolAction::WriteFile {
                    path: files::expand_tilde(home, path.as_str()),
                    content: given_text(&args.content),
                }
            };
        }
        if text::same(name, "list_dir") {
            let path = given_text(&args.path);
            return ToolAction::ListDir {
                path: if text::chars_of(path.as_str()).len() == 0 {
                    files::expand_tilde(home, "~")
                } else {
                    files::expand_tilde(home, path.as_str())
                },
            };
        }
        if text::same(name, "set_workdir") {
            let project = given_text(&args.project);
            return self.set_workdir(project.as_str(), room);
        }
        if text::same(name, "read_skill") {
            let skill = given_text(&args.name);
            return self.read_skill(skill.as_str());
        }
        if text::same(name, "write_skill") {
            let skill = given_text(&args.name);
            let description = given_text(&args.description);
            let steps = given_text(&args.steps);
            return self.write_skill(skill.as_str(), description.as_str(), steps.as_str());
        }
        if text::same(name, "search_history") {
            return if self.history {
                ToolAction::SearchHistory {
                    query: given_text(&args.query),
                    room: config::copy_option(&args.room),
                    limit: match args.limit {
                        None => 10,
                        Some(n) => if n <= 50 {
                            n as usize
                        } else {
                            50
                        },
                    },
                }
            } else {
                ToolAction::Reply("error: history search is not configured".to_owned())
            };
        }
        if text::same(name, "run_subagent") {
            return if subagents {
                ToolAction::Subagent {
                    agent: given_text(&args.agent),
                    task: given_text(&args.task),
                }
            } else {
                ToolAction::Reply("error: subagents are not available".to_owned())
            };
        }
        let mut out = "error: unknown tool '".to_owned();
        out.append(name);
        out.append("'");
        ToolAction::Reply(out)
    }

    /// Decides what a call asks for; arguments that are not JSON are answered with what is wrong
    /// with them.
    pub fn execute(
        &mut self,
        call: &ToolCall,
        room: Option<&str>,
        subagents: bool,
        home: &str,
    ) -> (r: ToolAction)
        ensures
            match json::json_fault(call.function.arguments@) {
                Some(e) => final(self)@ == old(self)@ && r@ == ActionView::Reply(
                    "error: bad arguments: "@ + e,
                ),
                None => (final(self)@, r@) == decided(
                    old(self)@,
                    call.function.name@,
                    args_in(call.function.arguments@),
                    text::opt_str(room),
                    subagents,
                    home@,
                ),
            },
            old(self).same_places(*final(self)),
    {
        match json::check_json(call.function.arguments.as_str()) {
            Err(e) => {
                let mut out = "error: bad arguments: ".to_owned();
                out.append(e.as_str());
                ToolAction::Reply(out)
            },
            Ok(_) => {
                let args = read_args(call.function.arguments.as_str());
                self.dispatch(call.function.name.as_str(), &args, room, subagents, home)
            },
        }
    }
}

/// How a request to the search engine went.
pub enum SearchOutcome {
    /// It could not be sent.
    Failed(String),
    /// It was answered with this status, which reports no success.
    Status(String),
    /// The answer could not be read.
    Unreadable(String),
    Found(SearxngResponse),
}

/// What is answered to a web search.
pub fn web_search_reply(query: &str, outcome: &SearchOutcome) -> (r: String)
    ensures
        r@ == (match outcome {
            SearchOutcome::Failed(e) => "error: search request failed: "@ + e@,
            SearchOutcome::Status(s) => "error: search returned "@ + s@,
            SearchOutcome::Unreadable(e) => "error: failed to parse search results: "@ + e@,
            SearchOutcome::Found(resp) => search::search_text(query@, *resp),
        }),
{
    match outcome {
        SearchOutcome::Failed(e) => {
            let mut out = "error: search request failed: ".to_owned();
            out.append(e.as_str());
            out
        },
        SearchOutcome::Status(s) => {
            let mut out = "error: search returned ".to_owned();
            out.append(s.as_str());
            out
        },
        SearchOutcome::Unreadable(e) => {
            let mut out = "error: failed to parse search results: ".to_owned();
            out.append(e.as_str());
            out
        },
        SearchOutcome::Found(resp) => search::format_search_results(query, resp),
    }
}

/// How fetching a page went.
pub enum FetchOutcome {
    /// The request could not be sent.
    Failed(String),
    /// It was answered with this status, which reports no success.
    Status(String),
    /// The page could not be read.
    Unreadable(String),
    Page(String),
}

/// What is answered to fetching the page at `url`; `None` where the text of the page cannot be cut
/// between two characters.
pub fn web_fetch_reply(url: &str, outcome: &FetchOutcome) -> (r: Option<String>)
    ensures
        text::opt_string(r) == (match outcome {
            FetchOutcome::Failed(e) => Some("error: fetch failed: "@ + e@),
            FetchOutcome::Status(s) => Some("error: "@ + url@ + " returned "@ + s@),
            FetchOutcome::Unreadable(e) => Some("error: failed to read response: "@ + e@),
            FetchOutcome::Page(page) => html::shown(page@, url@),
        }),
{
    match outcome {
        FetchOutcome::Failed(e) => {
            let mut out = "error: fetch failed: ".to_owned();
            out.append(e.as_str());
            Some(out)
        },
        FetchOutcome::Status(s) => {
            let mut out = "error: ".to_owned();
            out.append(url);
            out.append(" returned ");
            out.append(s.as_str());
            Some(out)
        },
        FetchOutcome::Unreadable(e) => {
            let mut out = "error: failed to read response: ".to_owned();
            out.append(e.as_str());
            Some(out)
        },
        FetchOutcome::Page(page) => html::extract_text_checked(page.as_str(), url),
    }
}

/// No two tools have one name, and none has the name of a tool of a server.
proof fn lemma_tools_differ()
    ensures
        "web_search"@ != "web_fetch"@,
        "web_search"@ != "read_file"@,
        "web_search"@ != "write_file"@,
        "web_search"@ != "list_dir"@,
        "web_search"@ != "search_history"@,
        "web_search"@ != "read_skill"@,
        "web_search"@ != "write_skill"@,
        "web_search"@ != "set_workdir"@,
        "web_search"@ != "run_subagent"@,
        "web_fetch"@ != "read_file"@,
        "web_fetch"@ != "write_file"@,
        "web_fetch"@ != "list_dir"@,
        "web_fetch"@ != "search_history"@,
        "web_fetch"@ != "read_skill"@,
        "web_fetch"@ != "write_skill"@,
        "web_fetch"@ != "set_workdir"@,
        "web_fetch"@ != "run_subagent"@,
        "read_file"@ != "write_file"@,
        "read_file"@ != "list_dir"@,
        "read_file"@ != "search_history"@,
        "read_file"@ != "read_skill"@,
        "read_file"@ != "write_skill"@,
        "read_file"@ != "set_workdir"@,
        "read_file"@ != "run_subagent"@,
        "write_file"@ != "list_dir"@,
        "write_file"@ != "search_history"@,
        "write_file"@ != "read_skill"@,
        "write_file"@ != "write_skill"@,
        "write_file"@ != "set_workdir"@,
        "write_file"@ != "run_subagent"@,
        "list_dir"@ != "search_history"@,
        "list_dir"@ != "read_skill"@,
        "list_dir"@ != "write_skill"@,
        "list_dir"@ != "set_workdir"@,
        "list_dir"@ != "run_subagent"@,
        "search_history"@ != "read_skill"@,
        "search_history"@ != "write_skill"@,
        "search_history"@ != "set_workdir"@,
        "search_history"@ != "run_subagent"@,
        "read_skill"@ != "write_skill"@,
        "read_skill"@ != "set_workdir"@,
        "read_skill"@ != "run_subagent"@,
        "write_skill"@ != "set_workdir"@,
        "write_skill"@ != "run_subagent"@,
        "set_workdir"@ != "run_subagent"@,
        !text::starts_with("web_search"@, "mcp__"@),
        !text::starts_with("web_fetch"@, "mcp__"@),
        !text::starts_with("read_file"@, "mcp__"@),
        !text::starts_with("write_file"@, "mcp__"@),
        !text::starts_with("list_dir"@, "mcp__"@),
        !text::starts_with("search_history"@, "mcp__"@),
        !text::starts_with("read_skill"@, "mcp__"@),
        !text::starts_with("write_skill"@, "mcp__"@),
        !text::starts_with("set_workdir"@, "mcp__"@),
        !text::starts_with("run_subagent"@, "mcp__"@),
{
    reveal_strlit("mcp__");
    reveal_strlit("web_search");
    reveal_strlit("web_fetch");
    reveal_strlit("read_file");
    reveal_strlit("write_file");
    reveal_strlit("list_dir");
    reveal_strlit("search_history");
    reveal_strlit("read_skill");
    reveal_strlit("write_skill");
    reveal_strlit("set_workdir");
    reveal_strlit("run_subagent");
    assert("web_search"@.len() != "web_fetch"@.len());
    assert("web_search"@.len() != "read_file"@.len());
    assert("web_search"@[1] != "write_file"@[1]);
    assert("web_search"@.len() != "list_dir"@.len());
    assert("web_search"@.len() != "search_history"@.len());
    assert("web_search"@[0] != "read_skill"@[0]);
    assert("web_search"@.len() != "write_skill"@.len());
    assert("web_search"@.len() != "set_workdir"@.len());
    assert("web_search"@.len() != "run_subagent"@.len());
    assert("web_fetch"@[0] != "read_file"@[0]);
    assert("web_fetch"@.len() != "write_file"@.len());
    assert("web_fetch"@.len() != "list_dir"@.len());
    assert("web_fetch"@.len() != "search_history"@.len());
    assert("web_fetch"@.len() != "read_skill"@.len());
    assert("web_fetch"@.len() != "write_skill"@.len());
    assert("web_fetch"@.len() != "set_workdir"@.len());
    assert("web_fetch"@.len() != "run_subagent"@.len());
    assert("read_file"@.len() != "write_file"@.len());
    assert("read_file"@.len() != "list_dir"@.len());
    assert("read_file"@.len() != "search_history"@.len());
    assert("read_file"@.len() != "read_skill"@.len());
    assert("read_file"@.len() != "write_skill"@.len());
    assert("read_file"@.len() != "set_workdir"@.len());
    assert("read_file"@.len() != "run_subagent"@.len());
    assert("write_file"@.len() != "list_dir"@.len());
    assert("write_file"@.len() != "search_history"@.len());
    assert("write_file"@[0] != "read_skill"@[0]);
    assert("write_file"@.len() != "write_skill"@.len());
    assert("write_file"@.len() != "set_workdir"@.len());
    assert("write_file"@.len() != "run_subagent"@.len());
    assert("list_dir"@.len() != "search_history"@.len());
    assert("list_dir"@.len() != "read_skill"@.len());
    assert("list_dir"@.len() != "write_skill"@.len());
    assert("list_dir"@.len() != "set_workdir"@.len());
    assert("list_dir"@.len() != "run_subagent"@.len());
    assert("search_history"@.len() != "read_skill"@.len());
    assert("search_history"@.len() != "write_skill"@.len());
    assert("search_history"@.len() != "set_workdir"@.len());
    assert("search_history"@.len() != "run_subagent"@.len());
    assert("read_skill"@.len() != "write_skill"@.len());
    assert("read_skill"@.len() != "set_workdir"@.len());
    assert("read_skill"@.len() != "run_subagent"@.len());
    assert("write_skill"@[0] != "set_workdir"@[0]);
    assert("write_skill"@.len() != "run_subagent"@.len());
    assert("set_workdir"@.len() != "run_subagent"@.len());
    if text::starts_with("web_search"@, "mcp__"@) {
        assert("web_search"@.subrange(0, 5)[0] == "web_search"@[0]);
    }
    if text::starts_with("web_fetch"@, "mcp__"@) {
        assert("web_fetch"@.subrange(0, 5)[0] == "web_fetch"@[0]);
    }
    if text::starts_with("read_file"@, "mcp__"@) {
        assert("read_file"@.subrange(0, 5)[0] == "read_file"@[0]);
    }
    if text::starts_with("write_file"@, "mcp__"@) {
        assert("write_file"@.subrange(0, 5)[0] == "write_file"@[0]);
    }
    if text::starts_with("list_dir"@, "mcp__"@) {
        assert("list_dir"@.subrange(0, 5)[0] == "list_dir"@[0]);
    }
    if text::starts_with("search_history"@, "mcp__"@) {
        assert("search_history"@.subrange(0, 5)[0] == "search_history"@[0]);
    }
    if text::starts_with("read_skill"@, "mcp__"@) {
        assert("read_skill"@.subrange(0, 5)[0] == "read_skill"@[0]);
    }
    if text::starts_with("write_skill"@, "mcp__"@) {
        assert("write_skill"@.subrange(0, 5)[0] == "write_skill"@[0]);
    }
    if text::starts_with("set_workdir"@, "mcp__"@) {
        assert("set_workdir"@.subrange(0, 5)[0] == "set_workdir"@[0]);
    }
    if text::starts_with("run_subagent"@, "mcp__"@) {
        assert("run_subagent"@.subrange(0, 5)[0] == "run_subagent"@[0]);
    }
}

/// Every tool that works on an address or a path is asked for the one it was given: pages, files and
/// directories, a `~` in front of a path read as the home directory.
pub proof fn law_pages_and_files_are_those_asked_for(
    e: ExecutorView,
    args: ArgsView,
    room: Option<Seq<char>>,
    subagents: bool,
    home: Seq<char>,
)
    ensures
        args.url is Some && args.url->Some_0.len() > 0 ==> decided(
            e,
            "web_fetch"@,
            args,
            room,
            subagents,
            home,
        ) == (e, ActionView::WebFetch { url: args.url->Some_0 }),
        args.url is None ==> decided(e, "web_fetch"@, args, room, subagents, home) == (
            e,
            ActionView::Reply("error: empty URL"@),
        ),
        args.path is Some && args.path->Some_0.len() > 0 ==> {
            let path = files::tool_path(home, args.path->Some_0);
            &&& decided(e, "read_file"@, args, room, subagents, home) == (
                e,
                ActionView::ReadFile { path },
            )
            &&& decided(e, "list_dir"@, args, room, subagents, home) == (
                e,
                ActionView::ListDir { path },
            )
            &&& args.content is Some ==> decided(e, "write_file"@, args, room, subagents, home) == (
                e,
                ActionView::WriteFile { path, content: args.content->Some_0 },
            )
        },
        args.path is None ==> {
            &&& decided(e, "read_file"@, args, room, subagents, home) == (
                e,
                ActionView::Reply("error: path is required"@),
            )
            &&& decided(e, "write_file"@, args, room, subagents, home) == (
                e,
                ActionView::Reply("error: path is required"@),
            )
            &&& decided(e, "list_dir"@, args, room, subagents, home) == (
                e,
                ActionView::ListDir { path: home },
            )
        },
{
    lemma_tools_differ();
    reveal_strlit("");
    reveal_strlit("~");
    assert(home + "~"@.skip(1) =~= home);
}

/// A search goes to the search engine with the words it was given, a search of the history to the
/// history, with its room and a limit of ten, or the given one up to fifty; a subagent gets its task.
pub proof fn law_searches_are_those_asked_for(
    e: ExecutorView,
    args: ArgsView,
    room: Option<Seq<char>>,
    home: Seq<char>,
    base: Seq<char>,
)
    requires
        args.query is Some,
        args.agent is Some && args.task is Some,
        base.len() > 0 && base.last() != '/',
    ensures
        e.searxng_url == Some(base) ==> decided(e, "web_search"@, args, room, false, home) == (
            e,
            ActionView::WebSearch { url: base + "/search"@, query: args.query->Some_0 },
        ),
        e.searxng_url is None ==> decided(e, "web_search"@, args, room, false, home) == (
            e,
            ActionView::Reply("error: web search is not configured (no SEARXNG_URL)"@),
        ),
        e.history ==> decided(e, "search_history"@, args, room, false, home) == (
            e,
            ActionView::SearchHistory {
                query: args.query->Some_0,
                room: args.room,
                limit: match args.limit {
                    None => 10,
                    Some(n) => if n < 50 {
                        n as nat
                    } else {
                        50
                    },
                },
            },
        ),
        !e.history ==> decided(e, "search_history"@, args, room, false, home) == (
            e,
            ActionView::Reply("error: history search is not configured"@),
        ),
        decided(e, "run_subagent"@, args, room, true, home) == (
            e,
            ActionView::Subagent { agent: args.agent->Some_0, task: args.task->Some_0 },
        ),
        decided(e, "run_subagent"@, args, room, false, home) == (
            e,
            ActionView::Reply("error: subagents are not available"@),
        ),
{
    lemma_tools_differ();
    assert(text::trim_back(base, Class::Only('/')) == base);
}

/// A known project becomes the working directory of the room, and of no other; without a room or for
/// an unknown project nothing changes, and the known ones are named.
#[verifier::rlimit(40)]
pub proof fn law_workdir_becomes_the_project(
    e: ExecutorView,
    dirs: Map<Seq<char>, Seq<char>>,
    args: ArgsView,
    project: Seq<char>,
    room: Seq<char>,
    other: Seq<char>,
    home: Seq<char>,
    known: Seq<char>,
    listed: Seq<Seq<char>>,
)
    requires
        e.workdirs == Some(dirs),
        args.project == Some(project),
        other != room,
        names::lists_keys(listed, e.projects.dom()),
        e.projects.contains_key(known),
    ensures
        e.projects.contains_key(project) ==> {
            let (after, action) = decided(e, "set_workdir"@, args, Some(room), false, home);
            &&& after.workdirs is Some
            &&& after.workdirs->Some_0.contains_key(room)
            &&& after.workdirs->Some_0[room] == e.projects[project]
            &&& after.workdirs->Some_0.contains_key(other) == dirs.contains_key(other)
            &&& dirs.contains_key(other) ==> after.workdirs->Some_0[other] == dirs[other]
            &&& action is SaveWorkdirs
            &&& action->SaveWorkdirs_content == json::string_map_json(after.workdirs->Some_0)
            &&& action->SaveWorkdirs_reply == "Working directory for this room set to '"@ + project
                + "' ("@ + e.projects[project] + ")."@
        },
        !e.projects.contains_key(project) ==> {
            let (after, action) = decided(e, "set_workdir"@, args, Some(room), false, home);
            &&& after == e
            &&& action is Reply
            &&& known.len() > 0 ==> text::contains(action->Reply_0, known)
            &&& text::starts_with(
                action->Reply_0,
                "error: unknown project '"@ + project + "'. Known projects: "@,
            )
        },
        decided(e, "set_workdir"@, args, None, false, home) == (
            e,
            ActionView::Reply("error: no room context for set_workdir"@),
        ),
{
    lemma_tools_differ();
    if !e.projects.contains_key(project) {
        let front = "error: unknown project '"@ + project + "'. Known projects: "@;
        let all = front + known_projects(e.projects);
        assert(all.subrange(0, front.len() as int) =~= front);
    }
    if !e.projects.contains_key(project) && known.len() > 0 {
        let ks = names::key_list(e.projects.dom());
        names::lemma_key_list_unique(ks, listed, e.projects.dom());
        assert(e.projects.dom().contains(known));
        assert(ks.contains(known));
        let k = choose|k: int| 0 <= k < ks.len() && ks[k] == known;
        text::lemma_join_holds_each(ks, ", "@, k);
        let list = text::join(ks, ", "@);
        let i = choose|i: int| text::occurs_at(list, known, i);
        assert(list.len() > 0);
        let head = "error: unknown project '"@ + project + "'. Known projects: "@;
        text::lemma_holds_what_a_part_holds(head, list, Seq::empty(), known);
        assert(head + list + Seq::<char>::empty() =~= head + list);
    }
}

/// A skill is read as it stands, and a draft holds its name as title, its description and its steps;
/// it is pending, and nothing that is active changes.
pub proof fn law_skills_are_read_and_drafted(
    e: ExecutorView,
    s: skills::SkillView,
    args: ArgsView,
    room: Option<Seq<char>>,
    home: Seq<char>,
)
    requires
        e.skills == Some(s),
        args.name is Some && args.description is Some && args.steps is Some,
        skills::sanitized(args.name->Some_0).len() > 0,
    ensures
        s.body(args.name->Some_0) is Some ==> decided(
            e,
            "read_skill"@,
            args,
            room,
            false,
            home,
        ) == (e, ActionView::Reply(s.body(args.name->Some_0)->Some_0)),
        s.body(args.name->Some_0) is None ==> decided(
            e,
            "read_skill"@,
            args,
            room,
            false,
            home,
        ) == (e, ActionView::Reply("error: no skill named '"@ + args.name->Some_0 + "'"@)),
        ({
            let (after, action) = decided(e, "write_skill"@, args, room, false, home);
            let content = "# "@ + args.name->Some_0 + "\n\n"@ + args.description->Some_0 + "\n\n"@
                + args.steps->Some_0;
            &&& after.skills is Some
            &&& after.skills->Some_0.pending[skills::skill_file(args.name->Some_0)] == content
            &&& after.skills->Some_0.pending.contains_key(skills::skill_file(args.name->Some_0))
            &&& after.skills->Some_0.learned == s.learned
            &&& after.skills->Some_0.committed == s.committed
            &&& action is SaveDraft
            &&& action->SaveDraft_content == content
            &&& action->SaveDraft_file == skills::skill_file(args.name->Some_0)
            &&& action->SaveDraft_reply == "Drafted skill '"@ + args.name->Some_0
                + "' (pending). Ask the user to run `/skills approve "@ + args.name->Some_0 + "`."@
            &&& after == ExecutorView { skills: after.skills, ..e }
        }),
{
    lemma_tools_differ();
}

/// What is not configured is refused by name, and so is a tool that is not known.
#[verifier::rlimit(40)]
pub proof fn law_what_is_missing_is_refused(
    e: ExecutorView,
    name: Seq<char>,
    args: ArgsView,
    room: Option<Seq<char>>,
    subagents: bool,
    home: Seq<char>,
)
    requires
        !text::starts_with(name, "mcp__"@),
        !(seq![
            "web_search"@,
            "web_fetch"@,
            "read_file"@,
            "write_file"@,
            "list_dir"@,
            "set_workdir"@,
            "read_skill"@,
            "write_skill"@,
            "search_history"@,
            "run_subagent"@,
        ].contains(name)),
    ensures
        decided(e, name, args, room, subagents, home) == (
            e,
            ActionView::Reply("error: unknown tool '"@ + name + "'"@),
        ),
        e.workdirs is None ==> decided(e, "set_workdir"@, args, room, subagents, home) == (
            e,
            ActionView::Reply("error: workdir routing is not configured"@),
        ),
        e.skills is None ==> decided(e, "read_skill"@, args, room, subagents, home) == (
            e,
            ActionView::Reply("error: skills are not configured"@),
        ) && decided(e, "write_skill"@, args, room, subagents, home) == (
            e,
            ActionView::Reply("error: skills are not configured"@),
        ),
        e.skills is Some && (args.name is None || skills::sanitized(args.name->Some_0).len() == 0)
            ==> decided(e, "write_skill"@, args, room, subagents, home) == (
            e,
            ActionView::Reply("error: invalid skill name"@),
        ),
{
    lemma_tools_differ();
    reveal_strlit("");
    assert(skills::sanitized(""@).len() == 0);
    let known = seq![
        "web_search"@,
        "web_fetch"@,
        "read_file"@,
        "write_file"@,
        "list_dir"@,
        "set_workdir"@,
        "read_skill"@,
        "write_skill"@,
        "search_history"@,
        "run_subagent"@,
    ];
    assert(known[0] == "web_search"@ && known[1] == "web_fetch"@ && known[2] == "read_file"@
        && known[3] == "write_file"@ && known[4] == "list_dir"@ && known[5] == "set_workdir"@
        && known[6] == "read_skill"@ && known[7] == "write_skill"@ && known[8]
        == "search_history"@ && known[9] == "run_subagent"@);
    assert forall|i: int| 0 <= i < 10 implies #[trigger] known[i] != name by {
        assert(known.contains(known[i]));
    }
}

/// A call of a connected server's tool goes to that server and that tool.
pub proof fn law_server_tools_go_to_their_server(
    e: ExecutorView,
    m: mcp::McpView,
    server: Seq<char>,
    tool: Seq<char>,
    args: ArgsView,
    room: Option<Seq<char>>,
    subagents: bool,
    home: Seq<char>,
)
    requires
        e.mcp == Some(m),
        m.servers.contains(server),
        !text::contains(server, "__"@),
        server.len() > 0 ==> server.last() != '_',
    ensures
        decided(e, mcp::namespaced(server, tool), args, room, subagents, home) == (
            e,
            ActionView::Mcp { server, tool },
        ),
        decided(
            ExecutorView { mcp: None, ..e },
            mcp::namespaced(server, tool),
            args,
            room,
            subagents,
            home,
        ).1 == ActionView::Reply("error: MCP is not configured"@),
{
    reveal_strlit("mcp__");
    mcp::law_names_route_back(m, server, tool);
    let name = mcp::namespaced(server, tool);
    assert(name.subrange(0, 5) =~= "mcp__"@);
}

/// Each argument is read from the JSON text under its own name.
pub proof fn law_arguments_have_their_names(json: Seq<char>)
    ensures
        args_in(json).query == json::json_string_at(json, "query"@),
        args_in(json).url == json::json_string_at(json, "url"@),
        args_in(json).path == json::json_string_at(json, "path"@),
        args_in(json).content == json::json_string_at(json, "content"@),
        args_in(json).project == json::json_string_at(json, "project"@),
        args_in(json).name == json::json_string_at(json, "name"@),
        args_in(json).description == json::json_string_at(json, "description"@),
        args_in(json).steps == json::json_string_at(json, "steps"@),
        args_in(json).room == json::json_string_at(json, "room"@),
        args_in(json).agent == json::json_string_at(json, "agent"@),
        args_in(json).task == json::json_string_at(json, "task"@),
        args_in(json).limit == json::json_u64_at(json, "limit"@),
{
}

/// Every subagent is named to the model, with what it is for.
#[verifier::rlimit(40)]
pub proof fn law_every_subagent_is_named(agents: Seq<(String, String)>, i: int)
    requires
        0 <= i < agents.len(),
    ensures
        text::contains(subagent_tool(agents).description, agents[i].0@),
        agents[i].1@.len() > 0 ==> text::contains(
            subagent_tool(agents).description,
            agents[i].0@ + " — "@ + agents[i].1@,
        ),
        subagent_tool(agents).name == "run_subagent"@,
        subagent_tool(agents).params.len() == 2,
        subagent_tool(agents).params[0].name == "agent"@ && subagent_tool(agents).params[0].required,
        subagent_tool(agents).params[1].name == "task"@ && subagent_tool(agents).params[1].required,
        subagent_tool(agents).params[0].kind == "string"@,
        subagent_tool(agents).params[1].kind == "string"@,
{
    let none = Seq::<char>::empty();
    let lines = agents.map_values(|a: (String, String)| agent_line(a));
    let line = agent_line(agents[i]);
    assert(lines[i] == line);
    text::lemma_join_holds_each(lines, "; "@, i);
    let head
        = "Delegate a self-contained task to a named subagent and get its result back. Available agents: "@;
    let all = text::join(lines, "; "@);
    text::lemma_holds_what_a_part_holds(head, all, none, line);
    assert(head + all + none =~= head + all);
    let at = choose|at: int| text::occurs_at(head + all, line, at);
    if agents[i].1@.len() > 0 {
        let name = agents[i].0@;
        let rest = " — "@ + agents[i].1@;
        text::lemma_holds_the_middle(none, name, rest);
        assert(none + name + rest =~= line);
        let whole = head + all;
        assert(whole =~= whole.take(at) + line + whole.skip(at + line.len()));
        text::lemma_holds_what_a_part_holds(
            whole.take(at),
            line,
            whole.skip(at + line.len()),
            name,
        );
    }
}

/// The native tools, with what they are for, and each with the arguments that it needs: all of them
/// texts, but for the limit of a history search, and all required, but for its limit and its room.
#[verifier::rlimit(40)]
pub proof fn law_native_tools()
    ensures
        forall|i: int, j: int|
            0 <= i < 9 && 0 <= j < native_tools()[i].params.len() ==> {
                let p = #[trigger] native_tools()[i].params[j];
                &&& p.required == !(i == 5 && j > 0)
                &&& p.kind == (if i == 5 && j == 2 {
                    "integer"@
                } else {
                    "string"@
                })
            },
        native_tools().map_values(|t: ToolView| t.name) == seq![
            "web_search"@,
            "web_fetch"@,
            "read_file"@,
            "write_file"@,
            "list_dir"@,
            "search_history"@,
            "read_skill"@,
            "write_skill"@,
            "set_workdir"@,
        ],
        native_tools().map_values(|t: ToolView| t.description) == seq![
            "Search the web for current information, news, and facts. Use this when you need up-to-date information or when you don't know something."@,
            "Fetch and read the contents of a web page. Use this to read articles, documentation, or any URL."@,
            "Read the contents of a file on the local filesystem. Use ~ for the home directory."@,
            "Write (or overwrite) a file on the local filesystem. Creates parent directories as needed."@,
            "List the contents of a directory on the local filesystem."@,
            "Search past conversation history across rooms for messages containing a keyword or phrase. Returns matching messages with room context. Use when the user asks about something discussed before, or to recall a past decision."@,
            "Load the full steps of a named skill listed in the Skills section."@,
            "Capture a reusable procedure as a skill (saved pending user approval). Use after solving a non-trivial task that would recur."@,
            "Set the working directory (project) for this room's agentic coding agent. Call this when the user asks to work on, edit, or build a specific known project. The choice persists for the room until changed."@,
        ],
        native_tools().map_values(
            |t: ToolView| t.params.map_values(|p: ParamView| p.name),
        ) == seq![
            seq!["query"@],
            seq!["url"@],
            seq!["path"@],
            seq!["path"@, "content"@],
            seq!["path"@],
            seq!["query"@, "room"@, "limit"@],
            seq!["name"@],
            seq!["name"@, "description"@, "steps"@],
            seq!["project"@],
        ],
{
    let t = native_tools();
    let names = t.map_values(|t: ToolView| t.params.map_values(|p: ParamView| p.name));
    assert(names[0] =~= seq!["query"@]);
    assert(names[1] =~= seq!["url"@]);
    assert(names[2] =~= seq!["path"@]);
    assert(names[3] =~= seq!["path"@, "content"@]);
    assert(names[4] =~= seq!["path"@]);
    assert(names[5] =~= seq!["query"@, "room"@, "limit"@]);
    assert(names[6] =~= seq!["name"@]);
    assert(names[7] =~= seq!["name"@, "description"@, "steps"@]);
    assert(names[8] =~= seq!["project"@]);
}

/// A definition says of its tool the name, what it is for, and each parameter with its name, kind and
/// description, and whether it is required.
pub proof fn law_definitions_say_what_the_tool_is(
    defs: Seq<ToolDef>,
    tools: Seq<ToolView>,
    i: int,
    j: int,
)
    requires
        defines(defs, tools),
        0 <= i < tools.len(),
        0 <= j < tools[i].params.len(),
    ensures
        defs.len() == tools.len(),
        defs[i].name@ == tools[i].name,
        defs[i].description@ == tools[i].description,
        defs[i].schema matches Schema::Params(ps) && {
            &&& ps@.len() == tools[i].params.len()
            &&& ps@[j].name@ == tools[i].params[j].name
            &&& ps@[j].kind@ == tools[i].params[j].kind
            &&& ps@[j].description@ == tools[i].params[j].description
            &&& ps@[j].required == tools[i].params[j].required
        },
{
    let d = defs[i];
    assert(d.is(tools[i]));
    if let Schema::Params(ps) = d.schema {
        assert(ps@.map_values(|p: ToolParam| p@)[j] == ps@[j]@);
    }
}

} // verus!
