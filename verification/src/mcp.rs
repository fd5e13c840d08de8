//! MCP (Model Context Protocol) tools. Each connected server offers tools, which are exposed to the
//! HTTP models alongside the native ones. Tool names are namespaced `mcp__<server>__<tool>`; calls
//! are routed back to the owning server.

use crate::history;
use crate::text;
use crate::tools::{Schema, ToolDef};
use vstd::prelude::*;
use vstd::slice::slice_subrange;
use vstd::string::*;

verus! {

/// A tool that a server offers. `schema` is the JSON text of its input schema.
#[derive(Debug)]
pub struct McpTool {
    pub name: String,
    pub description: Option<String>,
    pub schema: String,
}

/// The connected servers by name, and their tools, each under its server's name.
#[verifier::ext_equal]
pub struct McpView {
    pub servers: Seq<Seq<char>>,
    pub tools: Seq<(Seq<char>, McpTool)>,
}

/// A tool's name, as it is told to the model.
pub open spec fn namespaced(server: Seq<char>, tool: Seq<char>) -> Seq<char> {
    "mcp__"@ + server + "__"@ + tool
}

/// Where a call goes.
#[derive(Debug)]
pub enum Route {
    /// To the tool of a connected server.
    Call { server: String, tool: String },
    /// Nowhere, for this reason.
    Refused(String),
}

/// The server and the tool that a name speaks of: what stands before the first `__` behind the
/// prefix, and what stands after it.
pub open spec fn split_name(name: Seq<char>) -> Option<(Seq<char>, Seq<char>)> {
    if !text::starts_with(name, "mcp__"@) {
        None
    } else {
        let rest = name.skip("mcp__"@.len() as int);
        match text::find(rest, "__"@) {
            Some(i) => Some((rest.take(i), rest.skip(i + 2))),
            None => None,
        }
    }
}

/// Where a call goes, by its texts.
pub enum RouteView {
    Call { server: Seq<char>, tool: Seq<char> },
    Refused(Seq<char>),
}

impl View for Route {
    type V = RouteView;

    open spec fn view(&self) -> RouteView {
        match self {
            Route::Call { server, tool } => RouteView::Call { server: server@, tool: tool@ },
            Route::Refused(why) => RouteView::Refused(why@),
        }
    }
}

/// Where a call of `name` goes: to the tool of the server it speaks of, where that is connected.
pub open spec fn routed(m: McpView, name: Seq<char>) -> RouteView {
    if !text::starts_with(name, "mcp__"@) {
        RouteView::Refused("error: not an mcp tool: "@ + name)
    } else {
        match split_name(name) {
            None => RouteView::Refused("error: malformed mcp tool name: "@ + name),
            Some((server, tool)) => if m.servers.contains(server) {
                RouteView::Call { server, tool }
            } else {
                RouteView::Refused("error: unknown mcp server '"@ + server + "'"@)
            },
        }
    }
}

/// A call by a tool's namespaced name is routed to its server and that tool, provided the server's
/// name holds no `__` and does not end in `_`.
pub proof fn law_names_route_back(m: McpView, server: Seq<char>, tool: Seq<char>)
    requires
        m.servers.contains(server),
        !text::contains(server, "__"@),
        server.len() > 0 ==> server.last() != '_',
    ensures
        split_name(namespaced(server, tool)) == Some((server, tool)),
        routed(m, namespaced(server, tool)) == (RouteView::Call { server, tool }),
{
    reveal_strlit("mcp__");
    reveal_strlit("__");
    let name = namespaced(server, tool);
    let rest = name.skip(5);
    assert(name.subrange(0, 5) =~= "mcp__"@);
    assert(rest =~= server + "__"@ + tool);
    text::lemma_find_from(rest, "__"@, 0);
    let n = server.len() as int;
    assert(rest.subrange(n, n + 2) =~= "__"@);
    assert(text::occurs_at(rest, "__"@, n));
    assert forall|j: int| 0 <= j < n implies !text::occurs_at(rest, "__"@, j) by {
        if text::occurs_at(rest, "__"@, j) {
            let sub = rest.subrange(j, j + 2);
            assert(sub[0] == '_' && sub[1] == '_');
            assert(rest[j] == '_' && rest[j + 1] == '_');
            if j + 1 < n {
                assert(server.subrange(j, j + 2) =~= "__"@);
                assert(text::occurs_at(server, "__"@, j));
            }
        }
    }
    assert(rest.take(n) =~= server);
    assert(rest.skip(n + 2) =~= tool);
}

/// The connected servers and their tools.
pub struct McpManager {
    servers: Vec<String>,
    tools: Vec<(String, McpTool)>,
}

impl View for McpManager {
    type V = McpView;

    closed spec fn view(&self) -> McpView {
        McpView {
            servers: text::views(self.servers@),
            tools: self.tools@.map_values(|t: (String, McpTool)| (t.0@, t.1)),
        }
    }
}

impl Default for McpManager {
    fn default() -> (r: Self)
        ensures
            r@ == (McpView { servers: Seq::empty(), tools: Seq::empty() }),
    {
        let r = McpManager { servers: Vec::new(), tools: Vec::new() };
        assert(r@ =~= (McpView { servers: Seq::empty(), tools: Seq::empty() }));
        r
    }
}

/// The tools of a server, each under its name.
pub open spec fn owned(server: Seq<char>, tools: Seq<McpTool>) -> Seq<(Seq<char>, McpTool)> {
    tools.map_values(|t: McpTool| (server, t))
}

impl McpManager {
    /// Whether a configured server is connected to: it is enabled, and its name leaves the reserved
    /// separator alone.
    pub fn accepts(name: &str, enabled: bool) -> (r: bool)
        ensures
            r == (enabled && !text::contains(name@, "__"@)),
    {
        enabled && !text::has_text(name, "__")
    }

    /// Registers a connected server with its tools; a name that is there already is left alone.
    /// Says whether it was new.
    pub fn add_server(&mut self, name: &str, tools: Vec<McpTool>) -> (r: bool)
        ensures
            r == !old(self)@.servers.contains(name@),
            final(self)@ == (if r {
                McpView {
                    servers: old(self)@.servers.push(name@),
                    tools: old(self)@.tools + owned(name@, tools@),
                }
            } else {
                old(self)@
            }),
    {
        if history::lists(self.servers.as_slice(), name) {
            return false;
        }
        self.servers.push(name.to_owned());
        let ghost offered = tools@;
        let ghost start = old(self)@.tools;
        let mut rest = tools;
        let ghost mut done: int = 0;
        proof {
            assert(offered.skip(0) == offered);
            assert(self@.servers =~= old(self)@.servers.push(name@));
            assert(self@.tools =~= start + owned(name@, offered.take(0)));
        }
        while rest.len() > 0
            invariant
                0 <= done <= offered.len(),
                rest@ == offered.skip(done),
                self@.servers == old(self)@.servers.push(name@),
                self@.tools == start + owned(name@, offered.take(done)),
            decreases rest.len(),
        {
            let ghost before = self.tools@;
            let t = rest.remove(0);
            self.tools.push((name.to_owned(), t));
            proof {
                assert(offered.skip(done).remove(0) == offered.skip(done + 1));
                assert(offered.take(done + 1) == offered.take(done).push(t));
                assert(self@.tools =~= (start + owned(name@, offered.take(done))).push((name@, t)));
                assert(owned(name@, offered.take(done + 1)) =~= owned(name@, offered.take(done)).push(
                    (name@, t),
                ));
                done = done + 1;
                assert(self@.tools =~= start + owned(name@, offered.take(done)));
            }
        }
        proof {
            assert(offered.take(done) == offered);
            assert(self@ =~= (McpView {
                servers: old(self)@.servers.push(name@),
                tools: start + owned(name@, offered),
            }));
        }
        true
    }

    /// OpenAI-style function definitions for every MCP tool, namespaced by server.
    pub fn tool_definitions(&self) -> (r: Vec<ToolDef>)
        ensures
            r@.len() == self@.tools.len(),
            forall|i: int|
                0 <= i < r@.len() ==> is_definition(#[trigger] r@[i], self@.tools[i].0, self@.tools[i].1),
    {
        let mut out: Vec<ToolDef> = Vec::new();
        let mut i: usize = 0;
        while i < self.tools.len()
            invariant
                i <= self.tools.len(),
                out@.len() == i,
                forall|j: int|
                    0 <= j < i ==> is_definition(
                        #[trigger] out@[j],
                        self@.tools[j].0,
                        self@.tools[j].1,
                    ),
            decreases self.tools.len() - i,
        {
            let tool = &self.tools[i].1;
            let mut name = "mcp__".to_owned();
            name.append(self.tools[i].0.as_str());
            name.append("__");
            name.append(tool.name.as_str());
            let description = match &tool.description {
                Some(d) => d.clone(),
                None => "".to_owned(),
            };
            out.push(
                ToolDef { name, description, schema: Schema::Json(tool.schema.clone()) },
            );
            i += 1;
        }
        out
    }

    /// Whether no server is connected.
    pub fn is_empty(&self) -> (r: bool)
        ensures
            r == (self@.servers.len() == 0),
    {
        assert(self@.servers.len() == self.servers@.len());
        self.servers.len() == 0
    }

    /// Count of connected servers and their total tools (for `/status`).
    pub fn summary(&self) -> (r: (usize, usize))
        ensures
            r.0 == self@.servers.len(),
            r.1 == self@.tools.len(),
    {
        assert(self@.servers.len() == self.servers@.len());
        (self.servers.len(), self.tools.len())
    }

    /// True if `name` is an MCP tool call (`mcp__server__tool`).
    pub fn handles(name: &str) -> (r: bool)
        ensures
            r == text::starts_with(name@, "mcp__"@),
    {
        text::has_prefix(name, "mcp__")
    }

    /// Route an `mcp__server__tool` call to its server, or say why it cannot be routed.
    pub fn route(&self, name: &str) -> (r: Route)
        ensures
            r@ == routed(self@, name@),
    {
        proof {
            reveal_strlit("mcp__");
            reveal_strlit("__");
        }
        if !text::has_prefix(name, "mcp__") {
            let mut why = "error: not an mcp tool: ".to_owned();
            why.append(name);
            return Route::Refused(why);
        }
        let v = text::chars_of(name);
        let rest = slice_subrange(v.as_slice(), 5, v.len());
        let sep = text::chars_of("__");
        assert(rest@ == name@.skip("mcp__"@.len() as int));
        match text::position(rest, sep.as_slice()) {
            None => {
                let mut why = "error: malformed mcp tool name: ".to_owned();
                why.append(name);
                Route::Refused(why)
            },
            Some(i) => {
                let server = text::string_of(slice_subrange(rest, 0, i));
                let tool = text::string_of(slice_subrange(rest, i + 2, rest.len()));
                assert(server@ == rest@.take(i as int));
                assert(tool@ == rest@.skip(i + 2));
                if history::lists(self.servers.as_slice(), server.as_str()) {
                    Route::Call { server, tool }
                } else {
                    let mut why = "error: unknown mcp server '".to_owned();
                    why.append(server.as_str());
                    why.append("'");
                    Route::Refused(why)
                }
            },
        }
    }
}

/// `d` tells the model of the tool `t` of a server.
pub open spec fn is_definition(d: ToolDef, server: Seq<char>, t: McpTool) -> bool {
    &&& d.name@ == namespaced(server, t.name@)
    &&& d.description@ == (match t.description {
        Some(s) => s@,
        None => ""@,
    })
    &&& d.schema matches Schema::Json(j)
    &&& j@ == t.schema@
}

/// The texts among the blocks of a result; a block of another kind has none.
pub open spec fn text_blocks(blocks: Seq<Option<String>>) -> Seq<Seq<char>>
    decreases blocks.len(),
{
    if blocks.len() == 0 {
        Seq::empty()
    } else {
        match blocks.last() {
            Some(t) => text_blocks(blocks.drop_last()).push(t@),
            None => text_blocks(blocks.drop_last()),
        }
    }
}

/// A result's blocks as one text.
pub open spec fn content_text(blocks: Seq<Option<String>>) -> Seq<char> {
    if text_blocks(blocks).len() == 0 {
        "(no text content)"@
    } else {
        text::join(text_blocks(blocks), "\n"@)
    }
}

/// Flatten an MCP result's content blocks into text.
pub fn render_content(blocks: &[Option<String>]) -> (r: String)
    ensures
        r@ == content_text(blocks@),
{
    let mut parts: Vec<String> = Vec::new();
    let mut i: usize = 0;
    assert(text::views(parts@) == Seq::<Seq<char>>::empty());
    while i < blocks.len()
        invariant
            i <= blocks.len(),
            text::views(parts@) == text_blocks(blocks@.take(i as int)),
        decreases blocks.len() - i,
    {
        assert(blocks@.take(i + 1).drop_last() == blocks@.take(i as int));
        let ghost before = parts@;
        if let Some(t) = &blocks[i] {
            parts.push(t.clone());
            assert(text::views(parts@) == text::views(before).push(t@));
        }
        i += 1;
    }
    assert(blocks@.take(blocks@.len() as int) == blocks@);
    assert(text::views(parts@).len() == parts@.len());
    if parts.len() == 0 {
        "(no text content)".to_owned()
    } else {
        text::joined(parts.as_slice(), "\n")
    }
}

/// What a server gave back: its blocks and whether they report an error, or why the call failed.
pub enum McpOutcome {
    Done { is_error: bool, blocks: Vec<Option<String>> },
    Failed(String),
}

/// The tool's text output or an error string.
pub fn call_reply(outcome: &McpOutcome) -> (r: String)
    ensures
        r@ == (match outcome {
            McpOutcome::Failed(e) => "error: mcp call failed: "@ + e@,
            McpOutcome::Done { is_error, blocks } => if *is_error {
                "error: "@ + content_text(blocks@)
            } else {
                content_text(blocks@)
            },
        }),
{
    match outcome {
        McpOutcome::Failed(e) => {
            let mut out = "error: mcp call failed: ".to_owned();
            out.append(e.as_str());
            out
        },
        McpOutcome::Done { is_error, blocks } => {
            let body = render_content(blocks.as_slice());
            if *is_error {
                let mut out = "error: ".to_owned();
                out.append(body.as_str());
                out
            } else {
                body
            }
        },
    }
}

/// A call of a server that is not connected is refused by name, and so is a name that is none of a
/// tool.
pub proof fn law_strangers_are_refused(m: McpView, server: Seq<char>, tool: Seq<char>, name: Seq<char>)
    requires
        !m.servers.contains(server),
        !text::contains(server, "__"@),
        server.len() > 0 ==> server.last() != '_',
        !text::starts_with(name, "mcp__"@),
    ensures
        routed(m, namespaced(server, tool)) == RouteView::Refused(
            "error: unknown mcp server '"@ + server + "'"@,
        ),
        routed(m, name) == RouteView::Refused("error: not an mcp tool: "@ + name),
{
    let other = McpView { servers: m.servers.push(server), tools: m.tools };
    assert(other.servers[m.servers.len() as int] == server);
    law_names_route_back(other, server, tool);
}

/// A name without a separator behind the prefix is refused as malformed.
pub proof fn law_malformed_names_are_refused(m: McpView, rest: Seq<char>)
    requires
        !text::contains(rest, "__"@),
    ensures
        routed(m, "mcp__"@ + rest) == RouteView::Refused(
            "error: malformed mcp tool name: mcp__"@ + rest,
        ),
{
    reveal_strlit("mcp__");
    reveal_strlit("error: malformed mcp tool name: mcp__");
    reveal_strlit("error: malformed mcp tool name: ");
    let name = "mcp__"@ + rest;
    assert(name.subrange(0, 5) =~= "mcp__"@);
    assert(name.skip(5) =~= rest);
    text::lemma_find_none(rest, "__"@);
    assert("error: malformed mcp tool name: "@ + name
        =~= "error: malformed mcp tool name: mcp__"@ + rest);
}

/// Every tool that a server offers is kept under its server's name, in the order it came.
pub proof fn law_every_tool_has_its_server(server: Seq<char>, tools: Seq<McpTool>, i: int)
    requires
        0 <= i < tools.len(),
    ensures
        owned(server, tools).len() == tools.len(),
        owned(server, tools)[i] == (server, tools[i]),
{
}

/// A definition tells a tool's full name, its description and its schema as the server gave them.
pub proof fn law_definitions_tell_the_tool(d: ToolDef, server: Seq<char>, t: McpTool)
    requires
        is_definition(d, server, t),
    ensures
        d.name@ == "mcp__"@ + server + "__"@ + t.name@,
        t.description is Some ==> d.description@ == t.description->Some_0@,
        t.description is None ==> d.description@.len() == 0,
        d.schema is Json && d.schema->Json_0@ == t.schema@,
{
    reveal_strlit("");
}

/// Every text of a result is shown, in its place, a line each; blocks of other kinds are passed
/// over.
pub proof fn law_every_text_is_shown(a: Seq<Option<String>>, t: String, b: Seq<Option<String>>)
    ensures
        text_blocks(a + seq![Some(t)] + b) == text_blocks(a) + seq![t@] + text_blocks(b),
        text_blocks(a + seq![None::<String>] + b) == text_blocks(a) + text_blocks(b),
        content_text(a + seq![Some(t)] + b) == text::join(
            text_blocks(a) + seq![t@] + text_blocks(b),
            "\n"@,
        ),
        text_blocks(a).len() == 0 ==> content_text(a) == "(no text content)"@,
    decreases b.len(),
{
    let x = a + seq![Some(t)] + b;
    let y = a + seq![None::<String>] + b;
    if b.len() == 0 {
        assert(x.drop_last() =~= a);
        assert(y.drop_last() =~= a);
        assert(text_blocks(a).push(t@) =~= text_blocks(a) + seq![t@] + text_blocks(b));
        assert(text_blocks(a) =~= text_blocks(a) + text_blocks(b));
    } else {
        law_every_text_is_shown(a, t, b.drop_last());
        assert(x.drop_last() =~= a + seq![Some(t)] + b.drop_last());
        assert(y.drop_last() =~= a + seq![None::<String>] + b.drop_last());
        assert(x.last() == b.last() && y.last() == b.last());
        let before = text_blocks(b.drop_last());
        if let Some(l) = b.last() {
            assert((text_blocks(a) + seq![t@] + before).push(l@) =~= text_blocks(a) + seq![t@]
                + before.push(l@));
            assert((text_blocks(a) + before).push(l@) =~= text_blocks(a) + before.push(l@));
        }
    }
}

} // verus!
