//! Thin HTTP control panel: who may use it, and what it shows.

use crate::history;
use crate::names;
use crate::sorting;
use crate::state::ReloadableState;
use crate::state;
use crate::text;
use vstd::prelude::*;
use vstd::string::*;

verus! {

/// Whether a request may pass: no token is configured, or the request bears it.
pub fn check_auth(auth_token: &str, authorization: Option<&str>) -> (r: bool)
    ensures
        r == (auth_token@.len() == 0 || (authorization matches Some(h) && h@ == "Bearer "@
            + auth_token@)),
{
    if text::chars_of(auth_token).len() == 0 {
        return true;
    }
    match authorization {
        Some(h) => {
            let mut expected = "Bearer ".to_owned();
            expected.append(auth_token);
            text::same(h, expected.as_str())
        },
        None => false,
    }
}

/// A room as the panel lists it.
#[derive(Debug)]
pub struct RoomInfo {
    pub id: String,
    pub profile: String,
    pub require_mention: bool,
}

/// `listed` holds the rooms of the state, in the order of their ids, each under its name.
pub open spec fn lists_rooms(listed: Seq<(String, RoomInfo)>, st: ReloadableState) -> bool {
    let ids = names::key_list(st.room_configs@.dom());
    &&& listed.len() == ids.len()
    &&& forall|i: int|
        0 <= i < listed.len() ==> {
            let e = #[trigger] listed[i];
            &&& e.0@ == st.room_configs@[ids[i]].name@
            &&& e.1.id@ == ids[i]
            &&& e.1.profile@ == state::profile_name(st.room_profiles@, st.room_configs@, ids[i])
            &&& e.1.require_mention == st.room_configs@[ids[i]].require_mention
        }
}

/// The rooms by name: each with its id, the profile it asks for, and whether it wants a mention.
pub fn list_rooms(st: &ReloadableState) -> (r: Vec<(String, RoomInfo)>)
    ensures
        exists|listed: Seq<(String, RoomInfo)>| #[trigger]
            lists_rooms(listed, *st) && r@ == sorting::by_name(listed),
{
    let keys = st.room_configs.keys();
    let ghost ids = names::key_list(st.room_configs@.dom());
    let mut listed: Vec<(String, RoomInfo)> = Vec::new();
    let mut i: usize = 0;
    while i < keys.len()
        invariant
            i <= keys.len(),
            ids == names::key_list(st.room_configs@.dom()),
            ids == text::views(keys@),
            names::lists_keys(ids, st.room_configs@.dom()),
            listed@.len() == i,
            forall|k: int|
                0 <= k < i ==> {
                    let e = #[trigger] listed@[k];
                    &&& e.0@ == st.room_configs@[ids[k]].name@
                    &&& e.1.id@ == ids[k]
                    &&& e.1.profile@ == state::profile_name(
                        st.room_profiles@,
                        st.room_configs@,
                        ids[k],
                    )
                    &&& e.1.require_mention == st.room_configs@[ids[k]].require_mention
                },
        decreases keys.len() - i,
    {
        let id = &keys[i];
        proof {
            assert(ids[i as int] == id@);
            assert(ids.contains(id@));
            assert(st.room_configs@.dom().contains(id@));
        }
        if let Some(cfg) = st.room_configs.get(id.as_str()) {
            listed.push(
                (
                    cfg.name.clone(),
                    RoomInfo {
                        id: id.clone(),
                        profile: st.profile_name_for_room(id.as_str()),
                        require_mention: cfg.require_mention,
                    },
                ),
            );
        }
        i += 1;
    }
    assert(lists_rooms(listed@, *st));
    sorting::sort_by_name(listed)
}

/// A command as the panel lists it.
#[derive(Debug)]
pub struct CmdInfo {
    pub name: String,
    pub args: String,
    pub description: String,
    pub category: String,
}

/// A command, by its texts.
#[verifier::ext_equal]
pub struct CmdView {
    pub name: Seq<char>,
    pub args: Seq<char>,
    pub description: Seq<char>,
    pub category: Seq<char>,
}

impl View for CmdInfo {
    type V = CmdView;

    open spec fn view(&self) -> CmdView {
        CmdView {
            name: self.name@,
            args: self.args@,
            description: self.description@,
            category: self.category@,
        }
    }
}

/// A command with the given texts.
pub open spec fn cmd(
    name: Seq<char>,
    args: Seq<char>,
    description: Seq<char>,
    category: Seq<char>,
) -> CmdView {
    CmdView { name, args, description, category }
}

/// The commands, by category.
pub open spec fn command_table() -> Seq<CmdView> {
    seq![
        cmd("/help"@, ""@, "Show this command reference"@, "Help"@),
        cmd("/status"@, ""@, "Show active jobs, profile, memory sizes"@, "Info"@),
        cmd("/jobs"@, ""@, "List background jobs with room and model"@, "Info"@),
        cmd("/model"@, "<profile>"@, "Switch LLM profile for this room (persisted)"@, "Config"@),
        cmd("/cancel"@, "<job-id>"@, "Abort a background job"@, "Jobs"@),
        cmd("/clear"@, ""@, "Drop this room's conversation history"@, "Memory"@),
        cmd("/forget"@, ""@, "Wipe durable memory for this room"@, "Memory"@),
        cmd("/agents"@, ""@, "List configured subagents"@, "Agents"@),
        cmd("/agent"@, "<name> <task>"@, "Run a named subagent manually"@, "Agents"@),
        cmd("/skills"@, ""@, "List active + pending skills"@, "Skills"@),
        cmd("/skills suggest"@, ""@, "Ask Roger to draft a skill from recent history"@, "Skills"@),
        cmd("/skills approve"@, "<name>"@, "Promote a pending skill to active"@, "Skills"@),
        cmd("/skills forget"@, "<name>"@, "Remove a learned or pending skill"@, "Skills"@),
    ]
}

/// The views of a list of commands.
pub open spec fn cmd_views(cmds: Seq<CmdInfo>) -> Seq<CmdView> {
    cmds.map_values(|c: CmdInfo| c@)
}

/// A command with the given texts.
fn new_cmd(name: &str, args: &str, description: &str, category: &str) -> (r: CmdInfo)
    ensures
        r@ == cmd(name@, args@, description@, category@),
{
    CmdInfo {
        name: name.to_owned(),
        args: args.to_owned(),
        description: description.to_owned(),
        category: category.to_owned(),
    }
}

/// The commands, by category.
pub fn commands() -> (r: Vec<CmdInfo>)
    ensures
        cmd_views(r@) == command_table(),
{
    let mut out: Vec<CmdInfo> = Vec::new();
    out.push(new_cmd("/help", "", "Show this command reference", "Help"));
    out.push(new_cmd("/status", "", "Show active jobs, profile, memory sizes", "Info"));
    out.push(new_cmd("/jobs", "", "List background jobs with room and model", "Info"));
    out.push(new_cmd("/model", "<profile>", "Switch LLM profile for this room (persisted)", "Config"));
    out.push(new_cmd("/cancel", "<job-id>", "Abort a background job", "Jobs"));
    out.push(new_cmd("/clear", "", "Drop this room's conversation history", "Memory"));
    out.push(new_cmd("/forget", "", "Wipe durable memory for this room", "Memory"));
    out.push(new_cmd("/agents", "", "List configured subagents", "Agents"));
    out.push(new_cmd("/agent", "<name> <task>", "Run a named subagent manually", "Agents"));
    out.push(new_cmd("/skills", "", "List active + pending skills", "Skills"));
    out.push(new_cmd("/skills suggest", "", "Ask Roger to draft a skill from recent history", "Skills"));
    out.push(new_cmd("/skills approve", "<name>", "Promote a pending skill to active", "Skills"));
    out.push(new_cmd("/skills forget", "<name>", "Remove a learned or pending skill", "Skills"));
    assert(cmd_views(out@) =~= command_table());
    out
}

/// What is answered to a message that shall be sent: an error where it is blank.
pub fn refuse_message(message: &str) -> (r: Option<&'static str>)
    ensures
        match r {
            Some(e) => text::is_blank(message@) && e@ == "message is empty"@,
            None => !text::is_blank(message@),
        },
{
    if text::blank(message) {
        Some("message is empty")
    } else {
        None
    }
}

/// What is answered where the room is not known.
pub fn room_not_found(room_id: &str) -> (r: String)
    ensures
        r@ == "room not found: "@ + room_id@,
{
    let mut out = "room not found: ".to_owned();
    out.append(room_id);
    out
}

/// A room as an option of the send form.
pub open spec fn option_text(e: (String, RoomInfo)) -> Seq<char> {
    "<option value=\""@ + e.1.id@ + "\">"@ + e.0@ + "</option>"@
}

/// The rooms as options of the send form.
pub open spec fn option_texts(rooms: Seq<(String, RoomInfo)>) -> Seq<Seq<char>> {
    rooms.map_values(|e: (String, RoomInfo)| option_text(e))
}

/// The categories of the commands, each once, in the order of their first command.
pub open spec fn categories(cmds: Seq<CmdView>) -> Seq<Seq<char>>
    decreases cmds.len(),
{
    if cmds.len() == 0 {
        Seq::empty()
    } else {
        let before = categories(cmds.drop_last());
        if before.contains(cmds.last().category) {
            before
        } else {
            before.push(cmds.last().category)
        }
    }
}

/// A command as a row of the table.
pub open spec fn row_text(c: CmdView) -> Seq<char> {
    "<tr><td><code>"@ + c.name + "</code></td><td><code>"@ + c.args + "</code></td><td>"@
        + c.description + "</td></tr>"@
}

/// The rows of the commands of a category.
pub open spec fn rows_of(cmds: Seq<CmdView>, category: Seq<char>) -> Seq<Seq<char>>
    decreases cmds.len(),
{
    if cmds.len() == 0 {
        Seq::empty()
    } else if cmds.last().category == category {
        rows_of(cmds.drop_last(), category).push(row_text(cmds.last()))
    } else {
        rows_of(cmds.drop_last(), category)
    }
}

/// A category with its rows.
pub open spec fn group_text(cmds: Seq<CmdView>, category: Seq<char>) -> Seq<char> {
    "<tr><th colspan=\"3\" class=\"cat\">"@ + category + "</th></tr>\n"@ + text::join(
        rows_of(cmds, category),
        "\n"@,
    )
}

/// The command table: the categories, each with its rows.
pub open spec fn table_text(cmds: Seq<CmdView>) -> Seq<char> {
    text::join(
        categories(cmds).map_values(|c: Seq<char>| group_text(cmds, c)),
        "\n"@,
    )
}

/// The page up to the bot's id.
pub const PAGE_HEAD: &'static str = "<!DOCTYPE html>\n<html lang=\"en\">\n<head>\n<meta charset=\"utf-8\">\n<meta name=\"viewport\" content=\"width=device-width,initial-scale=1\">\n<title>Roger</title>\n<style>\n*{box-sizing:border-box;margin:0;padding:0}\nbody{background:#1a1a1a;color:#e0e0e0;font:14px/1.5 'Courier New',monospace;padding:1.5rem}\nh1{color:#7eb8f7;margin-bottom:0.25rem}\n.meta{color:#888;font-size:12px;margin-bottom:1.5rem}\nh2{color:#a8d8a8;margin:1.5rem 0 0.5rem}\ntable{width:100%;border-collapse:collapse;margin-bottom:1rem}\nth,td{padding:0.35rem 0.6rem;text-align:left;border-bottom:1px solid #333}\nth.cat{background:#2a2a2a;color:#f0b840;font-size:12px;letter-spacing:0.05em;text-transform:uppercase}\ncode{color:#f7c948;background:#2a2a2a;padding:0.1em 0.3em;border-radius:3px;font-size:13px}\n.send-form{background:#222;border:1px solid #333;border-radius:6px;padding:1rem;max-width:600px}\n.send-form label{display:block;margin-bottom:0.25rem;color:#aaa;font-size:12px}\n.send-form select,.send-form textarea,.send-form button{width:100%;padding:0.5rem;background:#1a1a1a;color:#e0e0e0;border:1px solid #444;border-radius:4px;font:inherit;margin-bottom:0.75rem}\n.send-form textarea{height:80px;resize:vertical}\n.send-form button{background:#2a4a7f;color:#fff;cursor:pointer;border:none}\n.send-form button:hover{background:#3a5a9f}\n#send-result{font-size:12px;color:#aaa;margin-top:0.25rem}\n</style>\n</head>\n<body>\n<h1>Roger</h1>\n<div class=\"meta\">\n  ";

/// The page between the bot's id and the uptime.
pub const PAGE_UPTIME: &'static str = " &nbsp;|&nbsp;\n  uptime ";

/// The page between the uptime and the number of jobs.
pub const PAGE_JOBS: &'static str = "s &nbsp;|&nbsp;\n  ";

/// The page between the number of jobs and the rooms.
pub const PAGE_ROOMS: &'static str = " active job(s) &nbsp;|&nbsp;\n  <a href=\"/api/status\" style=\"color:#888\">status JSON</a>\n</div>\n\n<h2>Send a Message</h2>\n<div class=\"send-form\">\n  <label>Room</label>\n  <select id=\"room\">";

/// The page between the rooms and the commands.
pub const PAGE_COMMANDS: &'static str = "</select>\n  <label>Message</label>\n  <textarea id=\"msg\" placeholder=\"Type a message…\"></textarea>\n  <button onclick=\"sendMsg()\">Send</button>\n  <div id=\"send-result\"></div>\n</div>\n\n<h2>Commands</h2>\n<table>\n<thead><tr><th>Command</th><th>Args</th><th>Description</th></tr></thead>\n<tbody>\n";

/// The page behind the commands.
pub const PAGE_END: &'static str = "\n</tbody>\n</table>\n\n<script>\nasync function sendMsg() {\n  const room_id = document.getElementById('room').value;\n  const message = document.getElementById('msg').value.trim();\n  const res = document.getElementById('send-result');\n  if (!message) { res.textContent = 'Message is empty.'; return; }\n  res.textContent = 'Sending…';\n  try {\n    const r = await fetch('/api/send', {\n      method: 'POST',\n      headers: {'Content-Type': 'application/json'},\n      body: JSON.stringify({room_id, message})\n    });\n    const j = await r.json();\n    res.textContent = j.ok ? 'Sent.' : ('Error: ' + (j.error || 'unknown'));\n    if (j.ok) document.getElementById('msg').value = '';\n  } catch(e) {\n    res.textContent = 'Network error: ' + e;\n  }\n}\n</script>\n</body>\n</html>";

/// The dashboard.
pub open spec fn page_text(
    bot_id: Seq<char>,
    uptime_secs: nat,
    jobs: nat,
    rooms: Seq<(String, RoomInfo)>,
) -> Seq<char> {
    PAGE_HEAD@ + bot_id + PAGE_UPTIME@ + text::decimal(uptime_secs) + PAGE_JOBS@ + text::decimal(jobs)
        + PAGE_ROOMS@ + text::join(option_texts(rooms), "\n"@) + PAGE_COMMANDS@ + table_text(
        command_table(),
    ) + PAGE_END@
}

/// The rooms as options of the send form, one after another.
fn room_options(rooms: &[(String, RoomInfo)]) -> (r: String)
    ensures
        r@ == text::join(option_texts(rooms@), "\n"@),
{
    let mut parts: Vec<String> = Vec::new();
    let ghost all = option_texts(rooms@);
    let mut i: usize = 0;
    assert(text::views(parts@) =~= all.take(0));
    while i < rooms.len()
        invariant
            i <= rooms.len(),
            all == option_texts(rooms@),
            text::views(parts@) == all.take(i as int),
        decreases rooms.len() - i,
    {
        let mut o = "<option value=\"".to_owned();
        o.append(rooms[i].1.id.as_str());
        o.append("\">");
        o.append(rooms[i].0.as_str());
        o.append("</option>");
        let ghost before = parts@;
        let ghost ov = o@;
        parts.push(o);
        assert(text::views(parts@) =~= text::views(before).push(ov));
        assert(all.take(i + 1) =~= all.take(i as int).push(all[i as int]));
        i += 1;
    }
    assert(all.take(all.len() as int) =~= all);
    text::joined(parts.as_slice(), "\n")
}

/// The categories of the commands.
fn categories_of(cmds: &[CmdInfo]) -> (r: Vec<String>)
    ensures
        text::views(r@) == categories(cmd_views(cmds@)),
{
    let mut out: Vec<String> = Vec::new();
    let ghost all = cmd_views(cmds@);
    let mut i: usize = 0;
    assert(text::views(out@) =~= categories(all.take(0)));
    while i < cmds.len()
        invariant
            i <= cmds.len(),
            all == cmd_views(cmds@),
            text::views(out@) == categories(all.take(i as int)),
        decreases cmds.len() - i,
    {
        let c = &cmds[i].category;
        proof {
            assert(all.take(i + 1).drop_last() == all.take(i as int));
            assert(all.take(i + 1).last() == cmds@[i as int]@);
        }
        let ghost before = out@;
        if !history::lists(out.as_slice(), c.as_str()) {
            out.push(c.clone());
            assert(text::views(out@) =~= text::views(before).push(c@));
        }
        i += 1;
    }
    assert(all.take(all.len() as int) =~= all);
    out
}

/// The rows of the commands of a category.
fn rows_in(cmds: &[CmdInfo], category: &str) -> (r: Vec<String>)
    ensures
        text::views(r@) == rows_of(cmd_views(cmds@), category@),
{
    let mut out: Vec<String> = Vec::new();
    let ghost all = cmd_views(cmds@);
    let mut i: usize = 0;
    assert(text::views(out@) =~= rows_of(all.take(0), category@));
    while i < cmds.len()
        invariant
            i <= cmds.len(),
            all == cmd_views(cmds@),
            text::views(out@) == rows_of(all.take(i as int), category@),
        decreases cmds.len() - i,
    {
        let c = &cmds[i];
        proof {
            assert(all.take(i + 1).drop_last() == all.take(i as int));
            assert(all.take(i + 1).last() == cmds@[i as int]@);
        }
        let ghost before = out@;
        if text::same(c.category.as_str(), category) {
            let mut row = "<tr><td><code>".to_owned();
            row.append(c.name.as_str());
            row.append("</code></td><td><code>");
            row.append(c.args.as_str());
            row.append("</code></td><td>");
            row.append(c.description.as_str());
            row.append("</td></tr>");
            let ghost rv = row@;
            out.push(row);
            assert(text::views(out@) =~= text::views(before).push(rv));
        }
        i += 1;
    }
    assert(all.take(all.len() as int) =~= all);
    out
}

/// The command table.
fn table_of(cmds: &[CmdInfo]) -> (r: String)
    ensures
        r@ == table_text(cmd_views(cmds@)),
{
    let cats = categories_of(cmds);
    let ghost all = categories(cmd_views(cmds@)).map_values(
        |c: Seq<char>| group_text(cmd_views(cmds@), c),
    );
    let mut groups: Vec<String> = Vec::new();
    let mut i: usize = 0;
    assert(text::views(groups@) =~= all.take(0));
    while i < cats.len()
        invariant
            i <= cats.len(),
            text::views(cats@) == categories(cmd_views(cmds@)),
            all == categories(cmd_views(cmds@)).map_values(
                |c: Seq<char>| group_text(cmd_views(cmds@), c),
            ),
            text::views(groups@) == all.take(i as int),
        decreases cats.len() - i,
    {
        let rows = rows_in(cmds, cats[i].as_str());
        let body = text::joined(rows.as_slice(), "\n");
        let mut g = "<tr><th colspan=\"3\" class=\"cat\">".to_owned();
        g.append(cats[i].as_str());
        g.append("</th></tr>\n");
        g.append(body.as_str());
        let ghost before = groups@;
        let ghost gv = g@;
        groups.push(g);
        proof {
            assert(text::views(cats@)[i as int] == cats@[i as int]@);
            assert(all[i as int] == gv);
            assert(text::views(groups@) =~= text::views(before).push(gv));
            assert(all.take(i + 1) =~= all.take(i as int).push(all[i as int]));
        }
        i += 1;
    }
    proof {
        assert(text::views(cats@).len() == cats@.len());
        assert(all.take(all.len() as int) =~= all);
    }
    text::joined(groups.as_slice(), "\n")
}

/// The dashboard: who the bot is, a form to send a message to one of the rooms, and the commands.
pub fn dashboard(
    bot_id: &str,
    uptime_secs: u64,
    jobs: usize,
    rooms: &[(String, RoomInfo)],
) -> (r: String)
    ensures
        r@ == page_text(bot_id@, uptime_secs as nat, jobs as nat, rooms@),
{
    let mut out = PAGE_HEAD.to_owned();
    out.append(bot_id);
    out.append(PAGE_UPTIME);
    text::push_decimal(&mut out, uptime_secs);
    out.append(PAGE_JOBS);
    text::push_decimal(&mut out, jobs as u64);
    out.append(PAGE_ROOMS);
    let options = room_options(rooms);
    out.append(options.as_str());
    out.append(PAGE_COMMANDS);
    let cmds = commands();
    let table = table_of(cmds.as_slice());
    out.append(table.as_str());
    out.append(PAGE_END);
    out
}

/// The command table has a row for every command, with its name, its arguments and what it does,
/// under the heading of its category.
#[verifier::rlimit(40)]
pub proof fn law_table_shows_every_command(cmds: Seq<CmdView>, i: int)
    requires
        0 <= i < cmds.len(),
    ensures
        text::contains(
            table_text(cmds),
            "<tr><td><code>"@ + cmds[i].name + "</code></td><td><code>"@ + cmds[i].args
                + "</code></td><td>"@ + cmds[i].description + "</td></tr>"@,
        ),
        text::contains(
            table_text(cmds),
            "<tr><th colspan=\"3\" class=\"cat\">"@ + cmds[i].category + "</th></tr>\n"@,
        ),
{
    let none = Seq::<char>::empty();
    let cats = categories(cmds);
    lemma_category_is_listed(cmds, i);
    let k = choose|k: int| 0 <= k < cats.len() && cats[k] == cmds[i].category;
    let groups = cats.map_values(|c: Seq<char>| group_text(cmds, c));
    let group = group_text(cmds, cmds[i].category);
    assert(groups[k] == group);
    text::lemma_join_holds_each(groups, "\n"@, k);
    let rows = rows_of(cmds, cmds[i].category);
    lemma_row_is_listed(cmds, i);
    let j = choose|j: int| 0 <= j < rows.len() && rows[j] == row_text(cmds[i]);
    text::lemma_join_holds_each(rows, "\n"@, j);
    let head = "<tr><th colspan=\"3\" class=\"cat\">"@ + cmds[i].category + "</th></tr>\n"@;
    let all = text::join(rows, "\n"@);
    text::lemma_holds_what_a_part_holds(head, all, none, row_text(cmds[i]));
    assert(head + all + none =~= group);
    text::lemma_holds_the_middle(none, head, all);
    assert(none + head + all =~= group);
    lemma_held_within(table_text(cmds), group, row_text(cmds[i]));
    lemma_held_within(table_text(cmds), group, head);
}

/// What a part of a text holds the text holds.
proof fn lemma_held_within(s: Seq<char>, part: Seq<char>, pat: Seq<char>)
    requires
        text::contains(s, part),
        text::contains(part, pat),
    ensures
        text::contains(s, pat),
{
    let i = choose|i: int| text::occurs_at(s, part, i);
    assert(s =~= s.take(i) + part + s.skip((i + part.len()) as int));
    text::lemma_holds_what_a_part_holds(s.take(i), part, s.skip((i + part.len()) as int), pat);
}

proof fn lemma_category_is_listed(cmds: Seq<CmdView>, i: int)
    requires
        0 <= i < cmds.len(),
    ensures
        categories(cmds).contains(cmds[i].category),
    decreases cmds.len(),
{
    let before = categories(cmds.drop_last());
    let all = categories(cmds);
    if i == cmds.len() - 1 {
        if !before.contains(cmds.last().category) {
            assert(all[all.len() - 1] == cmds.last().category);
        }
    } else {
        lemma_category_is_listed(cmds.drop_last(), i);
        let k = choose|k: int| 0 <= k < before.len() && before[k] == cmds[i].category;
        assert(all[k] == cmds[i].category);
    }
}

proof fn lemma_row_is_listed(cmds: Seq<CmdView>, i: int)
    requires
        0 <= i < cmds.len(),
    ensures
        rows_of(cmds, cmds[i].category).contains(row_text(cmds[i])),
    decreases cmds.len(),
{
    let before = rows_of(cmds.drop_last(), cmds[i].category);
    let all = rows_of(cmds, cmds[i].category);
    if i == cmds.len() - 1 {
        assert(all[all.len() - 1] == row_text(cmds[i]));
    } else {
        lemma_row_is_listed(cmds.drop_last(), i);
        let k = choose|k: int| 0 <= k < before.len() && before[k] == row_text(cmds[i]);
        assert(all[k] == row_text(cmds[i]));
    }
}

/// No category stands twice in the table.
pub proof fn law_categories_stand_once(cmds: Seq<CmdView>)
    ensures
        categories(cmds).no_duplicates(),
    decreases cmds.len(),
{
    if cmds.len() > 0 {
        law_categories_stand_once(cmds.drop_last());
    }
}

/// The send form offers every room by its name, under its id.
pub proof fn law_every_room_is_offered(rooms: Seq<(String, RoomInfo)>, i: int)
    requires
        0 <= i < rooms.len(),
    ensures
        option_texts(rooms).len() == rooms.len(),
        option_texts(rooms)[i] == "<option value=\""@ + rooms[i].1.id@ + "\">"@ + rooms[i].0@
            + "</option>"@,
        text::contains(
            text::join(option_texts(rooms), "\n"@),
            "<option value=\""@ + rooms[i].1.id@ + "\">"@ + rooms[i].0@ + "</option>"@,
        ),
{
    text::lemma_join_holds_each(option_texts(rooms), "\n"@, i);
}

/// The page shows the bot's id, the uptime, the number of jobs, the rooms to send to and the
/// commands.
#[verifier::rlimit(40)]
pub proof fn law_page_shows_all(
    bot_id: Seq<char>,
    uptime_secs: nat,
    jobs: nat,
    rooms: Seq<(String, RoomInfo)>,
)
    ensures
        text::starts_with(
            page_text(bot_id, uptime_secs, jobs, rooms),
            PAGE_HEAD@ + bot_id + PAGE_UPTIME@ + text::decimal(uptime_secs) + PAGE_JOBS@
                + text::decimal(jobs) + PAGE_ROOMS@,
        ),
        text::contains(
            page_text(bot_id, uptime_secs, jobs, rooms),
            text::join(option_texts(rooms), "\n"@),
        ),
        text::contains(
            page_text(bot_id, uptime_secs, jobs, rooms),
            table_text(command_table()),
        ),
{
    let front = PAGE_HEAD@ + bot_id + PAGE_UPTIME@ + text::decimal(uptime_secs) + PAGE_JOBS@
        + text::decimal(jobs) + PAGE_ROOMS@;
    let options = text::join(option_texts(rooms), "\n"@);
    let table = table_text(command_table());
    let mid = PAGE_COMMANDS@;
    let end = PAGE_END@;
    let page = page_text(bot_id, uptime_secs, jobs, rooms);
    assert(page == front + options + mid + table + end);
    text::lemma_holds_the_middle(front, options, mid + table + end);
    assert(front + options + (mid + table + end) =~= page);
    text::lemma_holds_the_middle(front + options + mid, table, end);
    assert(page.subrange(0, front.len() as int) =~= front);
}

/// Every room of the state is listed once, with its name, the profile that it asks for, and whether
/// it wants a mention.
pub proof fn law_every_room_is_listed(
    listed: Seq<(String, RoomInfo)>,
    st: ReloadableState,
    ids: Seq<Seq<char>>,
    room_id: Seq<char>,
)
    requires
        lists_rooms(listed, st),
        names::lists_keys(ids, st.room_configs@.dom()),
        st.room_configs@.contains_key(room_id),
    ensures
        exists|i: int|
            0 <= i < listed.len() && (#[trigger] listed[i]).1.id@ == room_id && listed[i].0@
                == st.room_configs@[room_id].name@ && listed[i].1.profile@ == state::profile_name(
                st.room_profiles@,
                st.room_configs@,
                room_id,
            ) && listed[i].1.require_mention == st.room_configs@[room_id].require_mention,
{
    let ks = names::key_list(st.room_configs@.dom());
    names::lemma_key_list_unique(ks, ids, st.room_configs@.dom());
    assert(st.room_configs@.dom().contains(room_id));
    assert(ks.contains(room_id));
    let k = choose|k: int| 0 <= k < ks.len() && ks[k] == room_id;
    assert(listed[k].1.id@ == room_id);
}

/// A command has the texts that it is given, each in its place, and a list of commands is seen one by
/// one.
pub proof fn law_commands_have_their_texts(
    name: Seq<char>,
    args: Seq<char>,
    description: Seq<char>,
    category: Seq<char>,
    cmds: Seq<CmdInfo>,
    i: int,
)
    requires
        0 <= i < cmds.len(),
    ensures
        cmd(name, args, description, category).name == name,
        cmd(name, args, description, category).args == args,
        cmd(name, args, description, category).description == description,
        cmd(name, args, description, category).category == category,
        cmd_views(cmds).len() == cmds.len(),
        cmd_views(cmds)[i].name == cmds[i].name@,
        cmd_views(cmds)[i].args == cmds[i].args@,
        cmd_views(cmds)[i].description == cmds[i].description@,
        cmd_views(cmds)[i].category == cmds[i].category@,
{
}

/// The commands of a category stand together in the table.
#[verifier::rlimit(40)]
pub proof fn law_categories_stand_together(i: int, j: int, k: int)
    requires
        0 <= i < j < k < command_table().len(),
        command_table()[i].category == command_table()[k].category,
    ensures
        command_table()[j].category == command_table()[i].category,
{
    reveal_strlit("Agents");
    reveal_strlit("Config");
    reveal_strlit("Help");
    reveal_strlit("Info");
    reveal_strlit("Jobs");
    reveal_strlit("Memory");
    reveal_strlit("Skills");
    assert("Help"@[0] == 'H' && "Info"@[0] == 'I' && "Config"@[0] == 'C' && "Jobs"@[0] == 'J'
        && "Memory"@[0] == 'M' && "Agents"@[0] == 'A' && "Skills"@[0] == 'S');
}

/// The table lists these commands and no others.
#[verifier::rlimit(40)]
pub proof fn law_table_of_commands()
    ensures
        command_table().map_values(|c: CmdView| c.name) == seq![
            "/help"@,
            "/status"@,
            "/jobs"@,
            "/model"@,
            "/cancel"@,
            "/clear"@,
            "/forget"@,
            "/agents"@,
            "/agent"@,
            "/skills"@,
            "/skills suggest"@,
            "/skills approve"@,
            "/skills forget"@,
        ],
        command_table().map_values(|c: CmdView| c.description) == seq![
            "Show this command reference"@,
            "Show active jobs, profile, memory sizes"@,
            "List background jobs with room and model"@,
            "Switch LLM profile for this room (persisted)"@,
            "Abort a background job"@,
            "Drop this room's conversation history"@,
            "Wipe durable memory for this room"@,
            "List configured subagents"@,
            "Run a named subagent manually"@,
            "List active + pending skills"@,
            "Ask Roger to draft a skill from recent history"@,
            "Promote a pending skill to active"@,
            "Remove a learned or pending skill"@,
        ],
        command_table().map_values(|c: CmdView| c.category) == seq![
            "Help"@,
            "Info"@,
            "Info"@,
            "Config"@,
            "Jobs"@,
            "Memory"@,
            "Memory"@,
            "Agents"@,
            "Agents"@,
            "Skills"@,
            "Skills"@,
            "Skills"@,
            "Skills"@,
        ],
        command_table().map_values(|c: CmdView| c.args) == seq![
            ""@,
            ""@,
            ""@,
            "<profile>"@,
            "<job-id>"@,
            ""@,
            ""@,
            ""@,
            "<name> <task>"@,
            ""@,
            ""@,
            "<name>"@,
            "<name>"@,
        ],
{
}

/// The rooms are listed in the order of their ids, each once, and no others.
pub proof fn law_rooms_are_listed_in_order(
    listed: Seq<(String, RoomInfo)>,
    st: ReloadableState,
    ids: Seq<Seq<char>>,
    i: int,
)
    requires
        lists_rooms(listed, st),
        names::lists_keys(ids, st.room_configs@.dom()),
        0 <= i < ids.len(),
    ensures
        listed.len() == ids.len(),
        listed[i].1.id@ == ids[i],
        listed[i].0@ == st.room_configs@[ids[i]].name@,
{
    names::lemma_key_list_unique(names::key_list(st.room_configs@.dom()), ids, st.room_configs@.dom());
    let _ = listed[i];
}

/// The rows of a category come in the order of its commands, and those of lists one after another.
pub proof fn law_rows_keep_their_order(
    a: Seq<CmdView>,
    b: Seq<CmdView>,
    one: CmdView,
    category: Seq<char>,
)
    ensures
        rows_of(a + b, category) == rows_of(a, category) + rows_of(b, category),
        one.category == category ==> rows_of(seq![one], category) == seq![
            "<tr><td><code>"@ + one.name + "</code></td><td><code>"@ + one.args
                + "</code></td><td>"@ + one.description + "</td></tr>"@,
        ],
        one.category != category ==> rows_of(seq![one], category).len() == 0,
    decreases b.len(),
{
    let single = seq![one];
    assert(rows_of(single.drop_last(), category) =~= Seq::<Seq<char>>::empty());
    assert(Seq::<Seq<char>>::empty().push(row_text(one)) =~= seq![row_text(one)]);
    if b.len() == 0 {
        assert(a + b =~= a);
        assert(rows_of(a, category) + rows_of(b, category) =~= rows_of(a, category));
    } else {
        law_rows_keep_their_order(a, b.drop_last(), one, category);
        assert((a + b).drop_last() =~= a + b.drop_last());
        assert((a + b).last() == b.last());
        let x = rows_of(a, category);
        let y = rows_of(b.drop_last(), category);
        assert(x + y.push(row_text(b.last())) =~= (x + y).push(row_text(b.last())));
    }
}

/// A command of a new category adds it behind the others, and one of a known category adds none;
/// commands of one category make a table of its heading and their rows.
pub proof fn law_categories_come_as_they_are_met(
    cmds: Seq<CmdView>,
    one: CmdView,
    category: Seq<char>,
)
    requires
        forall|i: int| 0 <= i < cmds.len() ==> (#[trigger] cmds[i]).category == category,
        cmds.len() > 0,
    ensures
        categories(cmds) == seq![category],
        one.category == category ==> categories(cmds.push(one)) == seq![category],
        one.category != category ==> categories(cmds.push(one)) == seq![category, one.category],
        table_text(cmds) == "<tr><th colspan=\"3\" class=\"cat\">"@ + category + "</th></tr>\n"@
            + text::join(rows_of(cmds, category), "\n"@),
    decreases cmds.len(),
{
    let rest = cmds.drop_last();
    assert(cmds[cmds.len() - 1] == cmds.last());
    if rest.len() == 0 {
        assert(categories(rest) =~= Seq::<Seq<char>>::empty());
        assert(categories(cmds) =~= seq![category]);
    } else {
        assert forall|i: int| 0 <= i < rest.len() implies (#[trigger] rest[i]).category
            == category by {
            assert(cmds[i] == rest[i]);
        }
        law_categories_come_as_they_are_met(rest, one, category);
        assert(seq![category][0] == category);
        assert(categories(rest).contains(category));
    }
    assert(cmds.push(one).drop_last() =~= cmds);
    assert(seq![category][0] == category);
    assert(categories(cmds).contains(category));
    assert(seq![category].push(one.category) =~= seq![category, one.category]);
    let groups = categories(cmds).map_values(|c: Seq<char>| group_text(cmds, c));
    assert(groups =~= seq![group_text(cmds, category)]);
}

/// The page holds its parts one behind another: the bot, its uptime and its jobs, the rooms, and the
/// commands.
#[verifier::rlimit(40)]
pub proof fn law_page_is_whole(
    bot_id: Seq<char>,
    uptime_secs: nat,
    jobs: nat,
    rooms: Seq<(String, RoomInfo)>,
)
    ensures
        page_text(bot_id, uptime_secs, jobs, rooms) == (PAGE_HEAD@ + bot_id + PAGE_UPTIME@
            + text::decimal(uptime_secs) + PAGE_JOBS@ + text::decimal(jobs) + PAGE_ROOMS@) + (
        text::join(option_texts(rooms), "\n"@) + PAGE_COMMANDS@ + table_text(command_table())
            + PAGE_END@),
{
    let front = PAGE_HEAD@ + bot_id + PAGE_UPTIME@ + text::decimal(uptime_secs) + PAGE_JOBS@
        + text::decimal(jobs) + PAGE_ROOMS@;
    let options = text::join(option_texts(rooms), "\n"@);
    let table = table_text(command_table());
    assert(front + options + PAGE_COMMANDS@ + table + PAGE_END@ =~= front + (options + PAGE_COMMANDS@
        + table + PAGE_END@));
}

} // verus!
