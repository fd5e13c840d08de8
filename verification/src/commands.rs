//! What the bot listens to, and its slash commands.

use crate::history::HistoryStore;
use crate::history;
use crate::json;
use crate::llm::ProfileLlm;
use crate::llm;
use crate::memory::MemoryStore;
use crate::memory;
use crate::metrics::Metrics;
use crate::names;
use crate::paths;
use crate::room_profiles::RoomProfileStore;
use crate::state::ReloadableState;
use crate::state;
use crate::text;
use crate::tools::ToolExecutor;
use crate::workers::{JobInfo, Workers};
use crate::workers;
use vstd::prelude::*;
use vstd::slice::slice_subrange;
use vstd::string::*;

verus! {

/// The bot: who it is, where it may speak, and what it keeps.
pub struct BotCtx {
    pub allowed_rooms: Vec<String>,
    pub bot_user_id: String,
    pub bot_localpart: String,
    pub history: HistoryStore,
    pub state: ReloadableState,
    /// Persists `/model` runtime overrides across restarts.
    pub room_profiles: RoomProfileStore,
    /// Process-lifetime response counters.
    pub metrics: Metrics,
    /// Tool executor for web_search / web_fetch / set_workdir.
    pub tool_executor: ToolExecutor,
    /// Background-job registry (sync/async/auto response tasks).
    pub workers: Workers,
    /// Durable memory files (global + per-room), injected into the system prompt.
    pub memory: MemoryStore,
}

/// Whether a body mentions the bot, by its full id or its local part.
pub open spec fn mentions(body: Seq<char>, user_id: Seq<char>, localpart: Seq<char>) -> bool {
    text::contains(body, "@"@ + user_id) || text::contains(body, "@"@ + localpart)
}

impl BotCtx {
    /// Whether a room is on the allowlist.
    pub fn is_allowed(&self, room_id: &str) -> (r: bool)
        ensures
            r == text::views(self.allowed_rooms@).contains(room_id@),
    {
        history::lists(self.allowed_rooms.as_slice(), room_id)
    }

    /// Whether a body mentions the bot.
    pub fn is_mentioned(&self, body: &str) -> (r: bool)
        ensures
            r == mentions(body@, self.bot_user_id@, self.bot_localpart@),
    {
        let mut full = "@".to_owned();
        full.append(self.bot_user_id.as_str());
        let mut local = "@".to_owned();
        local.append(self.bot_localpart.as_str());
        text::has_text(body, full.as_str()) || text::has_text(body, local.as_str())
    }

    /// Whether a message is looked at: it comes from an allowed room, and not from the bot itself.
    pub fn hears(&self, room_id: &str, sender: &str) -> (r: bool)
        ensures
            r == (text::views(self.allowed_rooms@).contains(room_id@) && sender@
                != self.bot_user_id@),
    {
        self.is_allowed(room_id) && !text::same(sender, self.bot_user_id.as_str())
    }

    /// Whether a message is meant for the bot: it is mentioned, or the room asks for no mention.
    pub fn is_addressed(&self, room_id: &str, body: &str) -> (r: bool)
        ensures
            r == (mentions(body@, self.bot_user_id@, self.bot_localpart@) || (
            self.state.room_configs@.contains_key(room_id@)
                && !self.state.room_configs@[room_id@].require_mention)),
    {
        !self.state.mention_required(room_id) || self.is_mentioned(body)
    }

    /// What is done with a membership event of a room: nothing where it is no invitation of the bot;
    /// else the invitation to an allowed room is accepted, and any other declined.
    pub fn on_invite(
        &self,
        room_id: &str,
        invited: &str,
        own_user_id: &str,
        is_invite: bool,
    ) -> (r: InviteAction)
        ensures
            r == (if invited@ != own_user_id@ || !is_invite {
                InviteAction::Ignore
            } else if text::views(self.allowed_rooms@).contains(room_id@) {
                InviteAction::Accept
            } else {
                InviteAction::Decline
            }),
    {
        if !text::same(invited, own_user_id) || !is_invite {
            InviteAction::Ignore
        } else if self.is_allowed(room_id) {
            InviteAction::Accept
        } else {
            InviteAction::Decline
        }
    }
}

/// What is done with a membership event.
#[derive(Debug, Clone, Copy, PartialEq, Eq, Structural)]
pub enum InviteAction {
    Ignore,
    Accept,
    Decline,
}

/// A slash command: its first word, and what stands behind the first space.
pub open spec fn command_parts(body: Seq<char>) -> Option<(Seq<char>, Option<Seq<char>>)> {
    let trimmed = text::trim(body);
    if !text::starts_with(trimmed, "/"@) {
        None
    } else {
        match text::find(trimmed, seq![' ']) {
            Some(i) => Some((trimmed.take(i), Some(trimmed.skip(i + 1)))),
            None => Some((trimmed, None)),
        }
    }
}

/// Splits a slash command; `None` where the message is none.
fn split_command(body: &str) -> (r: Option<(String, Option<String>)>)
    ensures
        match r {
            Some((word, arg)) => command_parts(body@) == Some((word@, text::opt_string(arg))),
            None => command_parts(body@) is None,
        },
{
    let trimmed = text::trimmed(body);
    if !text::has_prefix(trimmed.as_str(), "/") {
        return None;
    }
    let v = text::chars_of(trimmed.as_str());
    let space: [char; 1] = [' '];
    assert(space@ == seq![' ']);
    match text::position(v.as_slice(), space.as_slice()) {
        Some(i) => {
            let word = text::string_of(slice_subrange(v.as_slice(), 0, i));
            let arg = text::string_of(slice_subrange(v.as_slice(), i + 1, v.len()));
            assert(word@ == trimmed@.take(i as int));
            assert(arg@ == trimmed@.skip(i + 1));
            Some((word, Some(arg)))
        },
        None => Some((trimmed, None)),
    }
}

/// What a command changed, and so what has to be saved.
#[derive(Debug, Clone, Copy, PartialEq, Eq, Structural)]
pub enum Effect {
    /// Nothing.
    Nothing,
    /// The room's history was cleared.
    History,
    /// The room's memory and TLDR were cleared.
    RoomMemory,
    /// The global memory was cleared.
    GlobalMemory,
    /// The profile overrides changed.
    Profiles,
    /// A job is to be aborted.
    Abort(u64),
}

/// The answer to a command, and what it changed.
pub struct CommandReply {
    pub text: String,
    pub effect: Effect,
}

/// The command reference.
pub open spec fn help_text() -> Seq<char> {
    "**Roger commands**\n`/help` — show this list\n`/clear` — wipe conversation history for this room\n`/forget` — wipe this room's durable memory (`/forget global` for shared)\n`/status` — show uptime, model, and history stats\n`/model [name]` — show/switch this room's LLM profile (`/model reset` to revert)\n`/jobs` — list active background jobs\n`/cancel <id>` — cancel a running background job"@
}

/// The value of a sequence of digits.
pub open spec fn digits_value(s: Seq<char>) -> nat
    decreases s.len(),
{
    if s.len() == 0 {
        0
    } else {
        digits_value(s.drop_last()) * 10 + (s.last() as nat - 48) as nat
    }
}

/// Whether `s` holds nothing but digits, and at least one.
pub open spec fn all_digits(s: Seq<char>) -> bool {
    s.len() > 0 && forall|i: int| 0 <= i < s.len() ==> '0' <= #[trigger] s[i] <= '9'
}

/// The number that `s` writes in decimal, with a `+` in front or without; `None` where it is no
/// number or has no place in 64 bits.
pub open spec fn parsed_u64(s: Seq<char>) -> Option<nat> {
    let digits = if s.len() > 0 && s[0] == '+' {
        s.skip(1)
    } else {
        s
    };
    if all_digits(digits) && digits_value(digits) <= u64::MAX {
        Some(digits_value(digits))
    } else {
        None
    }
}

/// More digits make no smaller number.
proof fn lemma_value_grows(s: Seq<char>, i: int)
    requires
        0 <= i <= s.len(),
        forall|j: int| 0 <= j < s.len() ==> '0' <= #[trigger] s[j] <= '9',
    ensures
        digits_value(s.take(i)) <= digits_value(s),
    decreases s.len() - i,
{
    if i == s.len() {
        assert(s.take(i) == s);
    } else {
        lemma_value_grows(s, i + 1);
        assert(s.take(i + 1).drop_last() == s.take(i));
        assert(s.take(i + 1).last() == s[i]);
    }
}

/// The number that `s` writes in decimal.
pub fn parse_u64(s: &str) -> (r: Option<u64>)
    ensures
        match r {
            Some(n) => parsed_u64(s@) == Some(n as nat),
            None => parsed_u64(s@) is None,
        },
{
    let v = text::chars_of(s);
    let start: usize = if v.len() > 0 && v[0] == '+' { 1 } else { 0 };
    let digits = slice_subrange(v.as_slice(), start, v.len());
    let ghost d = digits@;
    assert(start == 0 ==> d == s@);
    assert(start == 1 ==> d == s@.skip(1));
    if digits.len() == 0 {
        return None;
    }
    let mut i: usize = 0;
    while i < digits.len()
        invariant
            i <= digits.len(),
            d == digits@,
            parsed_u64(s@) == (if all_digits(d) && digits_value(d) <= u64::MAX {
                Some(digits_value(d))
            } else {
                None
            }),
            forall|j: int| 0 <= j < i ==> '0' <= #[trigger] d[j] <= '9',
        decreases digits.len() - i,
    {
        if !('0' <= digits[i] && digits[i] <= '9') {
            assert(!('0' <= d[i as int] <= '9'));
            return None;
        }
        i += 1;
    }
    let mut n: u64 = 0;
    i = 0;
    assert(d.take(0).len() == 0);
    while i < digits.len()
        invariant
            i <= digits.len(),
            d == digits@,
            parsed_u64(s@) == (if all_digits(d) && digits_value(d) <= u64::MAX {
                Some(digits_value(d))
            } else {
                None
            }),
            forall|j: int| 0 <= j < d.len() ==> '0' <= #[trigger] d[j] <= '9',
            n == digits_value(d.take(i as int)),
        decreases digits.len() - i,
    {
        let c: u64 = (digits[i] as u32 - 48) as u64;
        proof {
            assert(d.take(i + 1).drop_last() == d.take(i as int));
            assert(d.take(i + 1).last() == d[i as int]);
            lemma_value_grows(d, i + 1);
        }
        if n > (u64::MAX - c) / 10 {
            return None;
        }
        n = n * 10 + c;
        i += 1;
    }
    assert(d.take(d.len() as int) == d);
    Some(n)
}

/// What an argument says, trimmed; nothing where there is none.
pub open spec fn trimmed_arg(arg: Option<Seq<char>>) -> Seq<char> {
    match arg {
        Some(a) => text::trim(a),
        None => Seq::empty(),
    }
}

/// What an argument says, trimmed.
fn trim_arg(arg: Option<&str>) -> (r: String)
    ensures
        r@ == trimmed_arg(text::opt_str(arg)),
{
    match arg {
        Some(a) => text::trimmed(a),
        None => String::new(),
    }
}

/// The answer to `/cancel`.
pub open spec fn cancel_text(id: Option<nat>, was_active: bool) -> Seq<char> {
    match id {
        Some(n) => if was_active {
            "Cancelled job `"@ + text::decimal(n) + "`."@
        } else {
            "No active job `"@ + text::decimal(n) + "`. Try `/jobs`."@
        },
        None => "Usage: `/cancel <id>` (see `/jobs`)."@,
    }
}

/// The model of a profile, with the number of its fallbacks where it has any.
pub open spec fn model_text(chain: Seq<llm::Backend>) -> Seq<char> {
    if chain.len() > 1 {
        chain[0].model_view() + " (+"@ + text::decimal((chain.len() - 1) as nat) + " fallback)"@
    } else {
        chain[0].model_view()
    }
}

/// The model of a profile.
fn describe_model(p: &ProfileLlm) -> (r: String)
    ensures
        r@ == model_text(p@),
{
    let mut out = p.model().to_owned();
    let n = p.fallback_count();
    if n > 0 {
        out.append(" (+");
        text::push_decimal(&mut out, n as u64);
        out.append(" fallback)");
    }
    out
}

/// The counts of `/status` that are read from outside of the room's own settings.
pub struct StatusCounts {
    pub uptime_secs: nat,
    pub history_len: nat,
    pub global_tokens: nat,
    pub room_tokens: nat,
    pub mcp_servers: nat,
    pub mcp_tools: nat,
    pub requests: nat,
    pub errors: nat,
    pub avg_latency_ms: nat,
    pub jobs: nat,
}

/// The answer to `/status`.
pub open spec fn status_text(profile: Seq<char>, model: Seq<char>, c: StatusCounts) -> Seq<char> {
    "**Roger status**\nUptime: "@ + text::decimal(c.uptime_secs / 3600) + "h "@ + text::decimal(
        c.uptime_secs % 3600 / 60,
    ) + "m "@ + text::decimal(c.uptime_secs % 60) + "s\nProfile: "@ + profile + " ("@ + model
        + ")\nHistory: "@ + text::decimal(c.history_len) + " messages (this room)\nMemory: "@
        + text::decimal(c.global_tokens) + "t global, "@ + text::decimal(c.room_tokens)
        + "t this room\nMCP: "@ + text::decimal(c.mcp_servers) + " server(s), "@ + text::decimal(
        c.mcp_tools,
    ) + " tool(s)\nRequests: "@ + text::decimal(c.requests) + " ("@ + text::decimal(c.errors)
        + " errors), avg "@ + text::decimal(c.avg_latency_ms) + "ms\nActive jobs: "@
        + text::decimal(c.jobs)
}

/// A job as a line.
pub open spec fn job_line(job: (u64, workers::JobHandle), now_ms: u64) -> Seq<char> {
    "`"@ + text::decimal(job.0 as nat) + "` — "@ + job.1.profile@ + " ("@ + job.1.model@ + "), "@
        + text::decimal(
        if now_ms >= job.1.started_ms {
            ((now_ms - job.1.started_ms) / 1000) as nat
        } else {
            0
        },
    ) + "s\n"@
}

/// The jobs, a line each.
pub open spec fn job_lines(jobs: Seq<(u64, workers::JobHandle)>, now_ms: u64) -> Seq<char>
    decreases jobs.len(),
{
    if jobs.len() == 0 {
        Seq::empty()
    } else {
        job_lines(jobs.drop_last(), now_ms) + job_line(jobs.last(), now_ms)
    }
}

/// The answer to `/jobs`.
pub open spec fn jobs_text(jobs: Seq<(u64, workers::JobHandle)>, now_ms: u64) -> Seq<char> {
    if jobs.len() == 0 {
        "No active background jobs."@
    } else {
        "**Active jobs**\n"@ + job_lines(jobs, now_ms) + "`/cancel <id>` to stop one."@
    }
}

/// A job as a line.
fn line_of(j: &JobInfo) -> (r: String)
    ensures
        forall|job: (u64, workers::JobHandle), now_ms: u64|
            workers::is_info(*j, job, now_ms) ==> r@ == #[trigger] job_line(job, now_ms),
{
    let mut out = "`".to_owned();
    text::push_decimal(&mut out, j.id);
    out.append("` — ");
    out.append(j.profile.as_str());
    out.append(" (");
    out.append(j.model.as_str());
    out.append("), ");
    text::push_decimal(&mut out, j.elapsed_secs);
    out.append("s\n");
    out
}

/// The answer to `/jobs`.
fn describe_jobs(w: &Workers, now_ms: u64) -> (r: String)
    ensures
        r@ == jobs_text(w@.jobs, now_ms),
{
    let jobs = w.list(now_ms);
    if jobs.len() == 0 {
        return "No active background jobs.".to_owned();
    }
    let mut out = "**Active jobs**\n".to_owned();
    let ghost head = out@;
    let ghost all = w@.jobs;
    let mut i: usize = 0;
    assert(out@ =~= head + job_lines(all.take(0), now_ms));
    while i < jobs.len()
        invariant
            i <= jobs.len(),
            jobs@.len() == all.len(),
            forall|k: int|
                0 <= k < jobs@.len() ==> workers::is_info(#[trigger] jobs@[k], all[k], now_ms),
            out@ == head + job_lines(all.take(i as int), now_ms),
        decreases jobs.len() - i,
    {
        let line = line_of(&jobs[i]);
        out.append(line.as_str());
        proof {
            assert(workers::is_info(jobs@[i as int], all[i as int], now_ms));
            assert(line@ == job_line(all[i as int], now_ms));
            assert(all.take(i + 1).drop_last() == all.take(i as int));
            assert(all.take(i + 1).last() == all[i as int]);
            assert(out@ =~= head + job_lines(all.take(i + 1), now_ms));
        }
        i += 1;
    }
    assert(all.take(all.len() as int) == all);
    out.append("`/cancel <id>` to stop one.");
    out
}

/// The names, each in backticks.
pub open spec fn quoted(names: Seq<Seq<char>>) -> Seq<Seq<char>> {
    names.map_values(|n: Seq<char>| "`"@ + n + "`"@)
}

/// The names, each in backticks.
fn quote_all(names: &[String]) -> (r: Vec<String>)
    ensures
        text::views(r@) == quoted(text::views(names@)),
{
    let mut out: Vec<String> = Vec::new();
    let ghost all = quoted(text::views(names@));
    let mut i: usize = 0;
    assert(text::views(out@) =~= all.take(0));
    while i < names.len()
        invariant
            i <= names.len(),
            all == quoted(text::views(names@)),
            text::views(out@) == all.take(i as int),
        decreases names.len() - i,
    {
        let mut q = "`".to_owned();
        q.append(names[i].as_str());
        q.append("`");
        let ghost before = out@;
        let ghost qv = q@;
        out.push(q);
        assert(text::views(out@) =~= text::views(before).push(qv));
        assert(all.take(i + 1) =~= all.take(i as int).push(all[i as int]));
        i += 1;
    }
    assert(all.take(all.len() as int) =~= all);
    out
}

/// Whether an argument of `/model` drops the override.
pub open spec fn is_reset(arg: Seq<char>) -> bool {
    arg == "reset"@ || arg == "default"@
}

/// The overrides after `/model`.
pub open spec fn overrides_after(
    overrides: Map<Seq<char>, Seq<char>>,
    llms: Set<Seq<char>>,
    room_id: Seq<char>,
    arg: Seq<char>,
) -> Map<Seq<char>, Seq<char>> {
    if arg.len() == 0 {
        overrides
    } else if is_reset(arg) {
        overrides.remove(room_id)
    } else if llms.contains(arg) {
        overrides.insert(room_id, arg)
    } else {
        overrides
    }
}

/// Whether `/model` with this argument changes, and so saves, the overrides.
pub open spec fn model_saves(llms: Set<Seq<char>>, arg: Seq<char>) -> bool {
    arg.len() > 0 && (is_reset(arg) || llms.contains(arg))
}

/// The answer to `/model`: `asked` is the profile that the room asks for now, `used` the one it gets
/// and `model` its model.
pub open spec fn model_reply(
    llms: Set<Seq<char>>,
    arg: Seq<char>,
    asked: Seq<char>,
    used: Seq<char>,
    model: Seq<char>,
) -> Seq<char> {
    if arg.len() == 0 {
        "Current profile: `"@ + asked + "`\nAvailable: "@ + text::join(
            quoted(names::key_list(llms)),
            ", "@,
        ) + "\n`/model <name>` to switch · `/model reset` to revert to default"@
    } else if is_reset(arg) {
        "Reset to default profile: `"@ + used + "` ("@ + model + ")"@
    } else if llms.contains(arg) {
        "Switched to profile `"@ + used + "` ("@ + model + ")"@
    } else {
        "Unknown profile `"@ + arg + "`. Available: "@ + text::join(names::key_list(llms), ", "@)
    }
}

/// What `/model` leaves as it is: everything but the overrides and their file.
pub open spec fn same_but_overrides(before: BotCtx, after: BotCtx) -> bool {
    &&& after.allowed_rooms == before.allowed_rooms
    &&& after.bot_user_id == before.bot_user_id
    &&& after.bot_localpart == before.bot_localpart
    &&& after.history == before.history
    &&& after.metrics == before.metrics
    &&& after.tool_executor == before.tool_executor
    &&& after.workers == before.workers
    &&& after.memory == before.memory
    &&& after.state == (ReloadableState {
        room_profiles: after.state.room_profiles,
        ..before.state
    })
}

impl BotCtx {
    /// The overrides, by their texts.
    pub open spec fn overrides(self) -> Map<Seq<char>, Seq<char>> {
        json::text_map(self.state.room_profiles@)
    }

    /// `/model` — show or switch the LLM profile for this room. Persists overrides.
    pub fn handle_model_command(&mut self, arg: Option<&str>, room_id: &str) -> (r: CommandReply)
        requires
            old(self).state.llms@.contains_key("chat"@),
        ensures
            ({
                let a = trimmed_arg(text::opt_str(arg));
                let llms = old(self).state.llms@;
                let used = final(self).state.profile_in_use(room_id@);
                &&& same_but_overrides(*old(self), *final(self))
                &&& final(self).overrides() == overrides_after(
                    old(self).overrides(),
                    llms.dom(),
                    room_id@,
                    a,
                )
                &&& final(self).room_profiles.path_view() == old(self).room_profiles.path_view()
                &&& final(self).room_profiles.file_view() == (if model_saves(llms.dom(), a) {
                    Some(json::string_map_json(final(self).overrides()))
                } else {
                    old(self).room_profiles.file_view()
                })
                &&& model_saves(llms.dom(), a) ==> crate::room_profiles::stored_map(
                    final(self).room_profiles.file_view(),
                ) == final(self).overrides()
                &&& r.effect == (if model_saves(llms.dom(), a) {
                    Effect::Profiles
                } else {
                    Effect::Nothing
                })
                &&& llms.contains_key(used)
                &&& r.text@ == model_reply(
                    llms.dom(),
                    a,
                    state::profile_name(
                        final(self).state.room_profiles@,
                        final(self).state.room_configs@,
                        room_id@,
                    ),
                    used,
                    llms[used]@[0].model_view(),
                )
            }),
    {
        let arg = trim_arg(arg);
        let arg_len = text::chars_of(arg.as_str()).len();
        if arg_len == 0 {
            let current = self.state.profile_name_for_room(room_id);
            let keys = self.state.llms.keys();
            let listed = quote_all(keys.as_slice());
            let list = text::joined(listed.as_slice(), ", ");
            let mut out = "Current profile: `".to_owned();
            out.append(current.as_str());
            out.append("`\nAvailable: ");
            out.append(list.as_str());
            out.append("\n`/model <name>` to switch · `/model reset` to revert to default");
            return CommandReply { text: out, effect: Effect::Nothing };
        }
        let reset = text::same(arg.as_str(), "reset") || text::same(arg.as_str(), "default");
        let known = self.state.llms.contains_key(arg.as_str());
        if !reset && !known {
            let keys = self.state.llms.keys();
            let list = text::joined(keys.as_slice(), ", ");
            let mut out = "Unknown profile `".to_owned();
            out.append(arg.as_str());
            out.append("`. Available: ");
            out.append(list.as_str());
            return CommandReply { text: out, effect: Effect::Nothing };
        }
        let mut overrides = self.state.room_profiles.copied();
        if reset {
            let _ = overrides.remove(room_id);
            assert(json::text_map(overrides@) =~= self.overrides().remove(room_id@));
        } else {
            overrides.insert(room_id.to_owned(), arg.clone());
            assert(json::text_map(overrides@) =~= self.overrides().insert(room_id@, arg@));
        }
        self.room_profiles.save(&overrides);
        self.state.room_profiles = overrides;
        let (client, profile) = self.state.llm_for_room(room_id);
        let mut out = if reset {
            "Reset to default profile: `".to_owned()
        } else {
            "Switched to profile `".to_owned()
        };
        out.append(profile.as_str());
        out.append("` (");
        out.append(client.model());
        out.append(")");
        CommandReply { text: out, effect: Effect::Profiles }
    }

    /// The answer to `/status`.
    fn describe_status(&self, room_id: &str, uptime_secs: u64) -> (r: String)
        requires
            self.state.llms@.contains_key("chat"@),
        ensures
            r@ == self.status_view(room_id@, uptime_secs),
    {
        let len = self.history.windowed(room_id, 100).len();
        let (client, profile) = self.state.llm_for_room(room_id);
        let snap = self.metrics.snapshot();
        let model = describe_model(client);
        let (servers, tools) = self.tool_executor.mcp_summary();
        let mut out = "**Roger status**\nUptime: ".to_owned();
        text::push_decimal(&mut out, uptime_secs / 3600);
        out.append("h ");
        text::push_decimal(&mut out, uptime_secs % 3600 / 60);
        out.append("m ");
        text::push_decimal(&mut out, uptime_secs % 60);
        out.append("s\nProfile: ");
        out.append(profile.as_str());
        out.append(" (");
        out.append(model.as_str());
        out.append(")\nHistory: ");
        text::push_decimal(&mut out, len as u64);
        out.append(" messages (this room)\nMemory: ");
        text::push_decimal(&mut out, self.memory.global_tokens() as u64);
        out.append("t global, ");
        text::push_decimal(&mut out, self.memory.room_tokens(room_id) as u64);
        out.append("t this room\nMCP: ");
        text::push_decimal(&mut out, servers as u64);
        out.append(" server(s), ");
        text::push_decimal(&mut out, tools as u64);
        out.append(" tool(s)\nRequests: ");
        text::push_decimal(&mut out, snap.requests);
        out.append(" (");
        text::push_decimal(&mut out, snap.errors);
        out.append(" errors), avg ");
        text::push_decimal(&mut out, snap.avg_latency_ms);
        out.append("ms\nActive jobs: ");
        text::push_decimal(&mut out, self.workers.count() as u64);
        out
    }

    /// The counts of `/status` for a room.
    pub open spec fn counts(self, room_id: Seq<char>, uptime_secs: u64) -> StatusCounts {
        let len = self.history@.messages(room_id).len();
        StatusCounts {
            uptime_secs: uptime_secs as nat,
            history_len: if len <= 100 {
                len
            } else {
                100
            },
            global_tokens: memory::memory_tokens(self.memory@.read(self.memory@.global_path)),
            room_tokens: memory::memory_tokens(
                self.memory@.read(self.memory@.room_path(room_id)),
            ),
            mcp_servers: match self.tool_executor@.mcp {
                Some(m) => m.servers.len(),
                None => 0,
            },
            mcp_tools: match self.tool_executor@.mcp {
                Some(m) => m.tools.len(),
                None => 0,
            },
            requests: self.metrics@.requests,
            errors: self.metrics@.errors,
            avg_latency_ms: if self.metrics@.requests == 0 {
                0
            } else {
                self.metrics@.latency_ms / self.metrics@.requests
            },
            jobs: self.workers@.jobs.len(),
        }
    }

    /// The answer to `/status`.
    pub open spec fn status_view(self, room_id: Seq<char>, uptime_secs: u64) -> Seq<char> {
        let used = self.state.profile_in_use(room_id);
        status_text(used, model_text(self.state.llms@[used]@), self.counts(room_id, uptime_secs))
    }

    /// Runs a slash command. `cmd` is its first word in lower case, `word` as it was written, and
    /// `arg` what stands behind it.
    #[verifier::rlimit(40)]
    pub fn run_command(
        &mut self,
        cmd: &str,
        word: &str,
        arg: Option<&str>,
        room_id: &str,
        now_ms: u64,
        uptime_secs: u64,
    ) -> (r: CommandReply)
        requires
            old(self).state.llms@.contains_key("chat"@),
        ensures
            is_run(
                *old(self),
                *final(self),
                r,
                cmd@,
                word@,
                text::opt_str(arg),
                room_id@,
                now_ms,
                uptime_secs,
            ),
    {
        proof {
            lemma_commands_differ();
        }
        if text::same(cmd, "/help") {
            let help = "**Roger commands**\n`/help` — show this list\n`/clear` — wipe conversation history for this room\n`/forget` — wipe this room's durable memory (`/forget global` for shared)\n`/status` — show uptime, model, and history stats\n`/model [name]` — show/switch this room's LLM profile (`/model reset` to revert)\n`/jobs` — list active background jobs\n`/cancel <id>` — cancel a running background job";
            return CommandReply { text: help.to_owned(), effect: Effect::Nothing };
        }
        if text::same(cmd, "/clear") {
            self.history.clear(room_id);
            return CommandReply {
                text: "History cleared.".to_owned(),
                effect: Effect::History,
            };
        }
        if text::same(cmd, "/status") {
            return CommandReply {
                text: self.describe_status(room_id, uptime_secs),
                effect: Effect::Nothing,
            };
        }
        if text::same(cmd, "/jobs") {
            return CommandReply {
                text: describe_jobs(&self.workers, now_ms),
                effect: Effect::Nothing,
            };
        }
        if text::same(cmd, "/cancel") {
            let a = trim_arg(arg);
            return match parse_u64(a.as_str()) {
                Some(id) => {
                    let was_active = self.workers.cancel(id);
                    let mut out = if was_active {
                        "Cancelled job `".to_owned()
                    } else {
                        "No active job `".to_owned()
                    };
                    text::push_decimal(&mut out, id);
                    if was_active {
                        out.append("`.");
                    } else {
                        out.append("`. Try `/jobs`.");
                    }
                    CommandReply {
                        text: out,
                        effect: if was_active {
                            Effect::Abort(id)
                        } else {
                            Effect::Nothing
                        },
                    }
                },
                None => CommandReply {
                    text: "Usage: `/cancel <id>` (see `/jobs`).".to_owned(),
                    effect: Effect::Nothing,
                },
            };
        }
        if text::same(cmd, "/forget") {
            let scope = trim_arg(arg);
            if text::same(scope.as_str(), "global") {
                self.memory.clear_global();
                return CommandReply {
                    text: "Global memory cleared.".to_owned(),
                    effect: Effect::GlobalMemory,
                };
            }
            self.memory.clear_room(room_id);
            self.memory.clear_tldr(room_id);
            return CommandReply {
                text: "This room's memory cleared.".to_owned(),
                effect: Effect::RoomMemory,
            };
        }
        if text::same(cmd, "/model") {
            return self.handle_model_command(arg, room_id);
        }
        let mut out = "Unknown command `".to_owned();
        out.append(word);
        out.append("`. Try `/help`.");
        CommandReply { text: out, effect: Effect::Nothing }
    }

    /// Returns Some(reply) if the message is a slash command, None otherwise.
    pub fn handle_slash_command(
        &mut self,
        body: &str,
        room_id: &str,
        now_ms: u64,
        uptime_secs: u64,
    ) -> (r: Option<CommandReply>)
        requires
            old(self).state.llms@.contains_key("chat"@),
        ensures
            match (command_parts(body@), r) {
                (None, None) => *final(self) == *old(self),
                (Some((word, arg)), Some(reply)) => is_run(
                    *old(self),
                    *final(self),
                    reply,
                    text::lowercase(word),
                    word,
                    arg,
                    room_id@,
                    now_ms,
                    uptime_secs,
                ),
                _ => false,
            },
    {
        match split_command(body) {
            None => None,
            Some((word, arg)) => {
                let cmd = word.to_lowercase();
                let rest = match &arg {
                    Some(a) => Some(a.as_str()),
                    None => None,
                };
                Some(
                    self.run_command(
                        cmd.as_str(),
                        word.as_str(),
                        rest,
                        room_id,
                        now_ms,
                        uptime_secs,
                    ),
                )
            },
        }
    }
}

/// No two commands are the same.
proof fn lemma_commands_differ()
    ensures
        "/help"@ != "/clear"@,
        "/help"@ != "/status"@,
        "/help"@ != "/jobs"@,
        "/help"@ != "/cancel"@,
        "/help"@ != "/forget"@,
        "/help"@ != "/model"@,
        "/clear"@ != "/status"@,
        "/clear"@ != "/jobs"@,
        "/clear"@ != "/cancel"@,
        "/clear"@ != "/forget"@,
        "/clear"@ != "/model"@,
        "/status"@ != "/jobs"@,
        "/status"@ != "/cancel"@,
        "/status"@ != "/forget"@,
        "/status"@ != "/model"@,
        "/jobs"@ != "/cancel"@,
        "/jobs"@ != "/forget"@,
        "/jobs"@ != "/model"@,
        "/cancel"@ != "/forget"@,
        "/cancel"@ != "/model"@,
        "/forget"@ != "/model"@,
{
    reveal_strlit("/help");
    reveal_strlit("/clear");
    reveal_strlit("/status");
    reveal_strlit("/jobs");
    reveal_strlit("/cancel");
    reveal_strlit("/forget");
    reveal_strlit("/model");
    assert("/help"@[1] == 'h');
    assert("/clear"@[1] == 'c' && "/clear"@.len() == 6);
    assert("/status"@[1] == 's');
    assert("/jobs"@[1] == 'j');
    assert("/cancel"@[1] == 'c' && "/cancel"@.len() == 7);
    assert("/forget"@[1] == 'f');
    assert("/model"@[1] == 'm');
}

/// `after` is `before` with another history, memory or job registry; everything else is the same.
pub open spec fn same_but_stores(before: BotCtx, after: BotCtx) -> bool {
    &&& after.allowed_rooms == before.allowed_rooms
    &&& after.bot_user_id == before.bot_user_id
    &&& after.bot_localpart == before.bot_localpart
    &&& after.state == before.state
    &&& after.room_profiles == before.room_profiles
    &&& after.metrics == before.metrics
    &&& after.tool_executor == before.tool_executor
}

/// What a command other than `/model` does and answers.
pub open spec fn is_plain_run(
    before: BotCtx,
    after: BotCtx,
    r: CommandReply,
    cmd: Seq<char>,
    word: Seq<char>,
    arg: Option<Seq<char>>,
    room_id: Seq<char>,
    now_ms: u64,
    uptime_secs: u64,
) -> bool {
    let h = before.history@;
    let m = before.memory@;
    let id = parsed_u64(trimmed_arg(arg));
    let jobs = before.workers@.jobs;
    let was_active = id matches Some(n) && workers::active(jobs, n as u64);
    &&& same_but_stores(before, after)
    &&& after.history@ == (if cmd == "/clear"@ {
        history::HistoryView { files: h.files.remove(h.room_path(room_id)), ..h }
    } else {
        h
    })
    &&& after.memory@ == (if cmd != "/forget"@ {
        m
    } else if trimmed_arg(arg) == "global"@ {
        m.removed(m.global_path)
    } else {
        m.removed(m.room_path(room_id)).removed(m.tldr_path(room_id))
    })
    &&& after.workers@ == (if cmd == "/cancel"@ && id is Some {
        workers::WorkersView { jobs: workers::without(jobs, id->Some_0 as u64), ..before.workers@ }
    } else {
        before.workers@
    })
    &&& r.effect == (if cmd == "/clear"@ {
        Effect::History
    } else if cmd == "/forget"@ {
        if trimmed_arg(arg) == "global"@ {
            Effect::GlobalMemory
        } else {
            Effect::RoomMemory
        }
    } else if cmd == "/cancel"@ && was_active {
        Effect::Abort(id->Some_0 as u64)
    } else {
        Effect::Nothing
    })
    &&& r.text@ == (if cmd == "/help"@ {
        help_text()
    } else if cmd == "/clear"@ {
        "History cleared."@
    } else if cmd == "/status"@ {
        before.status_view(room_id, uptime_secs)
    } else if cmd == "/jobs"@ {
        jobs_text(jobs, now_ms)
    } else if cmd == "/cancel"@ {
        cancel_text(id, was_active)
    } else if cmd == "/forget"@ {
        if trimmed_arg(arg) == "global"@ {
            "Global memory cleared."@
        } else {
            "This room's memory cleared."@
        }
    } else {
        "Unknown command `"@ + word + "`. Try `/help`."@
    })
}

/// What a command does and answers: how `after` follows from `before`, and the reply.
pub open spec fn is_run(
    before: BotCtx,
    after: BotCtx,
    r: CommandReply,
    cmd: Seq<char>,
    word: Seq<char>,
    arg: Option<Seq<char>>,
    room_id: Seq<char>,
    now_ms: u64,
    uptime_secs: u64,
) -> bool {
    if cmd == "/model"@ {
        let a = trimmed_arg(arg);
        let llms = before.state.llms@;
        let used = after.state.profile_in_use(room_id);
        &&& same_but_overrides(before, after)
        &&& after.overrides() == overrides_after(before.overrides(), llms.dom(), room_id, a)
        &&& after.room_profiles.path_view() == before.room_profiles.path_view()
        &&& after.room_profiles.file_view() == (if model_saves(llms.dom(), a) {
            Some(json::string_map_json(after.overrides()))
        } else {
            before.room_profiles.file_view()
        })
        &&& r.effect == (if model_saves(llms.dom(), a) {
            Effect::Profiles
        } else {
            Effect::Nothing
        })
        &&& r.text@ == model_reply(
            llms.dom(),
            a,
            state::profile_name(
                after.state.room_profiles@,
                after.state.room_configs@,
                room_id,
            ),
            used,
            llms[used]@[0].model_view(),
        )
    } else {
        is_plain_run(before, after, r, cmd, word, arg, room_id, now_ms, uptime_secs)
    }
}

/// Memory survives `/clear`, which drops the conversation of its room and of no other.
pub proof fn law_memory_survives_clear(
    before: BotCtx,
    after: BotCtx,
    r: CommandReply,
    word: Seq<char>,
    arg: Option<Seq<char>>,
    room_id: Seq<char>,
    other: Seq<char>,
    now_ms: u64,
    uptime_secs: u64,
)
    requires
        is_run(before, after, r, "/clear"@, word, arg, room_id, now_ms, uptime_secs),
        paths::safe_room(other) != paths::safe_room(room_id),
    ensures
        after.memory@ == before.memory@,
        after.history@.messages(room_id).len() == 0,
        after.history@.messages(other) == before.history@.messages(other),
{
    lemma_commands_differ();
    reveal_strlit(".json");
    paths::law_rooms_share_a_file(before.history@.data_dir, other, room_id, ".json"@);
}

/// The conversation survives `/forget`, which drops the memory and the TLDR of its room, or the
/// global memory, and no other file.
pub proof fn law_history_survives_forget(
    before: BotCtx,
    after: BotCtx,
    r: CommandReply,
    word: Seq<char>,
    arg: Option<Seq<char>>,
    room_id: Seq<char>,
    path: Seq<char>,
    now_ms: u64,
    uptime_secs: u64,
)
    requires
        is_run(before, after, r, "/forget"@, word, arg, room_id, now_ms, uptime_secs),
    ensures
        after.history@ == before.history@,
        trimmed_arg(arg) == "global"@ ==> {
            &&& after.memory@.read(before.memory@.global_path).len() == 0
            &&& path != before.memory@.global_path ==> after.memory@.read(path)
                == before.memory@.read(path)
        },
        trimmed_arg(arg) != "global"@ ==> {
            &&& after.memory@.read(before.memory@.room_path(room_id)).len() == 0
            &&& after.memory@.read(before.memory@.tldr_path(room_id)).len() == 0
            &&& path != before.memory@.room_path(room_id) && path != before.memory@.tldr_path(
                room_id,
            ) ==> after.memory@.read(path) == before.memory@.read(path)
        },
{
    lemma_commands_differ();
}

/// After `/model` with the name of a built profile the room gets that profile; after a reset it
/// gets what its settings ask for; and no other room gets another profile than before.
pub proof fn law_model_switches_its_room(
    before: BotCtx,
    after: BotCtx,
    r: CommandReply,
    word: Seq<char>,
    arg: Option<Seq<char>>,
    room_id: Seq<char>,
    other: Seq<char>,
    now_ms: u64,
    uptime_secs: u64,
)
    requires
        is_run(before, after, r, "/model"@, word, arg, room_id, now_ms, uptime_secs),
        other != room_id,
    ensures
        after.state.profile_in_use(other) == before.state.profile_in_use(other),
        ({
            let a = trimmed_arg(arg);
            &&& a.len() > 0 && !is_reset(a) && before.state.llms@.contains_key(a)
                ==> after.state.profile_in_use(room_id) == a
            &&& a.len() > 0 && is_reset(a) ==> after.state.profile_in_use(room_id)
                == state::resolved(
                state::profile_name(Map::empty(), before.state.room_configs@, room_id),
                before.state.llms@,
            )
        }),
{
    let a = trimmed_arg(arg);
    let old_map = before.state.room_profiles@;
    let new_map = after.state.room_profiles@;
    assert(after.overrides().contains_key(other) == before.overrides().contains_key(other));
    assert(new_map.contains_key(other) == old_map.contains_key(other));
    if new_map.contains_key(other) {
        assert(after.overrides()[other] == before.overrides()[other]);
        assert(new_map[other]@ == old_map[other]@);
    }
    if a.len() > 0 && !is_reset(a) && before.state.llms@.contains_key(a) {
        assert(after.overrides().contains_key(room_id) && after.overrides()[room_id] == a);
        assert(new_map.contains_key(room_id) && new_map[room_id]@ == a);
    }
    if a.len() > 0 && is_reset(a) {
        assert(!after.overrides().contains_key(room_id));
        assert(!new_map.contains_key(room_id));
    }
}

/// A message mentions the bot where its id or its name stands anywhere in it behind an `@`, and not
/// where no `@` stands in it.
pub proof fn law_mentions_stand_anywhere(
    a: Seq<char>,
    b: Seq<char>,
    user_id: Seq<char>,
    localpart: Seq<char>,
    other: Seq<char>,
)
    requires
        !other.contains('@'),
    ensures
        mentions(a + "@"@ + user_id + b, user_id, localpart),
        mentions(a + "@"@ + localpart + b, user_id, localpart),
        !mentions(other, user_id, localpart),
{
    reveal_strlit("@");
    text::lemma_holds_the_middle(a, "@"@ + user_id, b);
    assert(a + ("@"@ + user_id) + b =~= a + "@"@ + user_id + b);
    text::lemma_holds_the_middle(a, "@"@ + localpart, b);
    assert(a + ("@"@ + localpart) + b =~= a + "@"@ + localpart + b);
    assert forall|i: int| !text::occurs_at(other, "@"@ + user_id, i) by {
        if text::occurs_at(other, "@"@ + user_id, i) {
            assert(other.subrange(i, i + 1 + user_id.len())[0] == other[i]);
            assert(other.contains('@'));
        }
    }
    assert forall|i: int| !text::occurs_at(other, "@"@ + localpart, i) by {
        if text::occurs_at(other, "@"@ + localpart, i) {
            assert(other.subrange(i, i + 1 + localpart.len())[0] == other[i]);
            assert(other.contains('@'));
        }
    }
}

/// A command is its word and all that stands behind the first space, whatever white space stands
/// around it; a message that does not start with a slash is none.
pub proof fn law_commands_are_split(
    a: Seq<char>,
    word: Seq<char>,
    arg: Seq<char>,
    b: Seq<char>,
    other: Seq<char>,
)
    requires
        forall|i: int| 0 <= i < a.len() ==> text::is_space(#[trigger] a[i]),
        forall|i: int| 0 <= i < b.len() ==> text::is_space(#[trigger] b[i]),
        word.len() > 0 && word[0] == '/',
        !word.contains(' '),
        !text::is_space(word.last()),
        arg.len() > 0 && !text::is_space(arg.last()),
        other.len() > 0 && other[0] != '/' && !text::is_space(other[0]) && !text::is_space(
            other.last(),
        ),
    ensures
        command_parts(a + word + b) == Some((word, None::<Seq<char>>)),
        command_parts(a + (word + seq![' '] + arg) + b) == Some((word, Some(arg))),
        command_parts(a + other + b) is None,
{
    reveal_strlit("/");
    let sep = seq![' '];
    text::law_trim_leaves_the_middle(a, word, b, text::Class::Space);
    text::law_trim_leaves_the_middle(a, other, b, text::Class::Space);
    assert(word.subrange(0, 1) =~= "/"@);
    assert(!text::contains(word, sep)) by {
        assert forall|j: int| !text::occurs_at(word, sep, j) by {
            if text::occurs_at(word, sep, j) {
                assert(word.subrange(j, j + 1)[0] == word[j]);
                assert(word.contains(' '));
            }
        }
    }
    text::lemma_find_none(word, sep);
    let full = word + sep + arg;
    assert(full[0] == word[0]);
    assert(full.last() == arg.last());
    text::law_trim_leaves_the_middle(a, full, b, text::Class::Space);
    assert(full.subrange(0, 1) =~= "/"@);
    assert(text::ends_first(word, sep)) by {
        assert forall|j: int| 0 <= j < word.len() implies !text::occurs_at(word + sep, sep, j) by {
            if text::occurs_at(word + sep, sep, j) {
                assert((word + sep).subrange(j, j + 1)[0] == word[j]);
                assert(word.contains(' '));
            }
        }
    }
    text::lemma_find_behind(word, sep, arg);
    assert(full.take(word.len() as int) =~= word);
    assert(full.skip((word.len() + 1) as int) =~= arg);
    if text::starts_with(other, "/"@) {
        assert(other.subrange(0, 1)[0] == other[0]);
    }
}

/// A number that is written in decimal reads back, with a plus sign or without; a text with any
/// other character in it is no number.
pub proof fn law_numbers_read_back(n: nat, s: Seq<char>, i: int)
    requires
        n <= u64::MAX,
        0 < i < s.len(),
        !('0' <= s[i] <= '9'),
    ensures
        parsed_u64(text::decimal(n)) == Some(n),
        parsed_u64(seq!['+'] + text::decimal(n)) == Some(n),
        parsed_u64(s) is None,
        parsed_u64(Seq::empty()) is None,
{
    lemma_decimal_value(n);
    let d = text::decimal(n);
    assert('0' <= d[0] <= '9');
    let plus = seq!['+'] + d;
    assert(plus.skip(1) =~= d);
    if s[0] == '+' {
        assert(s.skip(1)[i - 1] == s[i]);
    }
}

/// The digits of a number have its value, and the first is no zero unless it is the only one.
proof fn lemma_decimal_value(n: nat)
    ensures
        all_digits(text::decimal(n)),
        digits_value(text::decimal(n)) == n,
        n > 0 ==> text::decimal(n)[0] != '0',
        n == 0 ==> text::decimal(n).len() == 1,
    decreases n,
{
    let d = text::decimal(n);
    if n < 10 {
        assert(d.drop_last() =~= Seq::<char>::empty());
        assert(digits_value(d.drop_last()) == 0);
        assert(d[0] as nat == 48 + n);
    } else {
        lemma_decimal_value(n / 10);
        let front = text::decimal(n / 10);
        assert(d.drop_last() =~= front);
        assert(d.last() == text::digit(n % 10));
        assert(d.last() as nat == 48 + n % 10);
        assert(d[0] == front[0]);
        assert forall|i: int| 0 <= i < d.len() implies '0' <= #[trigger] d[i] <= '9' by {
            if i < front.len() {
                assert(d[i] == front[i]);
            }
        }
    }
}

/// Numbers are written in decimal without a zero in front, and different numbers differently.
pub proof fn law_numbers_are_written_in_decimal(n: nat, m: nat)
    ensures
        digits_value(text::decimal(n)) == n,
        n > 0 ==> text::decimal(n)[0] != '0',
        forall|i: int| 0 <= i < text::decimal(n).len() ==> '0' <= #[trigger] text::decimal(n)[i] <= '9',
        n != m ==> text::decimal(n) != text::decimal(m),
{
    lemma_decimal_value(n);
    lemma_decimal_value(m);
}

/// Every active job is shown with its id, its profile, its model and its age in full seconds.
#[verifier::rlimit(40)]
pub proof fn law_every_job_is_shown(jobs: Seq<(u64, workers::JobHandle)>, now_ms: u64, i: int)
    requires
        0 <= i < jobs.len(),
        now_ms >= jobs[i].1.started_ms,
    ensures
        text::contains(
            jobs_text(jobs, now_ms),
            "`"@ + text::decimal(jobs[i].0 as nat) + "` — "@ + jobs[i].1.profile@ + " ("@
                + jobs[i].1.model@ + "), "@ + text::decimal(
                ((now_ms - jobs[i].1.started_ms) / 1000) as nat,
            ) + "s\n"@,
        ),
        jobs_text(Seq::empty(), now_ms) == "No active background jobs."@,
{
    lemma_job_is_listed(jobs, now_ms, i);
    let line = job_line(jobs[i], now_ms);
    text::lemma_holds_what_a_part_holds(
        "**Active jobs**\n"@,
        job_lines(jobs, now_ms),
        "`/cancel <id>` to stop one."@,
        line,
    );
}

proof fn lemma_job_is_listed(jobs: Seq<(u64, workers::JobHandle)>, now_ms: u64, i: int)
    requires
        0 <= i < jobs.len(),
    ensures
        text::contains(job_lines(jobs, now_ms), job_line(jobs[i], now_ms)),
    decreases jobs.len(),
{
    let none = Seq::<char>::empty();
    let before = job_lines(jobs.drop_last(), now_ms);
    let last = job_line(jobs.last(), now_ms);
    if i == jobs.len() - 1 {
        text::lemma_holds_the_middle(before, last, none);
        assert(before + last + none =~= before + last);
    } else {
        lemma_job_is_listed(jobs.drop_last(), now_ms, i);
        text::lemma_holds_what_a_part_holds(none, before, last, job_line(jobs[i], now_ms));
        assert(none + before + last =~= before + last);
    }
}

/// `/model` without an argument shows the room's profile and every profile that was built; with an
/// unknown name it lists them too, and changes nothing.
#[verifier::rlimit(40)]
pub proof fn law_model_lists_every_profile(
    llms: Set<Seq<char>>,
    arg: Seq<char>,
    asked: Seq<char>,
    used: Seq<char>,
    model: Seq<char>,
    name: Seq<char>,
    listed: Seq<Seq<char>>,
    overrides: Map<Seq<char>, Seq<char>>,
    room_id: Seq<char>,
)
    requires
        names::lists_keys(listed, llms),
        llms.contains(name),
        arg.len() > 0,
        arg != "reset"@,
        arg != "default"@,
        !llms.contains(arg),
    ensures
        text::contains(model_reply(llms, Seq::empty(), asked, used, model), "`"@ + name + "`"@),
        text::contains(model_reply(llms, Seq::empty(), asked, used, model), "`"@ + asked + "`"@),
        text::contains(model_reply(llms, arg, asked, used, model), name),
        text::contains(model_reply(llms, arg, asked, used, model), "`"@ + arg + "`"@),
        overrides_after(overrides, llms, room_id, arg) == overrides,
        overrides_after(overrides, llms, room_id, Seq::empty()) == overrides,
        !model_saves(llms, arg),
        !model_saves(llms, Seq::empty()),
{
    let none = Seq::<char>::empty();
    let ks = names::key_list(llms);
    names::lemma_key_list_unique(ks, listed, llms);
    assert(ks.contains(name));
    let k = choose|k: int| 0 <= k < ks.len() && ks[k] == name;
    let qs = quoted(ks);
    assert(qs[k] == "`"@ + name + "`"@);
    text::lemma_join_holds_each(qs, ", "@, k);
    text::lemma_join_holds_each(ks, ", "@, k);
    reveal_strlit("`\nAvailable: ");
    reveal_strlit("`");
    reveal_strlit("\nAvailable: ");
    reveal_strlit("Current profile: `");
    reveal_strlit("Current profile: ");
    assert("Current profile: `"@ =~= "Current profile: "@ + "`"@);
    assert("`\nAvailable: "@ =~= "`"@ + "\nAvailable: "@);
    let tail = "\n`/model <name>` to switch · `/model reset` to revert to default"@;
    let front = "Current profile: `"@ + asked + "`\nAvailable: "@;
    let shown = model_reply(llms, none, asked, used, model);
    assert(shown =~= front + text::join(qs, ", "@) + tail);
    text::lemma_holds_what_a_part_holds(front, text::join(qs, ", "@), tail, qs[k]);
    assert(shown =~= "Current profile: "@ + ("`"@ + asked + "`"@) + ("\nAvailable: "@ + text::join(
        qs,
        ", "@,
    ) + tail));
    text::lemma_holds_the_middle(
        "Current profile: "@,
        "`"@ + asked + "`"@,
        "\nAvailable: "@ + text::join(qs, ", "@) + tail,
    );
    reveal_strlit("Unknown profile `");
    reveal_strlit("Unknown profile ");
    reveal_strlit("`. Available: ");
    reveal_strlit(". Available: ");
    assert("Unknown profile `"@ =~= "Unknown profile "@ + "`"@);
    assert("`. Available: "@ =~= "`"@ + ". Available: "@);
    let unknown = model_reply(llms, arg, asked, used, model);
    let head = "Unknown profile `"@ + arg + "`. Available: "@;
    assert(unknown =~= head + text::join(ks, ", "@) + none);
    text::lemma_holds_what_a_part_holds(head, text::join(ks, ", "@), none, name);
    assert(unknown =~= "Unknown profile "@ + ("`"@ + arg + "`"@) + (". Available: "@ + text::join(
        ks,
        ", "@,
    )));
    text::lemma_holds_the_middle(
        "Unknown profile "@,
        "`"@ + arg + "`"@,
        ". Available: "@ + text::join(ks, ", "@),
    );
}

/// A switch or a reset is kept, and the answer names the profile and the model that the room gets.
pub proof fn law_model_tells_what_the_room_gets(
    llms: Set<Seq<char>>,
    name: Seq<char>,
    asked: Seq<char>,
    used: Seq<char>,
    model: Seq<char>,
    overrides: Map<Seq<char>, Seq<char>>,
    room_id: Seq<char>,
)
    requires
        llms.contains(name),
        name.len() > 0,
        name != "reset"@,
        name != "default"@,
    ensures
        model_reply(llms, name, asked, used, model) == "Switched to profile `"@ + used + "` ("@
            + model + ")"@,
        model_reply(llms, "reset"@, asked, used, model) == "Reset to default profile: `"@ + used
            + "` ("@ + model + ")"@,
        model_reply(llms, "default"@, asked, used, model) == "Reset to default profile: `"@ + used
            + "` ("@ + model + ")"@,
        overrides_after(overrides, llms, room_id, name) == overrides.insert(room_id, name),
        overrides_after(overrides, llms, room_id, "reset"@) == overrides.remove(room_id),
        overrides_after(overrides, llms, room_id, "default"@) == overrides.remove(room_id),
        model_saves(llms, name),
        model_saves(llms, "reset"@),
        model_saves(llms, "default"@),
{
    reveal_strlit("reset");
    reveal_strlit("default");
}

/// `/cancel` with the id of an active job takes out that job and no other, and says so; with any
/// other number it says that there is none, and without a number how it is used. Neither changes
/// anything.
#[verifier::rlimit(40)]
pub proof fn law_cancel_takes_out_its_job(
    before: BotCtx,
    after: BotCtx,
    r: CommandReply,
    word: Seq<char>,
    arg: Option<Seq<char>>,
    n: u64,
    other: u64,
    room_id: Seq<char>,
    now_ms: u64,
    uptime_secs: u64,
)
    requires
        is_run(before, after, r, "/cancel"@, word, arg, room_id, now_ms, uptime_secs),
        workers::ids_rise(before.workers@.jobs, before.workers@.next_id),
        other != n,
    ensures
        arg is Some && text::trim(arg->Some_0) == text::decimal(n as nat) && workers::active(
            before.workers@.jobs,
            n,
        ) ==> {
            &&& !workers::active(after.workers@.jobs, n)
            &&& after.workers@.jobs.len() == before.workers@.jobs.len() - 1
            &&& workers::active(after.workers@.jobs, other) == workers::active(
                before.workers@.jobs,
                other,
            )
            &&& r.effect == Effect::Abort(n)
            &&& r.text@ == "Cancelled job `"@ + text::decimal(n as nat) + "`."@
        },
        arg is Some && text::trim(arg->Some_0) == text::decimal(n as nat) && !workers::active(
            before.workers@.jobs,
            n,
        ) ==> {
            &&& after.workers@ == before.workers@
            &&& r.effect == Effect::Nothing
            &&& r.text@ == "No active job `"@ + text::decimal(n as nat) + "`. Try `/jobs`."@
        },
        arg is None ==> {
            &&& after.workers@ == before.workers@
            &&& r.effect == Effect::Nothing
            &&& r.text@ == "Usage: `/cancel <id>` (see `/jobs`)."@
        },
        after.history@ == before.history@,
        after.memory@ == before.memory@,
{
    lemma_commands_differ();
    lemma_decimal_value(n as nat);
    workers::law_one_job_leaves(before.workers@.jobs, n, before.workers@.next_id);
    workers::law_only_the_job_leaves(before.workers@.jobs, n, other);
    let d = text::decimal(n as nat);
    assert('0' <= d[0] <= '9');
    assert(parsed_u64(d) == Some(n as nat));
    if arg is None {
        assert(parsed_u64(Seq::<char>::empty()) is None);
    }
}

/// `/clear` says what it did, and what has to be saved.
pub proof fn law_clear_and_forget_say_what_they_did(
    before: BotCtx,
    after: BotCtx,
    r: CommandReply,
    word: Seq<char>,
    arg: Option<Seq<char>>,
    room_id: Seq<char>,
    now_ms: u64,
    uptime_secs: u64,
)
    ensures
        is_run(before, after, r, "/clear"@, word, arg, room_id, now_ms, uptime_secs) ==> r.effect
            == Effect::History && r.text@ == "History cleared."@ && after.workers@
            == before.workers@,
        is_run(before, after, r, "/forget"@, word, arg, room_id, now_ms, uptime_secs) ==> {
            &&& after.workers@ == before.workers@
            &&& arg is Some && text::trim(arg->Some_0) == "global"@ ==> r.effect
                == Effect::GlobalMemory && r.text@ == "Global memory cleared."@
            &&& arg is None || text::trim(arg->Some_0) != "global"@ ==> r.effect
                == Effect::RoomMemory && r.text@ == "This room's memory cleared."@
        },
{
    lemma_commands_differ();
    reveal_strlit("global");
}

/// Commands that only tell something change nothing; an unknown one is told so, by the word that was
/// written.
pub proof fn law_questions_change_nothing(
    before: BotCtx,
    after: BotCtx,
    r: CommandReply,
    cmd: Seq<char>,
    word: Seq<char>,
    arg: Option<Seq<char>>,
    room_id: Seq<char>,
    now_ms: u64,
    uptime_secs: u64,
)
    requires
        is_run(before, after, r, cmd, word, arg, room_id, now_ms, uptime_secs),
        cmd != "/clear"@,
        cmd != "/forget"@,
        cmd != "/cancel"@,
        cmd != "/model"@,
    ensures
        after.history@ == before.history@,
        after.memory@ == before.memory@,
        after.workers@ == before.workers@,
        after.state == before.state,
        after.room_profiles == before.room_profiles,
        after.metrics == before.metrics,
        after.allowed_rooms == before.allowed_rooms,
        after.tool_executor == before.tool_executor,
        r.effect == Effect::Nothing,
        cmd == "/help"@ ==> r.text@ == help_text(),
        cmd == "/jobs"@ ==> r.text@ == jobs_text(before.workers@.jobs, now_ms),
        cmd == "/status"@ ==> r.text@ == before.status_view(room_id, uptime_secs),
        cmd != "/help"@ && cmd != "/jobs"@ && cmd != "/status"@ ==> r.text@ == "Unknown command `"@
            + word + "`. Try `/help`."@,
{
    lemma_commands_differ();
}

/// The status starts with the uptime in hours, minutes and seconds, the room's profile and model,
/// and the number of its messages.
#[verifier::rlimit(40)]
pub proof fn law_status_starts_with_the_room(profile: Seq<char>, model: Seq<char>, c: StatusCounts)
    ensures
        text::starts_with(
            status_text(profile, model, c),
            "**Roger status**\nUptime: "@ + text::decimal(c.uptime_secs / 3600) + "h "@
                + text::decimal(c.uptime_secs % 3600 / 60) + "m "@ + text::decimal(
                c.uptime_secs % 60,
            ) + "s\nProfile: "@ + profile + " ("@ + model + ")\nHistory: "@ + text::decimal(
                c.history_len,
            ) + " messages (this room)\nMemory: "@,
        ),
        c.uptime_secs / 3600 * 3600 + c.uptime_secs % 3600 / 60 * 60 + c.uptime_secs % 60
            == c.uptime_secs,
{
    let front = "**Roger status**\nUptime: "@ + text::decimal(c.uptime_secs / 3600) + "h "@
        + text::decimal(c.uptime_secs % 3600 / 60) + "m "@ + text::decimal(c.uptime_secs % 60)
        + "s\nProfile: "@ + profile + " ("@ + model + ")\nHistory: "@ + text::decimal(c.history_len)
        + " messages (this room)\nMemory: "@;
    let back = text::decimal(c.global_tokens) + "t global, "@ + text::decimal(c.room_tokens)
        + "t this room\nMCP: "@ + text::decimal(c.mcp_servers) + " server(s), "@ + text::decimal(
        c.mcp_tools,
    ) + " tool(s)\nRequests: "@ + text::decimal(c.requests) + " ("@ + text::decimal(c.errors)
        + " errors), avg "@ + text::decimal(c.avg_latency_ms) + "ms\nActive jobs: "@
        + text::decimal(c.jobs);
    lemma_status_halves(front, c);
    assert((front + back).subrange(0, front.len() as int) =~= front);
}

/// The status ends with the tokens of the memories, the connected servers and their tools, the
/// requests with their errors and their average latency, and the jobs.
#[verifier::rlimit(40)]
pub proof fn law_status_ends_with_the_counts(profile: Seq<char>, model: Seq<char>, c: StatusCounts)
    ensures
        exists|front: Seq<char>|
            status_text(profile, model, c) == #[trigger] (front + (text::decimal(c.global_tokens)
                + "t global, "@ + text::decimal(c.room_tokens) + "t this room\nMCP: "@
                + text::decimal(c.mcp_servers) + " server(s), "@ + text::decimal(c.mcp_tools)
                + " tool(s)\nRequests: "@ + text::decimal(c.requests) + " ("@ + text::decimal(
                c.errors,
            ) + " errors), avg "@ + text::decimal(c.avg_latency_ms) + "ms\nActive jobs: "@
                + text::decimal(c.jobs))),
{
    let front = "**Roger status**\nUptime: "@ + text::decimal(c.uptime_secs / 3600) + "h "@
        + text::decimal(c.uptime_secs % 3600 / 60) + "m "@ + text::decimal(c.uptime_secs % 60)
        + "s\nProfile: "@ + profile + " ("@ + model + ")\nHistory: "@ + text::decimal(c.history_len)
        + " messages (this room)\nMemory: "@;
    lemma_status_halves(front, c);
    let back = text::decimal(c.global_tokens) + "t global, "@ + text::decimal(c.room_tokens)
        + "t this room\nMCP: "@ + text::decimal(c.mcp_servers) + " server(s), "@ + text::decimal(
        c.mcp_tools,
    ) + " tool(s)\nRequests: "@ + text::decimal(c.requests) + " ("@ + text::decimal(c.errors)
        + " errors), avg "@ + text::decimal(c.avg_latency_ms) + "ms\nActive jobs: "@
        + text::decimal(c.jobs);
    assert(status_text(profile, model, c) == front + back);
}

/// The counts come one after another.
proof fn lemma_status_halves(front: Seq<char>, c: StatusCounts)
    ensures
        front + text::decimal(c.global_tokens) + "t global, "@ + text::decimal(c.room_tokens)
            + "t this room\nMCP: "@ + text::decimal(c.mcp_servers) + " server(s), "@
            + text::decimal(c.mcp_tools) + " tool(s)\nRequests: "@ + text::decimal(c.requests)
            + " ("@ + text::decimal(c.errors) + " errors), avg "@ + text::decimal(
            c.avg_latency_ms,
        ) + "ms\nActive jobs: "@ + text::decimal(c.jobs) == front + (text::decimal(c.global_tokens)
            + "t global, "@ + text::decimal(c.room_tokens) + "t this room\nMCP: "@ + text::decimal(
            c.mcp_servers,
        ) + " server(s), "@ + text::decimal(c.mcp_tools) + " tool(s)\nRequests: "@ + text::decimal(
            c.requests,
        ) + " ("@ + text::decimal(c.errors) + " errors), avg "@ + text::decimal(c.avg_latency_ms)
            + "ms\nActive jobs: "@ + text::decimal(c.jobs)),
{
    let a = text::decimal(c.global_tokens);
    let b = a + "t global, "@;
    assert(front + b =~= front + a + "t global, "@);
    let d = b + text::decimal(c.room_tokens);
    assert(front + d =~= front + b + text::decimal(c.room_tokens));
    let e = d + "t this room\nMCP: "@;
    assert(front + e =~= front + d + "t this room\nMCP: "@);
    let f = e + text::decimal(c.mcp_servers);
    assert(front + f =~= front + e + text::decimal(c.mcp_servers));
    let g = f + " server(s), "@;
    assert(front + g =~= front + f + " server(s), "@);
    let h = g + text::decimal(c.mcp_tools);
    assert(front + h =~= front + g + text::decimal(c.mcp_tools));
    let i = h + " tool(s)\nRequests: "@;
    assert(front + i =~= front + h + " tool(s)\nRequests: "@);
    let j = i + text::decimal(c.requests);
    assert(front + j =~= front + i + text::decimal(c.requests));
    let k = j + " ("@;
    assert(front + k =~= front + j + " ("@);
    let l = k + text::decimal(c.errors);
    assert(front + l =~= front + k + text::decimal(c.errors));
    let m = l + " errors), avg "@;
    assert(front + m =~= front + l + " errors), avg "@);
    let n = m + text::decimal(c.avg_latency_ms);
    assert(front + n =~= front + m + text::decimal(c.avg_latency_ms));
    let o = n + "ms\nActive jobs: "@;
    assert(front + o =~= front + n + "ms\nActive jobs: "@);
    let q = o + text::decimal(c.jobs);
    assert(front + q =~= front + o + text::decimal(c.jobs));
}

/// The counts of the status are those of the room and of the process, the messages up to a hundred.
pub proof fn law_status_counts(ctx: BotCtx, room_id: Seq<char>, uptime_secs: u64)
    ensures
        ctx.counts(room_id, uptime_secs).uptime_secs == uptime_secs,
        ctx.history@.messages(room_id).len() <= 100 ==> ctx.counts(room_id, uptime_secs).history_len
            == ctx.history@.messages(room_id).len(),
        ctx.history@.messages(room_id).len() > 100 ==> ctx.counts(room_id, uptime_secs).history_len
            == 100,
        ctx.counts(room_id, uptime_secs).jobs == ctx.workers@.jobs.len(),
        ctx.counts(room_id, uptime_secs).requests == ctx.metrics@.requests,
        ctx.counts(room_id, uptime_secs).errors == ctx.metrics@.errors,
        ctx.metrics@.requests > 0 ==> ctx.counts(room_id, uptime_secs).avg_latency_ms
            == ctx.metrics@.latency_ms / ctx.metrics@.requests,
        ctx.metrics@.requests == 0 ==> ctx.counts(room_id, uptime_secs).avg_latency_ms == 0,
        ctx.counts(room_id, uptime_secs).global_tokens == memory::memory_tokens(
            ctx.memory@.read(ctx.memory@.global_path),
        ),
        ctx.counts(room_id, uptime_secs).room_tokens == memory::memory_tokens(
            ctx.memory@.read(ctx.memory@.room_path(room_id)),
        ),
        ctx.tool_executor@.mcp is Some ==> ctx.counts(room_id, uptime_secs).mcp_servers
            == ctx.tool_executor@.mcp->Some_0.servers.len() && ctx.counts(
            room_id,
            uptime_secs,
        ).mcp_tools == ctx.tool_executor@.mcp->Some_0.tools.len(),
        ctx.tool_executor@.mcp is None ==> ctx.counts(room_id, uptime_secs).mcp_servers == 0
            && ctx.counts(room_id, uptime_secs).mcp_tools == 0,
{
}

/// The model of a profile is that of its primary, with the number of its fallbacks where it has any.
pub proof fn law_model_is_the_primary(chain: Seq<llm::Backend>)
    requires
        chain.len() > 0,
    ensures
        chain.len() == 1 ==> model_text(chain) == chain[0].model_view(),
        chain.len() > 1 ==> model_text(chain) == chain[0].model_view() + " (+"@ + text::decimal(
            (chain.len() - 1) as nat,
        ) + " fallback)"@,
{
}

/// The command reference names every command.
#[verifier::rlimit(40)]
pub proof fn law_help_names_every_command()
    ensures
        text::contains(help_text(), "`/help`"@),
        text::contains(help_text(), "`/clear`"@),
        text::contains(help_text(), "`/forget`"@),
        text::contains(help_text(), "`/status`"@),
        text::contains(help_text(), "`/model [name]`"@),
        text::contains(help_text(), "`/jobs`"@),
        text::contains(help_text(), "`/cancel <id>`"@),
{
    reveal_strlit("**Roger commands**\n`/help` — show this list\n`/clear` — wipe conversation history for this room\n`/forget` — wipe this room's durable memory (`/forget global` for shared)\n`/status` — show uptime, model, and history stats\n`/model [name]` — show/switch this room's LLM profile (`/model reset` to revert)\n`/jobs` — list active background jobs\n`/cancel <id>` — cancel a running background job");
    let h = help_text();
    reveal_strlit("`/help`");
    assert(h.subrange(19, 26) =~= "`/help`"@);
    assert(text::occurs_at(h, "`/help`"@, 19));
    reveal_strlit("`/clear`");
    assert(h.subrange(44, 52) =~= "`/clear`"@);
    assert(text::occurs_at(h, "`/clear`"@, 44));
    reveal_strlit("`/forget`");
    assert(h.subrange(95, 104) =~= "`/forget`"@);
    assert(text::occurs_at(h, "`/forget`"@, 95));
    reveal_strlit("`/status`");
    assert(h.subrange(169, 178) =~= "`/status`"@);
    assert(text::occurs_at(h, "`/status`"@, 169));
    reveal_strlit("`/model [name]`");
    assert(h.subrange(219, 234) =~= "`/model [name]`"@);
    assert(text::occurs_at(h, "`/model [name]`"@, 219));
    reveal_strlit("`/jobs`");
    assert(h.subrange(300, 307) =~= "`/jobs`"@);
    assert(text::occurs_at(h, "`/jobs`"@, 300));
    reveal_strlit("`/cancel <id>`");
    assert(h.subrange(338, 352) =~= "`/cancel <id>`"@);
    assert(text::occurs_at(h, "`/cancel <id>`"@, 338));
}

/// No command changes who the bot is, where it is allowed, its counters or its tools; only `/model`
/// changes the profiles, and it changes nothing else.
pub proof fn law_commands_leave_the_rest(
    before: BotCtx,
    after: BotCtx,
    r: CommandReply,
    cmd: Seq<char>,
    word: Seq<char>,
    arg: Option<Seq<char>>,
    room_id: Seq<char>,
    now_ms: u64,
    uptime_secs: u64,
)
    requires
        is_run(before, after, r, cmd, word, arg, room_id, now_ms, uptime_secs),
    ensures
        after.allowed_rooms == before.allowed_rooms,
        after.bot_user_id == before.bot_user_id,
        after.bot_localpart == before.bot_localpart,
        after.metrics == before.metrics,
        after.tool_executor == before.tool_executor,
        after.state.llms == before.state.llms,
        after.state.room_configs == before.state.room_configs,
        after.state.system_prompt == before.state.system_prompt,
        cmd != "/model"@ ==> after.state == before.state && after.room_profiles
            == before.room_profiles,
        cmd == "/model"@ ==> after.history == before.history && after.memory == before.memory
            && after.workers == before.workers,
        cmd != "/clear"@ ==> after.history@ == before.history@,
        cmd != "/forget"@ ==> after.memory@ == before.memory@,
        cmd != "/cancel"@ ==> after.workers@ == before.workers@,
{
    lemma_commands_differ();
}

/// The status of a room tells the profile that it gets and the model of that profile.
pub proof fn law_status_is_of_the_room(
    ctx: BotCtx,
    room_id: Seq<char>,
    uptime_secs: u64,
    used: Seq<char>,
)
    requires
        used == ctx.state.profile_in_use(room_id),
        ctx.state.llms@[used]@.len() == 1,
    ensures
        ctx.status_view(room_id, uptime_secs) == status_text(
            used,
            ctx.state.llms@[used]@[0].model_view(),
            ctx.counts(room_id, uptime_secs),
        ),
{
}

/// The jobs are shown a line each, in the order of their ids, under a heading and above a hint; a job
/// that has just begun has run for no second.
pub proof fn law_jobs_are_shown_in_order(
    a: Seq<(u64, workers::JobHandle)>,
    b: Seq<(u64, workers::JobHandle)>,
    job: (u64, workers::JobHandle),
    now_ms: u64,
)
    ensures
        job_lines(a + b, now_ms) == job_lines(a, now_ms) + job_lines(b, now_ms),
        job_lines(seq![job], now_ms) == job_line(job, now_ms),
        a.len() > 0 ==> jobs_text(a, now_ms) == "**Active jobs**\n"@ + job_lines(a, now_ms)
            + "`/cancel <id>` to stop one."@,
        now_ms <= job.1.started_ms ==> job_line(job, now_ms) == "`"@ + text::decimal(job.0 as nat)
            + "` — "@ + job.1.profile@ + " ("@ + job.1.model@ + "), "@ + text::decimal(0) + "s\n"@,
    decreases b.len(),
{
    let single = seq![job];
    assert(job_lines(single.drop_last(), now_ms) =~= Seq::<char>::empty());
    assert(Seq::<char>::empty() + job_line(job, now_ms) =~= job_line(job, now_ms));
    if b.len() == 0 {
        assert(a + b =~= a);
        assert(job_lines(a, now_ms) + job_lines(b, now_ms) =~= job_lines(a, now_ms));
    } else {
        law_jobs_are_shown_in_order(a, b.drop_last(), job, now_ms);
        assert((a + b).drop_last() =~= a + b.drop_last());
        assert((a + b).last() == b.last());
        let x = job_lines(a, now_ms);
        let y = job_lines(b.drop_last(), now_ms);
        let z = job_line(b.last(), now_ms);
        assert((x + y) + z =~= x + (y + z));
    }
}

/// `/model` with the name of a profile is kept for the next start, with every other room's choice, and
/// is answered with the profile and its model; with an unknown name nothing is kept or changed.
#[verifier::rlimit(40)]
pub proof fn law_model_choice_is_saved(
    before: BotCtx,
    after: BotCtx,
    r: CommandReply,
    word: Seq<char>,
    arg: Seq<char>,
    room_id: Seq<char>,
    now_ms: u64,
    uptime_secs: u64,
)
    requires
        is_run(before, after, r, "/model"@, word, Some(arg), room_id, now_ms, uptime_secs),
        text::trim(arg).len() > 0,
        text::trim(arg) != "reset"@,
        text::trim(arg) != "default"@,
    ensures
        ({
            let name = text::trim(arg);
            &&& before.state.llms@.contains_key(name) ==> {
                &&& after.overrides() == before.overrides().insert(room_id, name)
                &&& after.room_profiles.file_view() == Some(
                    json::string_map_json(before.overrides().insert(room_id, name)),
                )
                &&& r.effect == Effect::Profiles
                &&& r.text@ == "Switched to profile `"@ + name + "` ("@
                    + before.state.llms@[name]@[0].model_view() + ")"@
            }
            &&& !before.state.llms@.contains_key(name) ==> {
                &&& after.overrides() == before.overrides()
                &&& after.room_profiles.file_view() == before.room_profiles.file_view()
                &&& r.effect == Effect::Nothing
            }
            &&& after.room_profiles.path_view() == before.room_profiles.path_view()
        }),
{
    let name = text::trim(arg);
    if before.state.llms@.contains_key(name) {
        let map = after.state.room_profiles@;
        assert(after.overrides().contains_key(room_id) && after.overrides()[room_id] == name);
        assert(map.contains_key(room_id) && map[room_id]@ == name);
        assert(after.state.profile_in_use(room_id) == name);
    }
}

/// `/model` alone lists the profiles in order, each in backticks, with what the room asks for and how
/// to change it.
pub proof fn law_model_lists_in_order(
    llms: Set<Seq<char>>,
    listed: Seq<Seq<char>>,
    asked: Seq<char>,
    used: Seq<char>,
    model: Seq<char>,
    i: int,
)
    requires
        names::lists_keys(listed, llms),
        0 <= i < listed.len(),
    ensures
        quoted(listed).len() == listed.len(),
        quoted(listed)[i] == "`"@ + listed[i] + "`"@,
        model_reply(llms, Seq::empty(), asked, used, model) == "Current profile: `"@ + asked
            + "`\nAvailable: "@ + text::join(quoted(listed), ", "@)
            + "\n`/model <name>` to switch · `/model reset` to revert to default"@,
{
    names::lemma_key_list_unique(names::key_list(llms), listed, llms);
}

} // verus!
