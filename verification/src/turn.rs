//! How a turn of a room begins, and what it leaves to do afterwards.

use crate::attachment::Attachment;
use crate::commands::BotCtx;
use crate::compaction::CompactionParams;
use crate::compaction;
use crate::config::CommsMode;
use crate::history::ChatMessage;
use crate::history;
use crate::response::FlushCadence;
use crate::response;
use crate::room_workdirs;
use crate::paths;
use crate::text;
use crate::workers::JobHandle;
use crate::workers;
use vstd::prelude::*;
use vstd::string::*;

verus! {

/// A turn that is ready to run.
pub struct TurnPlan {
    pub job_id: u64,
    pub messages: Vec<ChatMessage>,
    pub profile: String,
    pub model: String,
    pub mode: CommsMode,
    pub agentic: bool,
    pub workdir: Option<String>,
    pub cadence: FlushCadence,
}

/// How long the room waits for a turn.
#[derive(Debug, Clone, Copy, PartialEq, Eq, Structural)]
pub enum Waiting {
    /// Not at all: the turn runs in the background.
    Detach,
    /// Until it is done.
    Await,
    /// Up to this many milliseconds; then it goes on in the background.
    AwaitFor(u64),
}

/// How long the room waits for a turn of a profile.
pub fn waiting(mode: CommsMode, sync_budget_ms: u64) -> (r: Waiting)
    ensures
        r == (match mode {
            CommsMode::Async => Waiting::Detach,
            CommsMode::Sync => Waiting::Await,
            CommsMode::Auto => Waiting::AwaitFor(sync_budget_ms),
        }),
{
    match mode {
        CommsMode::Async => Waiting::Detach,
        CommsMode::Sync => Waiting::Await,
        CommsMode::Auto => Waiting::AwaitFor(sync_budget_ms),
    }
}

/// The texts of the operating-instructions files, empty where they are missing.
pub struct Operating<'a> {
    pub global: &'a str,
    pub room: &'a str,
}

/// The persona of a room.
pub open spec fn persona(ctx: BotCtx, room_id: Seq<char>) -> Seq<char> {
    let rooms = ctx.state.room_configs@;
    if rooms.contains_key(room_id) && rooms[room_id].system_prompt is Some {
        rooms[room_id].system_prompt->Some_0@
    } else {
        ctx.state.system_prompt@
    }
}

/// The system prompt of a turn: persona, operating instructions, and durable memory where it is
/// enabled.
pub open spec fn turn_prompt(ctx: BotCtx, room_id: Seq<char>, op: Operating) -> Seq<char> {
    let m = ctx.memory@;
    response::system_prompt(
        persona(ctx, room_id),
        op.global@,
        op.room@,
        if ctx.state.memory_enabled {
            m.read(m.global_path)
        } else {
            Seq::empty()
        },
        if ctx.state.memory_enabled {
            m.read(m.room_path(room_id))
        } else {
            Seq::empty()
        },
    )
}

/// Whether an agentic job runs in a room.
pub open spec fn agentic_in_room(ctx: BotCtx, room_id: Seq<char>) -> bool {
    exists|i: int|
        0 <= i < ctx.workers@.jobs.len() && (#[trigger] ctx.workers@.jobs[i]).1.agentic
            && ctx.workers@.jobs[i].1.room@ == room_id
}

/// `after` is `before` with the user's message in the room's history; the jobs may differ.
pub open spec fn heard(before: BotCtx, after: BotCtx, room_id: Seq<char>, body: Seq<char>) -> bool {
    &&& after.allowed_rooms == before.allowed_rooms
    &&& after.bot_user_id == before.bot_user_id
    &&& after.bot_localpart == before.bot_localpart
    &&& after.state == before.state
    &&& after.room_profiles == before.room_profiles
    &&& after.metrics == before.metrics
    &&& after.tool_executor == before.tool_executor
    &&& after.memory == before.memory
    &&& exists|msg: ChatMessage|
        {
            &&& msg.role@ == "user"@
            &&& msg.content@ == body
            &&& after.history@ == before.history@.recorded(room_id).written(
                room_id,
                before.history@.recorded(room_id).messages(room_id).push(msg),
            )
        }
}

/// `messages` are the system prompt, and as much of the history as the model's window leaves room
/// for.
pub open spec fn is_request(messages: Seq<ChatMessage>, ctx: BotCtx, room_id: Seq<char>, prompt: Seq<char>) -> bool {
    let chain = ctx.state.llms@[ctx.state.profile_in_use(room_id)]@;
    let msgs = ctx.history@.messages(room_id);
    &&& messages.len() > 0
    &&& messages[0].role@ == "system"@
    &&& messages[0].content@ == prompt
    &&& exists|k: int| #[trigger]
        history::is_window(
            msgs,
            chain[0].budget_view(history::tokens(prompt) as usize) as nat,
            k,
        ) && messages.skip(1) == msgs.skip(k)
}

/// `plan` is the turn of a room that uses its profile and its working directory.
pub open spec fn is_turn(
    plan: TurnPlan,
    ctx: BotCtx,
    room_id: Seq<char>,
    op: Operating,
    home: Option<Seq<char>>,
) -> bool {
    let used = ctx.state.profile_in_use(room_id);
    let chain = ctx.state.llms@[used]@;
    &&& is_request(plan.messages@, ctx, room_id, turn_prompt(ctx, room_id, op))
    &&& plan.profile@ == used
    &&& plan.model@ == chain[0].model_view()
    &&& plan.mode == (if ctx.state.profile_comms@.contains_key(used) {
        ctx.state.profile_comms@[used]
    } else {
        CommsMode::Sync
    })
    &&& plan.agentic == (chain[0] is Subprocess)
    &&& text::opt_string(plan.workdir) == room_workdirs::turn_workdir(
        match ctx.tool_executor@.workdirs {
            Some(d) => d,
            None => Map::empty(),
        },
        room_id,
        text::opt_string(ctx.state.comms.default_workdir),
        home,
    )
    &&& plan.cadence.min_gap == ctx.state.comms.edit_debounce_ms
    &&& plan.cadence.max_wait == (if ctx.state.comms.edit_debounce_ms >= 1000 {
        ctx.state.comms.edit_debounce_ms
    } else {
        1000
    })
}

/// `job` stands for a turn that began at `now_ms`.
pub open spec fn is_job(job: JobHandle, plan: TurnPlan, room_id: Seq<char>, now_ms: u64) -> bool {
    &&& job.room@ == room_id
    &&& job.profile@ == plan.profile@
    &&& job.model@ == plan.model@
    &&& job.started_ms == now_ms
    &&& job.agentic == plan.agentic
}

/// What is answered where an agentic job runs in the room already.
pub fn busy_text() -> (r: &'static str)
    ensures
        r@
            == "I'm already running a job in this room. Use `/cancel <id>` or wait for it to finish."@,
{
    "I'm already running a job in this room. Use `/cancel <id>` or wait for it to finish."
}

impl BotCtx {
    /// The system prompt of a turn.
    fn prompt_for(&self, room_id: &str, op: &Operating) -> (r: String)
        ensures
            r@ == turn_prompt(*self, room_id@, *op),
    {
        let base = self.state.base_prompt(room_id);
        let (global, room) = if self.state.memory_enabled {
            (self.memory.read_global(), self.memory.read_room(room_id))
        } else {
            (String::new(), String::new())
        };
        response::assemble_system_prompt(
            base.as_str(),
            op.global,
            op.room,
            global.as_str(),
            room.as_str(),
        )
    }

    /// The working directory of a turn.
    fn workdir_for(&self, room_id: &str, home: Option<&str>) -> (r: Option<String>)
        ensures
            text::opt_string(r) == room_workdirs::turn_workdir(
                match self.tool_executor@.workdirs {
                    Some(d) => d,
                    None => Map::empty(),
                },
                room_id@,
                text::opt_string(self.state.comms.default_workdir),
                text::opt_str(home),
            ),
    {
        let default = match &self.state.comms.default_workdir {
            Some(d) => Some(d.as_str()),
            None => None,
        };
        match &self.tool_executor.room_workdirs {
            Some(dirs) => room_workdirs::resolve_workdir(dirs, room_id, default, home),
            None => match default {
                Some(d) => Some(paths::expand_tilde(home, d)),
                None => None,
            },
        }
    }

    /// Begins a turn: keeps the user's message, and plans the answer. `None` where an agentic job
    /// would meet another one in the room: two agents in one working directory clash.
    pub fn begin_turn(
        &mut self,
        room_id: &str,
        body: &str,
        op: &Operating,
        home: Option<&str>,
        now_ms: u64,
    ) -> (r: Option<TurnPlan>)
        requires
            old(self).state.llms@.contains_key("chat"@),
            old(self).workers@.next_id < u64::MAX,
        ensures
            heard(*old(self), *final(self), room_id@, body@),
            workers::one_agent_per_room(old(self).workers@.jobs) ==> workers::one_agent_per_room(
                final(self).workers@.jobs,
            ),
            match r {
                None => {
                    &&& old(self).state.llms@[old(self).state.profile_in_use(
                        room_id@,
                    )]@[0] is Subprocess
                    &&& agentic_in_room(*old(self), room_id@)
                    &&& final(self).workers == old(self).workers
                },
                Some(plan) => {
                    &&& is_turn(plan, *final(self), room_id@, *op, text::opt_str(home))
                    &&& !(plan.agentic && agentic_in_room(*old(self), room_id@))
                    &&& plan.job_id == old(self).workers@.next_id
                    &&& exists|job: JobHandle| #[trigger]
                        is_job(job, plan, room_id@, now_ms) && final(self).workers@ == (
                        workers::WorkersView {
                            next_id: old(self).workers@.next_id + 1,
                            jobs: old(self).workers@.jobs.push((plan.job_id, job)),
                            soft_cap: old(self).workers@.soft_cap,
                        })
                },
            },
    {
        let msg = ChatMessage::user(body);
        self.history.append(room_id, msg);
        let prompt = self.prompt_for(room_id, op);
        let (client, profile) = self.state.llm_for_room(room_id);
        let model = client.model().to_owned();
        let mode = self.state.comms_mode_for_profile(profile.as_str());
        let agentic = client.is_subprocess();
        if agentic && self.workers.agentic_active_in_room(room_id) {
            return None;
        }
        let messages = response::turn_messages(client, &self.history, room_id, prompt.as_str());
        let workdir = self.workdir_for(room_id, home);
        let cadence = FlushCadence::from_comms(&self.state.comms);
        let job = JobHandle {
            room: room_id.to_owned(),
            profile: profile.clone(),
            model: model.clone(),
            started_ms: now_ms,
            agentic,
        };
        let ghost registered = job;
        let job_id = self.workers.insert_pending(job);
        let plan = TurnPlan { job_id, messages, profile, model, mode, agentic, workdir, cadence };
        proof {
            let chain = self.state.llms@[self.state.profile_in_use(room_id@)]@;
            let msgs = self.history@.messages(room_id@);
            let budget = chain[0].budget_view(history::tokens(prompt@) as usize) as nat;
            let k = choose|k: int| #[trigger]
                history::is_window(msgs, budget, k) && plan.messages@.skip(1) == msgs.skip(k);
            assert(history::is_window(msgs, budget, k));
            assert(is_job(registered, plan, room_id@, now_ms));
            if workers::one_agent_per_room(old(self).workers@.jobs) {
                workers::law_agents_stay_apart(
                    old(self).workers@.jobs,
                    job_id,
                    (job_id, registered),
                );
            }
        }
        Some(plan)
    }

    /// Whether an upload is acknowledged: it is bare, that is without a caption, and the room is
    /// idle, that is without a job.
    pub fn acknowledges(&self, room_id: &str, att: &Attachment) -> (r: bool)
        ensures
            r == (att.caption is None && !workers::busy(self.workers@.jobs, room_id@)),
    {
        att.caption.is_none() && !self.workers.active_in_room(room_id)
    }

    /// The compaction that a room is due for after a turn, where its profile was built.
    /// `window_share` is the configured share of the room's history window, in tokens.
    pub fn due_compaction(&self, room_id: &str, window_share: usize) -> (r: Option<
        CompactionParams,
    >)
        ensures
            ({
                let c = self.state.compaction;
                let trigger = if c.trigger_tokens > 0 {
                    c.trigger_tokens
                } else {
                    window_share
                };
                r == (if c.enabled && history::total(self.history@.messages(room_id@)) > trigger
                    && self.state.llms@.contains_key(c.profile@) {
                    Some(
                        CompactionParams {
                            keep_recent_turns: c.keep_recent_turns,
                            max_global_tokens: self.state.memory_max_global_tokens,
                            max_room_tokens: self.state.memory_max_room_tokens,
                        },
                    )
                } else {
                    None
                })
            }),
    {
        let c = &self.state.compaction;
        let due = compaction::is_due(
            &self.history,
            room_id,
            c.enabled,
            c.trigger_tokens,
            window_share,
        );
        if due && self.state.llms.contains_key(c.profile.as_str()) {
            Some(
                CompactionParams {
                    keep_recent_turns: c.keep_recent_turns,
                    max_global_tokens: self.state.memory_max_global_tokens,
                    max_room_tokens: self.state.memory_max_room_tokens,
                },
            )
        } else {
            None
        }
    }

    /// What the nightly compaction runs over: every room that ever had history written, each with
    /// the configured caps. `None` where the compaction profile was not built.
    pub fn nightly_compaction(&self) -> (r: Option<(Vec<String>, CompactionParams)>)
        ensures
            match r {
                Some((rooms, params)) => {
                    &&& self.state.llms@.contains_key(self.state.compaction.profile@)
                    &&& text::views(rooms@) == self.history@.rooms()
                    &&& params == (CompactionParams {
                        keep_recent_turns: self.state.compaction.keep_recent_turns,
                        max_global_tokens: self.state.memory_max_global_tokens,
                        max_room_tokens: self.state.memory_max_room_tokens,
                    })
                },
                None => !self.state.llms@.contains_key(self.state.compaction.profile@),
            },
    {
        let c = &self.state.compaction;
        if self.state.llms.contains_key(c.profile.as_str()) {
            let params = CompactionParams {
                keep_recent_turns: c.keep_recent_turns,
                max_global_tokens: self.state.memory_max_global_tokens,
                max_room_tokens: self.state.memory_max_room_tokens,
            };
            Some((self.history.list_room_ids(), params))
        } else {
            None
        }
    }
}

/// The persona of a room is its own, where it has one, else that of the bot.
pub proof fn law_rooms_have_their_own_persona(ctx: BotCtx, room_id: Seq<char>)
    ensures
        ctx.state.room_configs@.contains_key(room_id)
            && ctx.state.room_configs@[room_id].system_prompt is Some ==> persona(ctx, room_id)
            == ctx.state.room_configs@[room_id].system_prompt->Some_0@,
        ctx.state.room_configs@.contains_key(room_id)
            && ctx.state.room_configs@[room_id].system_prompt is None ==> persona(ctx, room_id)
            == ctx.state.system_prompt@,
        !ctx.state.room_configs@.contains_key(room_id) ==> persona(ctx, room_id)
            == ctx.state.system_prompt@,
{
}

/// The prompt of a turn starts with the persona and holds the instructions of the bot and of the
/// room, and, where memory is on, the memory of the bot and of the room; where it is off, neither.
#[verifier::rlimit(40)]
pub proof fn law_prompt_holds_instructions_and_memory(
    ctx: BotCtx,
    room_id: Seq<char>,
    op: Operating,
)
    ensures
        op.global@.len() > 0 ==> text::contains(turn_prompt(ctx, room_id, op), "\n\n"@ + op.global@),
        op.room@.len() > 0 ==> text::contains(turn_prompt(ctx, room_id, op), "\n\n"@ + op.room@),
        ctx.state.memory_enabled && ctx.memory@.read(ctx.memory@.global_path).len() > 0
            ==> text::contains(
            turn_prompt(ctx, room_id, op),
            "\n\n## Memory (global)\n"@ + ctx.memory@.read(ctx.memory@.global_path),
        ),
        ctx.state.memory_enabled && ctx.memory@.read(ctx.memory@.room_path(room_id)).len() > 0
            ==> text::contains(
            turn_prompt(ctx, room_id, op),
            "\n\n## Memory (this room)\n"@ + ctx.memory@.read(ctx.memory@.room_path(room_id)),
        ),
        text::starts_with(
            turn_prompt(ctx, room_id, op),
            text::trim_back(persona(ctx, room_id), text::Class::Space),
        ),
        !ctx.state.memory_enabled ==> turn_prompt(ctx, room_id, op) == response::system_prompt(
            persona(ctx, room_id),
            op.global@,
            op.room@,
            Seq::empty(),
            Seq::empty(),
        ),
{
    let none = Seq::<char>::empty();
    let b = persona(ctx, room_id);
    let g = op.global@;
    let r = op.room@;
    let m = if ctx.state.memory_enabled {
        ctx.memory@.read(ctx.memory@.global_path)
    } else {
        none
    };
    let n = if ctx.state.memory_enabled {
        ctx.memory@.read(ctx.memory@.room_path(room_id))
    } else {
        none
    };
    response::law_every_layer_is_in_the_prompt(b, g, r, m, n);
    let p0 = response::system_prompt(b, none, none, none, none);
    let p1 = response::system_prompt(b, g, none, none, none);
    let p2 = response::system_prompt(b, g, r, none, none);
    let p3 = response::system_prompt(b, g, r, m, none);
    let p4 = response::system_prompt(b, g, r, m, n);
    if g.len() == 0 {
        assert(g =~= none);
    }
    if r.len() == 0 {
        assert(r =~= none);
    }
    if m.len() == 0 {
        assert(m =~= none);
    }
    if n.len() == 0 {
        assert(n =~= none);
    }
    assert(turn_prompt(ctx, room_id, op) == p4);
    let x1 = if g.len() > 0 { "\n\n"@ + g } else { none };
    let x2 = if r.len() > 0 { "\n\n"@ + r } else { none };
    let x3 = if m.len() > 0 { "\n\n## Memory (global)\n"@ + m } else { none };
    let x4 = if n.len() > 0 { "\n\n## Memory (this room)\n"@ + n } else { none };
    assert(p1 =~= p0 + x1);
    assert(p2 =~= p1 + x2);
    assert(p3 =~= p2 + x3);
    assert(p4 =~= p3 + x4);
    text::lemma_holds_the_middle(p0, x1, x2 + x3 + x4);
    assert(p0 + x1 + (x2 + x3 + x4) =~= p4);
    text::lemma_holds_the_middle(p1, x2, x3 + x4);
    assert(p1 + x2 + (x3 + x4) =~= p4);
    text::lemma_holds_the_middle(p2, x3, x4);
    text::lemma_holds_the_middle(p3, x4, none);
    assert(p3 + x4 + none =~= p4);
    assert(p4.subrange(0, p0.len() as int) =~= p0);
}

/// A turn asks the model with the prompt in front and the user's message at the end; between them
/// stands the end of the room's history. The room's file is not the list of rooms.
pub proof fn law_turn_ends_with_the_message(
    before: BotCtx,
    after: BotCtx,
    plan: TurnPlan,
    room_id: Seq<char>,
    body: Seq<char>,
    op: Operating,
    home: Option<Seq<char>>,
)
    requires
        heard(before, after, room_id, body),
        is_turn(plan, after, room_id, op, home),
        before.history@.room_path(room_id) != before.history@.known_path(),
    ensures
        plan.messages@.len() >= 2,
        plan.messages@[0].role@ == "system"@,
        plan.messages@[0].content@ == turn_prompt(after, room_id, op),
        plan.messages@.last().role@ == "user"@,
        plan.messages@.last().content@ == body,
        after.history@.messages(room_id).len() == before.history@.messages(room_id).len() + 1,
        after.history@.messages(room_id).drop_last() == before.history@.messages(room_id),
{
    let h = before.history@;
    let msg = choose|msg: ChatMessage|
        {
            &&& msg.role@ == "user"@
            &&& msg.content@ == body
            &&& after.history@ == h.recorded(room_id).written(
                room_id,
                h.recorded(room_id).messages(room_id).push(msg),
            )
        };
    history::law_recording_keeps_messages(h, room_id, room_id);
    let msgs = after.history@.messages(room_id);
    assert(msgs == h.messages(room_id).push(msg));
    assert(msgs.drop_last() =~= h.messages(room_id));
    let prompt = turn_prompt(after, room_id, op);
    let chain = after.state.llms@[after.state.profile_in_use(room_id)]@;
    let budget = chain[0].budget_view(history::tokens(prompt) as usize) as nat;
    let k = choose|k: int| #[trigger]
        history::is_window(msgs, budget, k) && plan.messages@.skip(1) == msgs.skip(k);
    history::law_window_is_the_longest_that_fits(msgs, budget, k, 0);
    assert(plan.messages@.skip(1).last() == plan.messages@.last());
}

/// A turn runs with the profile that the room gets, with the model of its primary, its mode and its
/// working directory, and its job says so.
pub proof fn law_turn_uses_the_rooms_profile(
    ctx: BotCtx,
    plan: TurnPlan,
    job: JobHandle,
    room_id: Seq<char>,
    op: Operating,
    home: Option<Seq<char>>,
    now_ms: u64,
)
    requires
        is_turn(plan, ctx, room_id, op, home),
        is_job(job, plan, room_id, now_ms),
    ensures
        plan.profile@ == ctx.state.profile_in_use(room_id),
        plan.model@ == ctx.state.llms@[ctx.state.profile_in_use(room_id)]@[0].model_view(),
        plan.agentic == (ctx.state.llms@[ctx.state.profile_in_use(room_id)]@[0] is Subprocess),
        ctx.state.profile_comms@.contains_key(plan.profile@) ==> plan.mode
            == ctx.state.profile_comms@[plan.profile@],
        !ctx.state.profile_comms@.contains_key(plan.profile@) ==> plan.mode == CommsMode::Sync,
        ctx.tool_executor@.workdirs is Some && ctx.tool_executor@.workdirs->Some_0.contains_key(
            room_id,
        ) ==> plan.workdir is Some && plan.workdir->Some_0@
            == ctx.tool_executor@.workdirs->Some_0[room_id],
        plan.cadence.min_gap == ctx.state.comms.edit_debounce_ms,
        plan.cadence.max_wait >= 1000,
        plan.cadence.max_wait >= plan.cadence.min_gap,
        plan.cadence.max_wait == 1000 || plan.cadence.max_wait == plan.cadence.min_gap,
        job.room@ == room_id,
        job.profile@ == plan.profile@,
        job.model@ == plan.model@,
        job.agentic == plan.agentic,
        job.started_ms == now_ms,
{
}

/// A turn that begins changes nothing but the room's history, and the jobs.
pub proof fn law_turn_leaves_the_rest(before: BotCtx, after: BotCtx, room_id: Seq<char>, body: Seq<char>)
    requires
        heard(before, after, room_id, body),
    ensures
        after.memory == before.memory,
        after.state == before.state,
        after.room_profiles == before.room_profiles,
        after.tool_executor == before.tool_executor,
        after.metrics == before.metrics,
        after.allowed_rooms == before.allowed_rooms,
        after.bot_user_id == before.bot_user_id,
        after.bot_localpart == before.bot_localpart,
{
}

/// A message is kept as the last one of its room, even where its turn has to wait, and no other room
/// sees it. The room's file is not the list of rooms.
pub proof fn law_messages_are_kept(
    before: BotCtx,
    after: BotCtx,
    room_id: Seq<char>,
    body: Seq<char>,
    other: Seq<char>,
)
    requires
        heard(before, after, room_id, body),
        before.history@.room_path(room_id) != before.history@.known_path(),
    ensures
        after.history@.messages(room_id).drop_last() == before.history@.messages(room_id),
        after.history@.messages(room_id).len() == before.history@.messages(room_id).len() + 1,
        after.history@.messages(room_id).last().role@ == "user"@,
        after.history@.messages(room_id).last().content@ == body,
        before.history@.room_path(other) != before.history@.room_path(room_id)
            && before.history@.room_path(other) != before.history@.known_path()
            ==> after.history@.messages(other) == before.history@.messages(other),
{
    let h = before.history@;
    let msg = choose|msg: ChatMessage|
        {
            &&& msg.role@ == "user"@
            &&& msg.content@ == body
            &&& after.history@ == h.recorded(room_id).written(
                room_id,
                h.recorded(room_id).messages(room_id).push(msg),
            )
        };
    history::law_recording_keeps_messages(h, room_id, room_id);
    if h.room_path(other) != h.known_path() {
        history::law_recording_keeps_messages(h, room_id, other);
    }
    assert(h.messages(room_id).push(msg).drop_last() =~= h.messages(room_id));
}

/// An agentic job runs in a room where one of the jobs, wherever it stands, is agentic and of the
/// room.
pub proof fn law_agents_are_seen(
    ctx: BotCtx,
    a: Seq<(u64, JobHandle)>,
    job: (u64, JobHandle),
    b: Seq<(u64, JobHandle)>,
    room_id: Seq<char>,
)
    requires
        ctx.workers@.jobs == a + seq![job] + b,
    ensures
        job.1.agentic && job.1.room@ == room_id ==> agentic_in_room(ctx, room_id),
        agentic_in_room(ctx, room_id) ==> workers::busy(ctx.workers@.jobs, room_id),
{
    let jobs = ctx.workers@.jobs;
    assert(jobs[a.len() as int] == job);
    if agentic_in_room(ctx, room_id) {
        let i = choose|i: int|
            0 <= i < jobs.len() && (#[trigger] jobs[i]).1.agentic && jobs[i].1.room@ == room_id;
        assert(jobs[i].1.room@ == room_id);
    }
}

} // verus!
