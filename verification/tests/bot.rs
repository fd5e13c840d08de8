use roger::attachment::{Attachment, AttachmentKind};
use roger::commands::{parse_u64, BotCtx, Effect, InviteAction};
use roger::config::{CommsConfig, CommsMode, CompactionConfig, RoomConfig};
use roger::history::{estimate_tokens, ChatMessage, HistoryStore};
use roger::llm::{Backend, LlmClient, ProfileLlm, SubprocessBackend, SubprocessKind};
use roger::memory::MemoryStore;
use roger::metrics::Metrics;
use roger::names::NameMap;
use roger::response::{
    after_stream, assemble_system_prompt, conclude, last_sentence_end, should_flush, AfterStream,
    FinalRender, Flush, FlushCadence, ShownMessage, StreamOutcome,
};
use roger::room_profiles::RoomProfileStore;
use roger::room_workdirs::RoomWorkdirStore;
use roger::state::{keep_built, ReloadableState};
use roger::tools::ToolExecutor;
use roger::turn::{waiting, Operating, Waiting};
use roger::workers::{JobHandle, Workers};

fn client(model: &str) -> ProfileLlm {
    ProfileLlm::new(vec![Backend::Http(LlmClient::new(
        "http://localhost/v1".into(),
        model.into(),
        None,
        128,
        8192,
    ))])
}

fn bot_state() -> ReloadableState {
    let mut llms = NameMap::new();
    llms.insert("chat".to_string(), client("chat-model"));
    llms.insert("reason".to_string(), client("reason-model"));
    let mut room_configs = NameMap::new();
    room_configs.insert(
        "!coding:srv".to_string(),
        RoomConfig {
            name: "Coding".into(),
            require_mention: true,
            system_prompt: None,
            profile: Some("reason".into()),
            operating_file: None,
        },
    );
    let mut profile_comms = NameMap::new();
    profile_comms.insert("chat".to_string(), CommsMode::Sync);
    profile_comms.insert("reason".to_string(), CommsMode::Auto);
    ReloadableState {
        llms,
        system_prompt: "sys".into(),
        room_configs,
        room_profiles: NameMap::new(),
        comms: CommsConfig::default(),
        profile_comms,
        operating_file: None,
        memory_enabled: true,
        memory_max_global_tokens: 1500,
        memory_max_room_tokens: 3000,
        compaction: CompactionConfig::default(),
    }
}

#[test]
fn unconfigured_room_uses_chat() {
    let st = bot_state();
    let (client, profile) = st.llm_for_room("!unknown:srv");
    assert_eq!(profile, "chat");
    assert_eq!(client.model(), "chat-model");
}

#[test]
fn room_config_profile_is_used() {
    let st = bot_state();
    let (client, profile) = st.llm_for_room("!coding:srv");
    assert_eq!(profile, "reason");
    assert_eq!(client.model(), "reason-model");
}

#[test]
fn runtime_override_beats_room_config() {
    let mut st = bot_state();
    st.room_profiles.insert("!coding:srv".to_string(), "chat".to_string());
    let (client, profile) = st.llm_for_room("!coding:srv");
    assert_eq!(profile, "chat");
    assert_eq!(client.model(), "chat-model");
}

#[test]
fn missing_profile_falls_back_to_chat() {
    let mut st = bot_state();
    st.room_profiles.insert("!coding:srv".to_string(), "nonexistent".to_string());
    let (client, profile) = st.llm_for_room("!coding:srv");
    assert_eq!(profile, "chat");
    assert_eq!(client.model(), "chat-model");
}

fn test_ctx() -> BotCtx {
    let dirs = RoomWorkdirStore::load("/state/rw.json".to_string(), None);
    BotCtx {
        allowed_rooms: vec!["!coding:srv".to_string()],
        bot_user_id: "@roger:srv".into(),
        bot_localpart: "roger".into(),
        history: HistoryStore::new("/state/history"),
        state: bot_state(),
        room_profiles: RoomProfileStore::new("/state/rp.json".to_string()),
        metrics: Metrics::default(),
        tool_executor: ToolExecutor::with_projects(None, NameMap::new(), Some(dirs), None, None),
        workers: Workers::new(4),
        memory: MemoryStore::new("/state", None, None),
    }
}

#[test]
fn model_no_arg_lists_available() {
    let mut ctx = test_ctx();
    let out = ctx.handle_model_command(None, "!coding:srv").text;
    assert!(out.contains("Current profile: `reason`"));
    assert!(out.contains("`chat`") && out.contains("`reason`"));
}

#[test]
fn model_switch_persists_and_applies() {
    let mut ctx = test_ctx();
    let out = ctx.handle_model_command(Some("chat"), "!coding:srv").text;
    assert!(out.contains("Switched to profile `chat`"));
    // In-memory state updated
    assert_eq!(ctx.state.profile_name_for_room("!coding:srv"), "chat");
    // Persisted
    assert_eq!(
        ctx.room_profiles.load().get("!coding:srv").map(String::as_str),
        Some("chat")
    );
}

#[test]
fn other_rooms_keep_their_profile() {
    let mut ctx = test_ctx();
    ctx.handle_model_command(Some("reason"), "!a:srv");
    assert_eq!(ctx.state.llm_for_room("!a:srv").1, "reason");
    assert_eq!(ctx.state.llm_for_room("!b:srv").1, "chat");
    assert_eq!(ctx.state.llm_for_room("!coding:srv").1, "reason");
    ctx.handle_model_command(Some(" default "), "!a:srv");
    assert_eq!(ctx.state.llm_for_room("!a:srv").1, "chat");
}

#[test]
fn a_turn_fits_the_context() {
    let mut ctx = test_ctx();
    let r = "!coding:srv";
    for _ in 0..100 {
        ctx.history.append(r, ChatMessage::user(&"x".repeat(1000)));
    }
    let plan = ctx
        .begin_turn(r, "now", &Operating { global: &"y".repeat(4000), room: "" }, None, 0)
        .unwrap();
    let tokens: usize = plan.messages.iter().map(|m| estimate_tokens(&m.content)).sum();
    // The model has a context of 8192 tokens, 128 of them for the response.
    assert!(tokens + 128 + 256 <= 8192);
    assert!(tokens + 128 + 256 + 254 > 8192);
    assert_eq!(plan.messages.last().unwrap().content, "now");
}

#[test]
fn model_unknown_is_rejected() {
    let mut ctx = test_ctx();
    let out = ctx.handle_model_command(Some("bogus"), "!coding:srv").text;
    assert!(out.starts_with("Unknown profile `bogus`"));
    // Unchanged: still the room-config default
    assert_eq!(ctx.state.profile_name_for_room("!coding:srv"), "reason");
    assert_eq!(ctx.room_profiles.load().len(), 0);
}

#[test]
fn model_reset_clears_override() {
    let mut ctx = test_ctx();
    ctx.handle_model_command(Some("chat"), "!coding:srv");
    let out = ctx.handle_model_command(Some("reset"), "!coding:srv").text;
    assert!(out.contains("Reset to default profile: `reason`"));
    assert_eq!(ctx.room_profiles.load().len(), 0);
}

#[test]
fn last_sentence_end_finds_boundaries() {
    assert_eq!(last_sentence_end("no boundary here"), None);
    assert_eq!(last_sentence_end("Hello there."), Some(11));
    // Returns the *last* boundary.
    assert_eq!(last_sentence_end("One. Two!"), Some(8));
    assert!(last_sentence_end("line one\nline two").is_some());
}

#[test]
fn should_flush_respects_rate_floor() {
    let min = 250;
    let max = 1000;
    // Sentence ready but too soon since last flush → no.
    assert!(!should_flush(true, 100, true, min, max));
    // Sentence ready and past the floor → yes.
    assert!(should_flush(true, 300, true, min, max));
}

#[test]
fn should_flush_time_ceiling_without_sentence() {
    let min = 250;
    let max = 1000;
    // No sentence, under the ceiling → no.
    assert!(!should_flush(true, 500, false, min, max));
    // No sentence, but ceiling reached → yes.
    assert!(should_flush(true, 1000, false, min, max));
}

#[test]
fn should_flush_requires_change() {
    let min = 250;
    let max = 1000;
    // Unchanged text never flushes, even past the ceiling.
    assert!(!should_flush(false, 5000, true, min, max));
}

fn job(room: &str, agentic: bool) -> JobHandle {
    JobHandle {
        room: room.into(),
        profile: "p".into(),
        model: "m".into(),
        started_ms: 1000,
        agentic,
    }
}

#[test]
fn ids_increase_and_count_tracks() {
    let mut w = Workers::new(4);
    let a = w.insert_pending(job("!r:s", false));
    let b = w.insert_pending(job("!r:s", false));
    assert!(b > a);
    assert_eq!(w.count(), 2);
    w.remove(a);
    assert_eq!(w.count(), 1);
}

#[test]
fn agentic_serialization_is_per_room() {
    let mut w = Workers::new(4);
    w.insert_pending(job("!coding:s", true));
    assert!(w.agentic_active_in_room("!coding:s"));
    assert!(!w.agentic_active_in_room("!other:s"));
    // A non-agentic job doesn't count as an agentic occupant.
    let mut w2 = Workers::new(4);
    w2.insert_pending(job("!coding:s", false));
    assert!(!w2.agentic_active_in_room("!coding:s"));
}

#[test]
fn cancel_missing_is_false() {
    let mut w = Workers::new(4);
    assert!(!w.cancel(999));
}

#[test]
fn a_cancelled_job_is_gone_for_good() {
    let mut w = Workers::new(4);
    let a = w.insert_pending(job("!a:s", false));
    let b = w.insert_pending(job("!b:s", false));
    assert!(w.cancel(b));
    assert_eq!(w.count(), 1);
    assert_eq!(w.list(0)[0].id, a);
    assert!(!w.cancel(b));
    assert_eq!(w.count(), 1);
    let c = w.insert_pending(job("!b:s", false));
    assert_eq!((a, b, c), (1, 2, 3));
}

#[test]
fn bare_uploads_to_an_idle_room_are_acknowledged() {
    let mut ctx = test_ctx();
    let r = "!coding:srv";
    let mut att = Attachment {
        kind: AttachmentKind::File,
        filename: "a.pdf".to_string(),
        mimetype: None,
        size_bytes: None,
        width: None,
        height: None,
        duration_secs: None,
        caption: None,
    };
    assert!(ctx.acknowledges(r, &att));
    let id = ctx.workers.insert_pending(job(r, false));
    assert!(ctx.workers.active_in_room(r));
    assert!(!ctx.acknowledges(r, &att));
    assert!(ctx.acknowledges("!other:srv", &att));
    ctx.workers.remove(id);
    assert!(ctx.acknowledges(r, &att));
    att.caption = Some("look".to_string());
    assert!(!ctx.acknowledges(r, &att));
}

#[test]
fn jobs_are_listed_by_id() {
    let mut w = Workers::new(1);
    let a = w.insert_pending(job("!a:s", false));
    let b = w.insert_pending(job("!b:s", true));
    assert!(w.over_soft_cap());
    let l = w.list(4500);
    assert_eq!((l[0].id, l[1].id), (a, b));
    assert_eq!(l[0].elapsed_secs, 3);
    assert_eq!(w.list(0)[0].elapsed_secs, 0);
    assert!(w.cancel(a));
    assert!(!w.over_soft_cap());
    assert_eq!(w.list(0)[0].room, "!b:s");
}

#[test]
fn commands_are_answered() {
    let mut ctx = test_ctx();
    let r = "!coding:srv";
    assert!(ctx.handle_slash_command("hello /help", r, 0, 0).is_none());
    let help = ctx.handle_slash_command("  /HELP me", r, 0, 0).unwrap();
    assert!(help.text.starts_with("**Roger commands**\n`/help` — show this list\n"));
    let odd = ctx.handle_slash_command("/Odd one", r, 0, 0).unwrap();
    assert_eq!(odd.text, "Unknown command `/Odd`. Try `/help`.");
    assert_eq!(odd.effect, Effect::Nothing);

    ctx.history.append(r, ChatMessage::user("x"));
    let clear = ctx.handle_slash_command("/clear", r, 0, 0).unwrap();
    assert_eq!(clear.text, "History cleared.");
    assert_eq!(clear.effect, Effect::History);
    assert!(ctx.history.load(r).is_empty());
}

#[test]
fn forget_drops_memory_and_tldr() {
    let mut ctx = test_ctx();
    let r = "!coding:srv";
    ctx.memory.append_room(r, "fact");
    ctx.memory.rewrite_tldr(r, "tldr");
    ctx.memory.append_global("shared");
    let out = ctx.handle_slash_command("/forget", r, 0, 0).unwrap();
    assert_eq!(out.text, "This room's memory cleared.");
    assert_eq!(out.effect, Effect::RoomMemory);
    assert!(ctx.memory.read_room(r).is_empty());
    assert!(ctx.memory.read_tldr(r).is_empty());
    assert_eq!(ctx.memory.read_global(), "shared");
    let out = ctx.handle_slash_command("/forget  global ", r, 0, 0).unwrap();
    assert_eq!(out.text, "Global memory cleared.");
    assert!(ctx.memory.read_global().is_empty());
}

#[test]
fn clear_keeps_the_memory() {
    let mut ctx = test_ctx();
    ctx.memory.append_room("!coding:srv", "fact");
    ctx.handle_slash_command("/clear", "!coding:srv", 0, 0);
    assert_eq!(ctx.memory.read_room("!coding:srv"), "fact");
}

#[test]
fn jobs_can_be_listed_and_cancelled() {
    let mut ctx = test_ctx();
    let r = "!coding:srv";
    assert_eq!(ctx.handle_slash_command("/jobs", r, 0, 0).unwrap().text, "No active background jobs.");
    ctx.workers.insert_pending(job(r, false));
    assert_eq!(
        ctx.handle_slash_command("/jobs", r, 6000, 0).unwrap().text,
        "**Active jobs**\n`1` — p (m), 5s\n`/cancel <id>` to stop one."
    );
    assert_eq!(
        ctx.handle_slash_command("/cancel 7", r, 0, 0).unwrap().text,
        "No active job `7`. Try `/jobs`."
    );
    assert_eq!(
        ctx.handle_slash_command("/cancel x", r, 0, 0).unwrap().text,
        "Usage: `/cancel <id>` (see `/jobs`)."
    );
    let out = ctx.handle_slash_command("/cancel +1", r, 0, 0).unwrap();
    assert_eq!(out.text, "Cancelled job `1`.");
    assert_eq!(out.effect, Effect::Abort(1));
    assert_eq!(ctx.workers.count(), 0);
}

#[test]
fn status_is_exact() {
    let mut ctx = test_ctx();
    let r = "!coding:srv";
    ctx.history.append(r, ChatMessage::user("x"));
    ctx.memory.append_room(r, "abcd");
    ctx.metrics.record(100, true);
    ctx.metrics.record(201, false);
    assert_eq!(
        ctx.handle_slash_command("/status", r, 0, 3725).unwrap().text,
        "**Roger status**\nUptime: 1h 2m 5s\nProfile: reason (reason-model)\nHistory: 1 messages (this room)\nMemory: 0t global, 5t this room\nMCP: 0 server(s), 0 tool(s)\nRequests: 2 (1 errors), avg 150ms\nActive jobs: 0"
    );
}

#[test]
fn numbers_are_parsed_like_integers() {
    assert_eq!(parse_u64("0"), Some(0));
    assert_eq!(parse_u64("+007"), Some(7));
    assert_eq!(parse_u64("18446744073709551615"), Some(u64::MAX));
    assert_eq!(parse_u64("18446744073709551616"), None);
    for s in ["", "+", "-1", "1 ", "++1", "१"] {
        assert_eq!(parse_u64(s), s.parse::<u64>().ok(), "{}", s);
    }
}

#[test]
fn messages_are_heard_and_addressed() {
    let mut ctx = test_ctx();
    let r = "!coding:srv";
    assert!(ctx.hears(r, "@ann:srv"));
    assert!(!ctx.hears(r, "@roger:srv"));
    assert!(!ctx.hears("!else:srv", "@ann:srv"));
    assert!(ctx.is_addressed(r, "hey @roger, hi"));
    assert!(!ctx.is_addressed(r, "hey roger"));
    assert!(!ctx.is_addressed("!unknown:srv", "hey"));
    ctx.state.room_configs.insert(
        r.to_string(),
        RoomConfig { require_mention: false, ..RoomConfig::default() },
    );
    assert!(ctx.is_addressed(r, "hey"));
}

#[test]
fn only_allowed_rooms_are_joined() {
    let ctx = test_ctx();
    let me = "@roger:srv";
    assert_eq!(ctx.on_invite("!coding:srv", me, me, true), InviteAction::Accept);
    assert_eq!(ctx.on_invite("!else:srv", me, me, true), InviteAction::Decline);
    assert_eq!(ctx.on_invite("!coding:srv", me, me, false), InviteAction::Ignore);
    assert_eq!(ctx.on_invite("!coding:srv", "@ann:srv", me, true), InviteAction::Ignore);
}

#[test]
fn prompts_are_layered() {
    assert_eq!(
        assemble_system_prompt("base \n", "op", "", "g", "r"),
        "base\n\nop\n\n## Memory (global)\ng\n\n## Memory (this room)\nr"
    );
    assert_eq!(assemble_system_prompt("base\n\n", "", "", "", ""), "base");
}

#[test]
fn a_turn_is_planned() {
    let mut ctx = test_ctx();
    let r = "!coding:srv";
    ctx.memory.append_global("shared");
    let plan = ctx
        .begin_turn(r, "hello", &Operating { global: "op", room: "" }, Some("/home/r"), 77)
        .unwrap();
    assert_eq!(plan.profile, "reason");
    assert_eq!(plan.model, "reason-model");
    assert_eq!(plan.mode, CommsMode::Auto);
    assert!(!plan.agentic);
    assert_eq!(plan.messages.len(), 2);
    assert_eq!(plan.messages[0].content, "sys\n\nop\n\n## Memory (global)\nshared");
    assert_eq!(plan.messages[1].role, "user");
    assert_eq!(plan.messages[1].content, "hello");
    assert_eq!((plan.cadence.min_gap, plan.cadence.max_wait), (600, 1000));
    assert_eq!(plan.workdir, None);
    assert_eq!(ctx.workers.list(77)[0].id, plan.job_id);
    ctx.state.memory_enabled = false;
    let plan = ctx
        .begin_turn(r, "again", &Operating { global: "", room: "" }, None, 78)
        .unwrap();
    assert_eq!(plan.messages[0].content, "sys");
    assert_eq!(plan.messages.len(), 3);
}

#[test]
fn agents_do_not_meet_in_a_room() {
    let mut ctx = test_ctx();
    let r = "!coding:srv";
    ctx.state.llms.insert(
        "reason".to_string(),
        ProfileLlm::new(vec![Backend::Subprocess(SubprocessBackend {
            flavor: SubprocessKind::OpenCode,
            model: "agent".into(),
            base_url: "http://gw".into(),
            auth_token: None,
            workdir: None,
            permission_mode: "acceptEdits".into(),
            idle_ms: 1,
            ceiling_ms: 1,
            max_turns: None,
            max_tokens: 1024,
            context_tokens: 8192,
        })]),
    );
    let op = Operating { global: "", room: "" };
    let plan = ctx.begin_turn(r, "one", &op, None, 0).unwrap();
    assert!(plan.agentic);
    assert!(ctx.begin_turn(r, "two", &op, None, 0).is_none());
    // The message is kept all the same.
    assert_eq!(ctx.history.load(r).len(), 2);
    ctx.workers.remove(plan.job_id);
    assert!(ctx.begin_turn(r, "three", &op, None, 0).is_some());
}

#[test]
fn modes_decide_how_long_the_room_waits() {
    assert_eq!(waiting(CommsMode::Sync, 7000), Waiting::Await);
    assert_eq!(waiting(CommsMode::Async, 7000), Waiting::Detach);
    assert_eq!(waiting(CommsMode::Auto, 7000), Waiting::AwaitFor(7000));
    assert_eq!(bot_state().comms_mode_for_profile("unknown"), CommsMode::Sync);
    assert_eq!(bot_state().comms_mode_for_profile("reason"), CommsMode::Auto);
}

#[test]
fn snapshots_are_flushed_at_sentences() {
    let cadence = FlushCadence { min_gap: 250, max_wait: 1000 };
    let mut shown = ShownMessage::new();
    assert_eq!(shown.on_snapshot("Hel", 300, &cadence), Flush::Wait);
    assert_eq!(shown.on_snapshot("Hello.", 100, &cadence), Flush::Wait);
    assert_eq!(shown.on_snapshot("Hello.", 300, &cadence), Flush::Post);
    shown.flushed("Hello.");
    assert_eq!(shown.on_snapshot("Hello. Wor", 300, &cadence), Flush::Wait);
    assert_eq!(shown.on_snapshot("Hello. Wor", 1000, &cadence), Flush::Edit);
    assert_eq!(shown.on_snapshot("Hello. World!", 250, &cadence), Flush::Edit);
    assert_eq!(shown.on_snapshot("Hello.", 5000, &cadence), Flush::Wait);
    assert!(matches!(shown.finish("Hello."), FinalRender::Nothing));
    assert!(matches!(shown.finish("Hello. World!"), FinalRender::Edit(t) if t == "Hello. World!"));
    let fresh = ShownMessage::new();
    assert!(matches!(fresh.finish("Hi"), FinalRender::Send(t) if t == "Hi"));
    assert!(matches!(fresh.finish(" \n"), FinalRender::Send(t) if t == "(no response)"));
}

#[test]
fn empty_streams_are_asked_again() {
    let text = |s: &str| StreamOutcome::Text(s.to_string());
    assert!(matches!(after_stream(text("hi"), true), AfterStream::Use(t) if t == "hi"));
    assert!(matches!(after_stream(text(" "), false), AfterStream::AskAgain));
    assert!(matches!(after_stream(text(" "), true), AfterStream::Fail(e) if e == "subprocess produced no output"));
    assert!(matches!(after_stream(StreamOutcome::Failed("x".into()), false), AfterStream::AskAgain));
    assert!(matches!(after_stream(StreamOutcome::Failed("x".into()), true), AfterStream::Fail(e) if e == "x"));
    assert!(matches!(after_stream(StreamOutcome::TaskFailed("x".into()), false), AfterStream::Fail(e) if e == "stream task failed: x"));
}

#[test]
fn errors_are_told_and_not_kept() {
    let mut h = HistoryStore::new("/h");
    assert_eq!(conclude(&mut h, "!r:s", Err("boom".into())), "Sorry, I hit an error: boom");
    assert!(h.load("!r:s").is_empty());
    assert_eq!(conclude(&mut h, "!r:s", Ok("yes".into())), "yes");
    assert_eq!(h.load("!r:s")[0].role, "assistant");
}

#[test]
fn stale_overrides_are_dropped() {
    let st = bot_state();
    let mut overrides: NameMap<String> = NameMap::new();
    overrides.insert("!a:s".into(), "reason".into());
    overrides.insert("!b:s".into(), "gone".into());
    let kept = keep_built(&overrides, &st.llms);
    assert_eq!(kept.keys(), vec!["!a:s"]);
}

#[test]
fn compaction_is_due_where_its_profile_is_built() {
    let mut ctx = test_ctx();
    ctx.state.compaction.trigger_tokens = 3;
    ctx.history.append("!coding:srv", ChatMessage::user("x"));
    // The "fast" profile is not built here.
    assert!(ctx.due_compaction("!coding:srv", 0).is_none());
    ctx.state.compaction.profile = "chat".to_string();
    let p = ctx.due_compaction("!coding:srv", 0).unwrap();
    assert_eq!((p.keep_recent_turns, p.max_global_tokens, p.max_room_tokens), (8, 1500, 3000));
    ctx.state.compaction.trigger_tokens = 4;
    assert!(ctx.due_compaction("!coding:srv", 0).is_none());
}

#[test]
fn nightly_compaction_visits_every_room() {
    let mut ctx = test_ctx();
    assert!(ctx.nightly_compaction().is_none());
    ctx.state.compaction.profile = "chat".to_string();
    ctx.history.append("!b:s", ChatMessage::user("x"));
    ctx.history.append("!a:s", ChatMessage::user("x"));
    ctx.history.append("!b:s", ChatMessage::user("y"));
    let (rooms, params) = ctx.nightly_compaction().unwrap();
    assert_eq!(rooms, vec!["!b:s", "!a:s"]);
    assert_eq!(params.keep_recent_turns, 8);
}
