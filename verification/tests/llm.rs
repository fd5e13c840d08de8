use roger::history::ChatMessage;
use roger::llm::{
    answer_text, chain_next, chain_start, delta_of, failed_text, sse_payload, take_delta, Backend,
    ChainStep, Choice, LineBuffer, LlmClient, ProfileLlm, ToolLoop, ToolStep, WireMessage, MAX_TOOL_ROUNDS,
};
use roger::tools::{ToolCall, ToolFunction};
use serde_json::Value;

fn sized_client(max_tokens: u32, context_tokens: u32) -> LlmClient {
    LlmClient::new("u".into(), "m".into(), None, max_tokens, context_tokens)
}

#[test]
fn budget_reserves_response_prompt_and_margin() {
    // 8192 - (1024 + 100 + 256) = 6812
    let c = sized_client(1024, 8192);
    assert_eq!(c.history_token_budget(100), 6812);
}

#[test]
fn budget_floors_at_256_when_context_is_tiny() {
    let c = sized_client(1024, 512);
    assert_eq!(c.history_token_budget(100), 256);
}

fn dead_client(model: &str) -> Backend {
    Backend::Http(LlmClient::new("http://127.0.0.1:9/v1".into(), model.into(), None, 64, 4096))
}

#[test]
fn profile_llm_reports_chain_and_fallback_count() {
    let p = ProfileLlm::new(vec![dead_client("primary"), dead_client("backup")]);
    assert_eq!(p.model(), "primary");
    assert_eq!(p.fallback_count(), 1);
    assert_eq!(p.model_chain(), vec!["primary".to_string(), "backup".to_string()]);
}

#[test]
fn chains_advance_on_failure_only() {
    assert!(matches!(chain_start(2), ChainStep::Try(0)));
    assert!(matches!(chain_start(0), ChainStep::Failed(e) if e == "no backends configured"));
    assert!(matches!(chain_next(2, 0, Err("down".into())), ChainStep::Try(1)));
    assert!(matches!(chain_next(2, 1, Err("down too".into())), ChainStep::Failed(e) if e == "down too"));
    // Even an empty answer ends the chain.
    assert!(matches!(chain_next(2, 0, Ok(String::new())), ChainStep::Done(t) if t.is_empty()));
}

fn parse_sse_line(line: &str) -> Option<String> {
    let chunk: Value = serde_json::from_str(&sse_payload(line)?).ok()?;
    let contents = chunk.get("choices")?.as_array()?.iter().map(|c| {
        c.get("delta").and_then(|d| d.get("content")).and_then(Value::as_str).map(str::to_string)
    });
    delta_of(contents.collect())
}

#[test]
fn sse_extracts_content_delta() {
    let line = r#"data: {"choices":[{"delta":{"content":"Hello"}}]}"#;
    assert_eq!(parse_sse_line(line), Some("Hello".to_string()));
}

#[test]
fn sse_ignores_done_and_blanks_and_roles() {
    assert_eq!(parse_sse_line("data: [DONE]"), None);
    assert_eq!(parse_sse_line(""), None);
    assert_eq!(parse_sse_line(": comment"), None);
    // Role-only opening delta has no content.
    assert_eq!(
        parse_sse_line(r#"data: {"choices":[{"delta":{"role":"assistant"}}]}"#),
        None
    );
}

#[test]
fn sse_handles_empty_choices() {
    assert_eq!(parse_sse_line(r#"data: {"choices":[]}"#), None);
}

#[test]
fn the_first_choice_counts() {
    assert_eq!(delta_of(vec![]), None);
    assert_eq!(delta_of(vec![None, Some("b".to_string())]), None);
    assert_eq!(delta_of(vec![Some("a".to_string()), None]).as_deref(), Some("a"));
}

#[test]
fn payloads_stand_in_data_lines() {
    assert_eq!(sse_payload("data: {\"a\":1}").as_deref(), Some("{\"a\":1}"));
    assert_eq!(sse_payload("data:x").as_deref(), Some("x"));
    assert_eq!(sse_payload("data: [DONE]"), None);
    assert_eq!(sse_payload("data:   "), None);
    assert_eq!(sse_payload(""), None);
    assert_eq!(sse_payload(": comment"), None);
}

#[test]
fn lines_come_out_whole_however_they_are_cut() {
    let stream = "data: é1\r\n\n: c\ndata: 2\nrest".as_bytes();
    for cut in 0..stream.len() {
        let mut b = LineBuffer::new();
        let mut lines = b.feed(&stream[..cut]);
        lines.extend(b.feed(&stream[cut..]));
        assert_eq!(lines, vec!["data: é1", "", ": c", "data: 2"]);
    }
    let mut b = LineBuffer::new();
    assert_eq!(b.feed(&[b'a', 0xff, b'\n']), vec!["a\u{fffd}"]);
}

#[test]
fn deltas_add_up() {
    let mut full = String::new();
    assert_eq!(take_delta(&mut full, Some("Hel")).as_deref(), Some("Hel"));
    assert_eq!(take_delta(&mut full, Some("")), None);
    assert_eq!(take_delta(&mut full, None), None);
    assert_eq!(take_delta(&mut full, Some("lo")).as_deref(), Some("Hello"));
}

fn asked(id: &str) -> ToolCall {
    ToolCall {
        id: id.into(),
        kind: "function".into(),
        function: ToolFunction { name: "web_fetch".into(), arguments: "{}".into() },
    }
}

fn calling(ids: &[&str]) -> Option<Choice> {
    Some(Choice {
        content: None,
        tool_calls: Some(ids.iter().map(|i| asked(i)).collect()),
        finish_reason: Some("tool_calls".into()),
    })
}

#[test]
fn tool_results_are_appended_under_their_ids() {
    let mut l = ToolLoop::new(&[ChatMessage::user("hi")]);
    match l.on_reply(calling(&["a", "b"])) {
        ToolStep::Run(calls) => assert_eq!(calls.len(), 2),
        other => panic!("{:?}", other),
    }
    assert!(matches!(l.on_results(vec!["ra".into(), "rb".into()]), ToolStep::Ask));
    let m = l.messages();
    assert_eq!(m.len(), 4);
    assert!(matches!(&m[0], WireMessage::Chat { role, content } if role == "user" && content == "hi"));
    assert!(matches!(&m[1], WireMessage::Calls(c) if c[1].id == "b"));
    assert!(matches!(&m[3], WireMessage::ToolResult { tool_call_id, content } if tool_call_id == "b" && content == "rb"));
}

#[test]
fn tool_rounds_are_bounded() {
    let mut l = ToolLoop::new(&[]);
    for round in 1..=MAX_TOOL_ROUNDS {
        assert!(matches!(l.on_reply(calling(&["a"])), ToolStep::Run(_)));
        let next = l.on_results(vec!["r".into()]);
        if round < MAX_TOOL_ROUNDS {
            assert!(matches!(next, ToolStep::Ask));
        } else {
            assert!(matches!(next, ToolStep::Stream));
        }
    }
}

#[test]
fn answers_end_the_tool_loop() {
    let mut l = ToolLoop::new(&[]);
    let said = |t: &str| Some(Choice { content: Some(t.into()), tool_calls: None, finish_reason: Some("stop".into()) });
    assert!(matches!(l.on_reply(said("done")), ToolStep::Answer(t) if t == "done"));
    assert!(matches!(l.on_reply(said("")), ToolStep::Stream));
    assert!(matches!(l.on_reply(None), ToolStep::Fail(e) if e == "empty choices"));
    // Calls without the finish reason are not run.
    let stray = Some(Choice { content: Some("t".into()), tool_calls: Some(vec![asked("a")]), finish_reason: None });
    assert!(matches!(l.on_reply(stray), ToolStep::Answer(t) if t == "t"));
}

#[test]
fn requests_are_addressed() {
    let c = LlmClient::new("http://x/v1/".into(), "m".into(), Some("SECRET-REDACTED".into()), 1, 2);
    assert_eq!(c.completions_url(), "http://x/v1/chat/completions");
    assert_eq!(c.bearer(), Some("SECRET-REDACTED"));
    let c = LlmClient::new("http://x".into(), "m".into(), Some(String::new()), 1, 2);
    assert_eq!(c.bearer(), None);
    assert_eq!(failed_text("500 Oops", "body"), "LLM request failed 500 Oops: body");
    assert_eq!(answer_text(None), "(no response)");
    let said = Choice { content: Some("x".into()), tool_calls: None, finish_reason: None };
    assert_eq!(answer_text(Some(said)), "x");
}
