//! Model backends: what is sent to them, how their answers are read, and when the next one of a
//! profile is tried.

use crate::history::ChatMessage;
use crate::text;
use crate::text::Class;
use crate::tools::ToolCall;
use vstd::prelude::*;
use vstd::string::*;
use vstd::utf8::*;

verus! {

/// A message of a request.
#[derive(Debug)]
pub enum WireMessage {
    /// A turn of the conversation.
    Chat { role: String, content: String },
    /// The assistant's turn that called tools.
    Calls(Vec<ToolCall>),
    /// The result of one call.
    ToolResult { tool_call_id: String, content: String },
}

/// A message of a request, by its texts.
pub enum WireView {
    Chat { role: Seq<char>, content: Seq<char> },
    Calls(Seq<ToolCall>),
    ToolResult { tool_call_id: Seq<char>, content: Seq<char> },
}

impl View for WireMessage {
    type V = WireView;

    open spec fn view(&self) -> WireView {
        match self {
            WireMessage::Chat { role, content } => WireView::Chat { role: role@, content: content@ },
            WireMessage::Calls(calls) => WireView::Calls(calls@),
            WireMessage::ToolResult { tool_call_id, content } => WireView::ToolResult {
                tool_call_id: tool_call_id@,
                content: content@,
            },
        }
    }
}

/// The messages of a request, by their texts.
pub open spec fn wire_views(messages: Seq<WireMessage>) -> Seq<WireView> {
    messages.map_values(|m: WireMessage| m@)
}

/// A conversation as the messages of a request.
pub open spec fn conversation(messages: Seq<ChatMessage>) -> Seq<WireView> {
    messages.map_values(
        |m: ChatMessage| WireView::Chat { role: m.role@, content: m.content@ },
    )
}

/// A conversation as the messages of a request.
pub fn wire_messages(messages: &[ChatMessage]) -> (r: Vec<WireMessage>)
    ensures
        wire_views(r@) == conversation(messages@),
{
    let mut out: Vec<WireMessage> = Vec::new();
    let mut i: usize = 0;
    assert(wire_views(out@) =~= conversation(messages@).take(0));
    while i < messages.len()
        invariant
            i <= messages.len(),
            wire_views(out@) == conversation(messages@).take(i as int),
        decreases messages.len() - i,
    {
        let ghost before = out@;
        let m = WireMessage::Chat {
            role: messages[i].role.clone(),
            content: messages[i].content.clone(),
        };
        let ghost mv = m@;
        out.push(m);
        proof {
            assert(wire_views(out@) =~= wire_views(before).push(mv));
            assert(conversation(messages@).take(i + 1) =~= conversation(messages@).take(
                i as int,
            ).push(mv));
        }
        i += 1;
    }
    assert(conversation(messages@).take(messages@.len() as int) =~= conversation(messages@));
    out
}

/// An OpenAI-compatible REST backend.
#[derive(Debug, Clone)]
pub struct LlmClient {
    pub base_url: String,
    pub model: String,
    pub api_key: Option<String>,
    pub max_tokens: u32,
    pub context_tokens: u32,
}

/// Tokens that are left for the history: the context without the response, the system prompt and a
/// margin of 256, and never less than 256.
pub open spec fn history_budget(context_tokens: u32, max_tokens: u32, prompt_tokens: usize) -> int {
    let left = context_tokens - (max_tokens + prompt_tokens + 256);
    if left < 256 {
        256
    } else {
        left
    }
}

/// Tokens that are left for the history.
fn budget(context_tokens: u32, max_tokens: u32, prompt_tokens: usize) -> (r: usize)
    ensures
        r == history_budget(context_tokens, max_tokens, prompt_tokens),
{
    let reserved: u128 = max_tokens as u128 + prompt_tokens as u128 + 256;
    let context: u128 = context_tokens as u128;
    if context < reserved + 256 {
        256
    } else {
        (context - reserved) as usize
    }
}

impl LlmClient {
    /// A client for the model `model` at `base_url`.
    pub fn new(
        base_url: String,
        model: String,
        api_key: Option<String>,
        max_tokens: u32,
        context_tokens: u32,
    ) -> (r: Self)
        ensures
            r == (LlmClient { base_url, model, api_key, max_tokens, context_tokens }),
    {
        LlmClient { base_url, model, api_key, max_tokens, context_tokens }
    }

    /// The model name this client sends requests for.
    pub fn model(&self) -> (r: &str)
        ensures
            r@ == self.model@,
    {
        self.model.as_str()
    }

    /// Token budget available for conversation history, after reserving space for
    /// the system prompt and the response. Never returns less than 256.
    pub fn history_token_budget(&self, system_prompt_tokens: usize) -> (r: usize)
        ensures
            r == history_budget(self.context_tokens, self.max_tokens, system_prompt_tokens),
            r >= 256,
    {
        budget(self.context_tokens, self.max_tokens, system_prompt_tokens)
    }

    /// Where requests are sent.
    pub fn completions_url(&self) -> (r: String)
        ensures
            r@ == text::trim_back(self.base_url@, Class::Only('/')) + "/chat/completions"@,
    {
        let v = text::chars_of(self.base_url.as_str());
        let mut url = text::string_of(text::skip_back(v.as_slice(), Class::Only('/')));
        url.append("/chat/completions");
        url
    }

    /// The bearer token of a request: the key, where it is set and not empty.
    pub fn bearer(&self) -> (r: Option<&str>)
        ensures
            match (r, self.api_key) {
                (Some(t), Some(key)) => t@ == key@ && key@.len() > 0,
                (None, Some(key)) => key@.len() == 0,
                (Some(_), None) => false,
                (None, None) => true,
            },
    {
        match &self.api_key {
            Some(key) => if text::chars_of(key.as_str()).len() > 0 {
                Some(key.as_str())
            } else {
                None
            },
            None => None,
        }
    }
}

/// What a backend answered a request with, by its first choice. `None` where it gave no choice.
#[derive(Debug)]
pub struct Choice {
    pub content: Option<String>,
    pub tool_calls: Option<Vec<ToolCall>>,
    pub finish_reason: Option<String>,
}

/// The text of a plain answer: the content of the first choice.
pub fn answer_text(choice: Option<Choice>) -> (r: String)
    ensures
        r@ == (match choice {
            Some(c) => match c.content {
                Some(t) => t@,
                None => "(no response)"@,
            },
            None => "(no response)"@,
        }),
{
    match choice {
        Some(c) => match c.content {
            Some(t) => t,
            None => "(no response)".to_owned(),
        },
        None => "(no response)".to_owned(),
    }
}

/// The error of a request that was answered without success.
pub fn failed_text(status: &str, body: &str) -> (r: String)
    ensures
        r@ == "LLM request failed "@ + status@ + ": "@ + body@,
{
    let mut out = "LLM request failed ".to_owned();
    out.append(status);
    out.append(": ");
    out.append(body);
    out
}

/// How often the model may call tools before it has to answer.
pub const MAX_TOOL_ROUNDS: usize = 5;

/// What comes next in a conversation with tools.
#[derive(Debug)]
pub enum ToolStep {
    /// Send the messages, with the tools.
    Ask,
    /// Run the calls, in order, and hand back their results.
    Run(Vec<ToolCall>),
    /// This is the answer.
    Answer(String),
    /// Stream the answer to the messages, without tools.
    Stream,
    /// The backend failed, for this reason.
    Fail(String),
}

/// The state of a conversation with tools: the messages so far, the rounds of calls that are done,
/// and the calls whose results are awaited.
#[verifier::ext_equal]
pub struct LoopView {
    pub messages: Seq<WireView>,
    pub rounds: nat,
    pub awaited: Option<Seq<ToolCall>>,
}

/// What comes next, by its texts.
pub enum StepView {
    Ask,
    Run(Seq<ToolCall>),
    Answer(Seq<char>),
    Stream,
    Fail(Seq<char>),
}

impl View for ToolStep {
    type V = StepView;

    open spec fn view(&self) -> StepView {
        match self {
            ToolStep::Ask => StepView::Ask,
            ToolStep::Run(calls) => StepView::Run(calls@),
            ToolStep::Answer(t) => StepView::Answer(t@),
            ToolStep::Stream => StepView::Stream,
            ToolStep::Fail(e) => StepView::Fail(e@),
        }
    }
}

/// Whether a choice calls tools.
pub open spec fn calls_tools(c: Choice) -> bool {
    &&& c.tool_calls is Some
    &&& c.finish_reason matches Some(f)
    &&& f@ == "tool_calls"@
}

/// After the model's answer: its calls are run; without calls its text is the answer, and where it
/// has none, the answer is streamed.
pub open spec fn after_reply(s: LoopView, choice: Option<Choice>) -> (LoopView, StepView) {
    match choice {
        None => (s, StepView::Fail("empty choices"@)),
        Some(c) => if calls_tools(c) {
            let calls = c.tool_calls->Some_0@;
            (
                LoopView {
                    messages: s.messages.push(WireView::Calls(calls)),
                    rounds: s.rounds,
                    awaited: Some(calls),
                },
                StepView::Run(calls),
            )
        } else {
            match c.content {
                Some(t) if t@.len() > 0 => (s, StepView::Answer(t@)),
                _ => (s, StepView::Stream),
            }
        },
    }
}

/// The results of calls as messages, each under the id of its call.
pub open spec fn result_messages(calls: Seq<ToolCall>, results: Seq<String>) -> Seq<WireView> {
    Seq::new(
        calls.len(),
        |i: int| WireView::ToolResult { tool_call_id: calls[i].id@, content: results[i]@ },
    )
}

/// After the results of the awaited calls: the model is asked again, until the rounds are used up.
pub open spec fn after_results(s: LoopView, results: Seq<String>) -> (LoopView, StepView) {
    let calls = s.awaited->Some_0;
    (
        LoopView {
            messages: s.messages + result_messages(calls, results),
            rounds: s.rounds + 1,
            awaited: None,
        },
        if s.rounds + 1 < MAX_TOOL_ROUNDS {
            StepView::Ask
        } else {
            StepView::Stream
        },
    )
}

/// How often the model is asked from `step` on, where its answers and the results of the calls in
/// them come as given.
pub open spec fn times_asked(
    s: LoopView,
    step: StepView,
    feed: Seq<(Option<Choice>, Seq<String>)>,
) -> nat
    decreases feed.len(),
{
    if step is Ask && feed.len() > 0 {
        let (called, next) = after_reply(s, feed[0].0);
        if next is Run {
            let (answered, then) = after_results(called, feed[0].1);
            1 + times_asked(answered, then, feed.drop_first())
        } else {
            1
        }
    } else {
        0
    }
}

/// Whatever the model answers, it is asked no more often than there are rounds.
pub proof fn law_tool_rounds_are_bounded(
    s: LoopView,
    step: StepView,
    feed: Seq<(Option<Choice>, Seq<String>)>,
)
    requires
        s.rounds <= MAX_TOOL_ROUNDS,
        step is Ask ==> s.rounds < MAX_TOOL_ROUNDS,
    ensures
        s.rounds + times_asked(s, step, feed) <= MAX_TOOL_ROUNDS,
    decreases feed.len(),
{
    if step is Ask && feed.len() > 0 {
        let (called, next) = after_reply(s, feed[0].0);
        if next is Run {
            let (answered, then) = after_results(called, feed[0].1);
            law_tool_rounds_are_bounded(answered, then, feed.drop_first());
        }
    }
}

/// No message that was sent is changed or dropped: an answer and the results of its calls come
/// behind the messages that were there.
pub proof fn law_messages_are_kept(s: LoopView, choice: Option<Choice>, results: Seq<String>)
    ensures
        s.messages.is_prefix_of(after_reply(s, choice).0.messages),
        s.messages.is_prefix_of(after_results(s, results).0.messages),
{
}

/// A conversation with tools.
pub struct ToolLoop {
    messages: Vec<WireMessage>,
    rounds: usize,
    awaited: Option<Vec<ToolCall>>,
}

impl View for ToolLoop {
    type V = LoopView;

    closed spec fn view(&self) -> LoopView {
        LoopView {
            messages: wire_views(self.messages@),
            rounds: self.rounds as nat,
            awaited: match self.awaited {
                Some(calls) => Some(calls@),
                None => None,
            },
        }
    }
}

/// Copies a list of calls.
fn copy_calls(calls: &[ToolCall]) -> (r: Vec<ToolCall>)
    ensures
        r@ == calls@,
{
    let mut out: Vec<ToolCall> = Vec::new();
    let mut i: usize = 0;
    while i < calls.len()
        invariant
            i <= calls.len(),
            out@ == calls@.take(i as int),
        decreases calls.len() - i,
    {
        out.push(calls[i].clone());
        assert(calls@.take(i + 1) == calls@.take(i as int).push(calls@[i as int]));
        i += 1;
    }
    assert(calls@.take(calls@.len() as int) == calls@);
    out
}

impl ToolLoop {
    #[verifier::type_invariant]
    closed spec fn within_rounds(self) -> bool {
        self.rounds <= MAX_TOOL_ROUNDS
    }

    /// A conversation that starts with the given messages; the model is asked first.
    pub fn new(messages: &[ChatMessage]) -> (r: Self)
        ensures
            r@ == (LoopView {
                messages: conversation(messages@),
                rounds: 0,
                awaited: None,
            }),
    {
        ToolLoop { messages: wire_messages(messages), rounds: 0, awaited: None }
    }

    /// The messages so far.
    pub fn messages(&self) -> (r: &[WireMessage])
        ensures
            wire_views(r@) == self@.messages,
    {
        self.messages.as_slice()
    }

    /// Takes the model's answer.
    pub fn on_reply(&mut self, choice: Option<Choice>) -> (r: ToolStep)
        ensures
            final(self)@ == after_reply(old(self)@, choice).0,
            r@ == after_reply(old(self)@, choice).1,
    {
        proof {
            use_type_invariant(&*self);
        }
        let c = match choice {
            None => {
                return ToolStep::Fail("empty choices".to_owned());
            },
            Some(c) => c,
        };
        let asked = match &c.finish_reason {
            Some(f) => text::same(f.as_str(), "tool_calls"),
            None => false,
        };
        if asked {
            if let Some(calls) = c.tool_calls {
                let kept = copy_calls(calls.as_slice());
                let told = copy_calls(calls.as_slice());
                let mut messages: Vec<WireMessage> = Vec::new();
                std::mem::swap(&mut messages, &mut self.messages);
                let ghost before = messages@;
                messages.push(WireMessage::Calls(told));
                assert(wire_views(messages@) =~= wire_views(before).push(
                    WireView::Calls(calls@),
                ));
                self.messages = messages;
                self.awaited = Some(kept);
                assert(self@ =~= after_reply(old(self)@, choice).0);
                return ToolStep::Run(calls);
            }
        }
        match c.content {
            Some(t) => if text::chars_of(t.as_str()).len() > 0 {
                ToolStep::Answer(t)
            } else {
                ToolStep::Stream
            },
            None => ToolStep::Stream,
        }
    }

    /// Takes the results of the awaited calls, one for each.
    pub fn on_results(&mut self, results: Vec<String>) -> (r: ToolStep)
        requires
            old(self)@.awaited matches Some(calls) && calls.len() == results@.len(),
            old(self)@.rounds < MAX_TOOL_ROUNDS,
        ensures
            final(self)@ == after_results(old(self)@, results@).0,
            r@ == after_results(old(self)@, results@).1,
    {
        proof {
            use_type_invariant(&*self);
        }
        let mut awaited: Option<Vec<ToolCall>> = None;
        std::mem::swap(&mut awaited, &mut self.awaited);
        let mut messages: Vec<WireMessage> = Vec::new();
        std::mem::swap(&mut messages, &mut self.messages);
        let ghost before = wire_views(messages@);
        if let Some(calls) = awaited {
            let ghost all = result_messages(calls@, results@);
            let mut i: usize = 0;
            assert(wire_views(messages@) =~= before + all.take(0));
            while i < calls.len()
                invariant
                    i <= calls.len(),
                    calls.len() == results.len(),
                    all == result_messages(calls@, results@),
                    wire_views(messages@) == before + all.take(i as int),
                decreases calls.len() - i,
            {
                let ghost then = messages@;
                messages.push(
                    WireMessage::ToolResult {
                        tool_call_id: calls[i].id.clone(),
                        content: results[i].clone(),
                    },
                );
                proof {
                    assert(wire_views(messages@) =~= wire_views(then).push(all[i as int]));
                    assert(before + all.take(i + 1) =~= (before + all.take(i as int)).push(
                        all[i as int],
                    ));
                }
                i += 1;
            }
            assert(all.take(all.len() as int) =~= all);
        }
        self.messages = messages;
        self.rounds = self.rounds + 1;
        if self.rounds < MAX_TOOL_ROUNDS {
            ToolStep::Ask
        } else {
            ToolStep::Stream
        }
    }
}

/// The payload of a `data:` line of an event stream; `None` for comments, blanks and `[DONE]`.
pub open spec fn payload_of(line: Seq<char>) -> Option<Seq<char>> {
    if text::starts_with(line, "data:"@) {
        let payload = text::trim(line.skip(5));
        if payload.len() == 0 || payload == "[DONE]"@ {
            None
        } else {
            Some(payload)
        }
    } else {
        None
    }
}

/// The payload of a `data:` line of an event stream, where it carries a chunk.
pub fn sse_payload(line: &str) -> (r: Option<String>)
    ensures
        text::opt_string(r) == payload_of(line@),
{
    if !text::has_prefix(line, "data:") {
        return None;
    }
    proof {
        reveal_strlit("data:");
    }
    let v = text::chars_of(line);
    let rest = vstd::slice::slice_subrange(v.as_slice(), 5, v.len());
    let payload = text::string_of(text::skip_both(rest, Class::Space));
    assert(rest@ == line@.skip(5));
    if text::chars_of(payload.as_str()).len() == 0 || text::same(payload.as_str(), "[DONE]") {
        None
    } else {
        Some(payload)
    }
}

/// The text of a byte sequence, what is not UTF-8 in it replaced.
pub uninterp spec fn utf8_lossy(bytes: Seq<u8>) -> Seq<char>;

/// `String::from_utf8_lossy`: the text depends on the bytes alone, and where they are UTF-8 it is
/// what they encode.
#[verifier::external_body]
fn decode_lossy(bytes: &[u8]) -> (r: String)
    ensures
        r@ == utf8_lossy(bytes@),
        valid_utf8(bytes@) ==> r@ == decode_utf8(bytes@),
{
    String::from_utf8_lossy(bytes).into_owned()
}

/// The place of the first line feed.
pub open spec fn newline_at(bytes: Seq<u8>) -> Option<int>
    decreases bytes.len(),
{
    if bytes.len() == 0 {
        None
    } else if bytes[0] == 10 {
        Some(0)
    } else {
        match newline_at(bytes.drop_first()) {
            Some(i) => Some(i + 1),
            None => None,
        }
    }
}

/// `newline_at` gives the first line feed.
pub proof fn lemma_newline_at(bytes: Seq<u8>)
    ensures
        match newline_at(bytes) {
            Some(i) => 0 <= i < bytes.len() && bytes[i] == 10 && forall|j: int|
                0 <= j < i ==> bytes[j] != 10,
            None => forall|j: int| 0 <= j < bytes.len() ==> bytes[j] != 10,
        },
    decreases bytes.len(),
{
    if bytes.len() > 0 && bytes[0] != 10 {
        let t = bytes.drop_first();
        lemma_newline_at(t);
        match newline_at(t) {
            Some(i) => {
                assert forall|j: int| 0 <= j < i + 1 implies bytes[j] != 10 by {
                    if j > 0 {
                        assert(t[j - 1] == bytes[j]);
                    }
                }
            },
            None => {
                assert forall|j: int| 0 <= j < bytes.len() implies bytes[j] != 10 by {
                    if j > 0 {
                        assert(t[j - 1] == bytes[j]);
                    }
                }
            },
        }
    }
}

/// The complete lines of a stream, each with its line feed.
pub open spec fn full_lines(bytes: Seq<u8>) -> Seq<Seq<u8>>
    decreases bytes.len(),
{
    match newline_at(bytes) {
        Some(i) => {
            proof {
                lemma_newline_at(bytes);
            }
            seq![bytes.take(i + 1)] + full_lines(bytes.skip(i + 1))
        },
        None => Seq::empty(),
    }
}

/// What stands behind the last complete line.
pub open spec fn open_line(bytes: Seq<u8>) -> Seq<u8>
    decreases bytes.len(),
{
    match newline_at(bytes) {
        Some(i) => {
            proof {
                lemma_newline_at(bytes);
            }
            open_line(bytes.skip(i + 1))
        },
        None => bytes,
    }
}

/// However a stream is cut into chunks, the same lines come out of it: the lines of the first chunk,
/// and then those of the next behind what was left over.
pub proof fn law_chunks_do_not_matter(a: Seq<u8>, b: Seq<u8>)
    ensures
        full_lines(a + b) == full_lines(a) + full_lines(open_line(a) + b),
        open_line(a + b) == open_line(open_line(a) + b),
    decreases a.len(),
{
    lemma_newline_at(a);
    match newline_at(a) {
        Some(i) => {
            lemma_newline_at(a + b);
            let k = newline_at(a + b)->Some_0;
            assert((a + b)[i] == 10);
            assert(newline_at(a + b) is Some);
            if k < i {
                assert(a[k] == 10);
            } else if i < k {
                assert((a + b)[i] != 10);
            }
            assert((a + b).take(i + 1) =~= a.take(i + 1));
            assert((a + b).skip(i + 1) =~= a.skip(i + 1) + b);
            law_chunks_do_not_matter(a.skip(i + 1), b);
            assert(full_lines(a + b) =~= full_lines(a) + full_lines(open_line(a) + b));
        },
        None => {
            assert(full_lines(a) + full_lines(a + b) =~= full_lines(a + b));
        },
    }
}

/// The lines of an event stream as texts, trimmed.
pub open spec fn line_texts(lines: Seq<Seq<u8>>) -> Seq<Seq<char>> {
    lines.map_values(|l: Seq<u8>| text::trim(utf8_lossy(l)))
}

/// Cuts an event stream into lines as its chunks come in.
pub struct LineBuffer {
    rest: Vec<u8>,
}

impl View for LineBuffer {
    type V = Seq<u8>;

    closed spec fn view(&self) -> Seq<u8> {
        self.rest@
    }
}

/// The place of the first line feed.
fn find_newline(bytes: &[u8]) -> (r: Option<usize>)
    ensures
        match r {
            Some(i) => newline_at(bytes@) == Some(i as int) && i < bytes.len(),
            None => newline_at(bytes@) is None,
        },
{
    let mut i: usize = 0;
    assert(bytes@.skip(0) == bytes@);
    while i < bytes.len()
        invariant
            i <= bytes.len(),
            newline_at(bytes@) == (match newline_at(bytes@.skip(i as int)) {
                Some(k) => Some(k + i),
                None => None,
            }),
        decreases bytes.len() - i,
    {
        if bytes[i] == 10 {
            return Some(i);
        }
        assert(bytes@.skip(i as int).drop_first() == bytes@.skip(i + 1));
        i += 1;
    }
    None
}

/// Copies the bytes of `v` to the end of `out`.
fn push_bytes(out: &mut Vec<u8>, v: &[u8])
    ensures
        final(out)@ == old(out)@ + v@,
{
    let ghost start = out@;
    let mut i: usize = 0;
    while i < v.len()
        invariant
            i <= v.len(),
            out@ == start + v@.take(i as int),
        decreases v.len() - i,
    {
        out.push(v[i]);
        assert(start + v@.take(i + 1) == (start + v@.take(i as int)).push(v@[i as int]));
        i += 1;
    }
    assert(v@.take(v@.len() as int) == v@);
}

impl LineBuffer {
    /// A buffer at the start of a stream.
    pub fn new() -> (r: Self)
        ensures
            r@ == Seq::<u8>::empty(),
    {
        LineBuffer { rest: Vec::new() }
    }

    /// Takes the next chunk and gives out the lines that are complete now, trimmed.
    pub fn feed(&mut self, chunk: &[u8]) -> (r: Vec<String>)
        ensures
            final(self)@ == open_line(old(self)@ + chunk@),
            text::views(r@) == line_texts(full_lines(old(self)@ + chunk@)),
    {
        let mut all: Vec<u8> = Vec::new();
        push_bytes(&mut all, self.rest.as_slice());
        push_bytes(&mut all, chunk);
        assert(all@ == old(self)@ + chunk@);
        let mut lines: Vec<String> = Vec::new();
        let mut rest: &[u8] = all.as_slice();
        let ghost stream = all@;
        let ghost mut seen: Seq<Seq<u8>> = Seq::empty();
        proof {
            assert(text::views(lines@) =~= line_texts(seen));
            assert(seen + full_lines(stream) =~= full_lines(stream));
        }
        loop
            invariant
                full_lines(stream) == seen + full_lines(rest@),
                open_line(stream) == open_line(rest@),
                text::views(lines@) == line_texts(seen),
            ensures
                full_lines(stream) == seen,
                open_line(stream) == rest@,
                text::views(lines@) == line_texts(seen),
            decreases rest.len(),
        {
            match find_newline(rest) {
                None => {
                    assert(seen + Seq::<Seq<u8>>::empty() =~= seen);
                    break;
                },
                Some(i) => {
                    let line = vstd::slice::slice_subrange(rest, 0, i + 1);
                    let decoded = decode_lossy(line);
                    let trimmed = text::trimmed(decoded.as_str());
                    let ghost before = lines@;
                    let ghost t = trimmed@;
                    lines.push(trimmed);
                    proof {
                        let l = rest@.take(i + 1);
                        assert(line@ == l);
                        assert(text::views(lines@) =~= text::views(before).push(t));
                        assert(line_texts(seen.push(l)) =~= line_texts(seen).push(t));
                        assert(seen + (seq![l] + full_lines(rest@.skip(i + 1))) =~= seen.push(l)
                            + full_lines(rest@.skip(i + 1)));
                        seen = seen.push(l);
                    }
                    rest = vstd::slice::slice_subrange(rest, i + 1, rest.len());
                },
            }
        }
        let mut left: Vec<u8> = Vec::new();
        push_bytes(&mut left, rest);
        self.rest = left;
        lines
    }
}

/// The content delta of a chunk, given the content of each of its choices: that of the first.
pub fn delta_of(choices: Vec<Option<String>>) -> (r: Option<String>)
    ensures
        text::opt_string(r) == (if choices@.len() == 0 {
            None
        } else {
            text::opt_string(choices@[0])
        }),
{
    let mut left = choices;
    if left.len() == 0 {
        None
    } else {
        left.remove(0)
    }
}

/// Collects the text of a streamed answer. Each delta that holds something gives a snapshot of the
/// text so far.
pub fn take_delta(full: &mut String, delta: Option<&str>) -> (r: Option<String>)
    ensures
        match delta {
            Some(d) if d@.len() > 0 => {
                &&& final(full)@ == old(full)@ + d@
                &&& r matches Some(s)
                &&& s@ == final(full)@
            },
            _ => final(full)@ == old(full)@ && r is None,
        },
{
    match delta {
        Some(d) => if text::chars_of(d).len() > 0 {
            full.append(d);
            Some(full.clone())
        } else {
            None
        },
        None => None,
    }
}

/// A CLI coding agent, run as a subprocess.
#[derive(Debug, Clone)]
pub struct SubprocessBackend {
    pub flavor: SubprocessKind,
    pub model: String,
    pub base_url: String,
    pub auth_token: Option<String>,
    pub workdir: Option<String>,
    pub permission_mode: String,
    pub idle_ms: u64,
    pub ceiling_ms: u64,
    pub max_turns: Option<u32>,
    pub max_tokens: u32,
    pub context_tokens: u32,
}

/// Which CLI a subprocess backend runs.
#[derive(Debug, Clone, Copy, PartialEq, Eq, Structural)]
pub enum SubprocessKind {
    ClaudeCode,
    OpenCode,
}

/// A backend of a profile.
#[derive(Debug, Clone)]
pub enum Backend {
    Http(LlmClient),
    Subprocess(SubprocessBackend),
}

impl Backend {
    /// The model it answers with.
    pub open spec fn model_view(self) -> Seq<char> {
        match self {
            Backend::Http(c) => c.model@,
            Backend::Subprocess(s) => s.model@,
        }
    }

    /// Tokens that are left for the history.
    pub open spec fn budget_view(self, prompt_tokens: usize) -> int {
        match self {
            Backend::Http(c) => history_budget(c.context_tokens, c.max_tokens, prompt_tokens),
            Backend::Subprocess(s) => history_budget(s.context_tokens, s.max_tokens, prompt_tokens),
        }
    }

    /// The model it answers with.
    pub fn model(&self) -> (r: &str)
        ensures
            r@ == self.model_view(),
    {
        match self {
            Backend::Http(c) => c.model(),
            Backend::Subprocess(s) => s.model.as_str(),
        }
    }

    /// Tokens that are left for the history.
    pub fn history_token_budget(&self, system_prompt_tokens: usize) -> (r: usize)
        ensures
            r == self.budget_view(system_prompt_tokens),
            r >= 256,
    {
        match self {
            Backend::Http(c) => c.history_token_budget(system_prompt_tokens),
            Backend::Subprocess(s) => budget(s.context_tokens, s.max_tokens, system_prompt_tokens),
        }
    }
}

/// An LLM profile backed by an ordered chain of backends: a primary and zero or
/// more fallbacks. Each call tries them in order, advancing to the next only
/// when one fails to produce a response (transport error or non-2xx). A backend
/// that returns successfully — even with empty text — ends the chain.
pub struct ProfileLlm {
    clients: Vec<Backend>,
}

impl View for ProfileLlm {
    type V = Seq<Backend>;

    closed spec fn view(&self) -> Seq<Backend> {
        self.clients@
    }
}

impl ProfileLlm {
    #[verifier::type_invariant]
    closed spec fn has_primary(self) -> bool {
        self.clients@.len() > 0
    }

    /// `clients` must be non-empty, primary first.
    pub fn new(clients: Vec<Backend>) -> (r: Self)
        requires
            clients@.len() > 0,
        ensures
            r@ == clients@,
    {
        ProfileLlm { clients }
    }

    /// The backends, primary first.
    pub fn clients(&self) -> (r: &[Backend])
        ensures
            r@ == self@,
            r@.len() > 0,
    {
        proof {
            use_type_invariant(self);
        }
        self.clients.as_slice()
    }

    /// The primary model name (shown in `/status` and logs).
    pub fn model(&self) -> (r: &str)
        ensures
            self@.len() > 0,
            r@ == self@[0].model_view(),
    {
        proof {
            use_type_invariant(self);
        }
        self.clients[0].model()
    }

    /// Whether the primary backend is an agentic subprocess.
    pub fn is_subprocess(&self) -> (r: bool)
        ensures
            self@.len() > 0,
            r == (self@[0] is Subprocess),
    {
        proof {
            use_type_invariant(self);
        }
        match &self.clients[0] {
            Backend::Http(_) => false,
            Backend::Subprocess(_) => true,
        }
    }

    /// Number of fallback clients behind the primary.
    pub fn fallback_count(&self) -> (r: usize)
        ensures
            r == self@.len() - 1,
    {
        proof {
            use_type_invariant(self);
        }
        self.clients.len() - 1
    }

    /// Model names in priority order (primary first).
    pub fn model_chain(&self) -> (r: Vec<String>)
        ensures
            text::views(r@) == self@.map_values(|b: Backend| b.model_view()),
    {
        let mut out: Vec<String> = Vec::new();
        let ghost all = self@.map_values(|b: Backend| b.model_view());
        let mut i: usize = 0;
        assert(text::views(out@) =~= all.take(0));
        while i < self.clients.len()
            invariant
                i <= self.clients.len(),
                all == self@.map_values(|b: Backend| b.model_view()),
                text::views(out@) == all.take(i as int),
            decreases self.clients.len() - i,
        {
            let ghost before = out@;
            out.push(self.clients[i].model().to_owned());
            assert(text::views(out@) =~= text::views(before).push(all[i as int]));
            assert(all.take(i + 1) =~= all.take(i as int).push(all[i as int]));
            i += 1;
        }
        assert(all.take(all.len() as int) =~= all);
        out
    }

    /// History token budget, sized from the primary client.
    pub fn history_token_budget(&self, system_prompt_tokens: usize) -> (r: usize)
        ensures
            self@.len() > 0,
            r == self@[0].budget_view(system_prompt_tokens),
            r >= 256,
    {
        proof {
            use_type_invariant(self);
        }
        self.clients[0].history_token_budget(system_prompt_tokens)
    }
}

/// What comes next in a chain of backends.
#[derive(Debug)]
pub enum ChainStep {
    /// Try the backend at this place.
    Try(usize),
    /// A backend answered.
    Done(String),
    /// None answered; this is what the last one said.
    Failed(String),
}

/// The outcome of a chain: the first success, else the last error, where the backends fail or
/// succeed as given.
pub open spec fn chain_outcome(outcomes: Seq<Result<Seq<char>, Seq<char>>>) -> Result<
    Seq<char>,
    Seq<char>,
>
    decreases outcomes.len(),
{
    if outcomes.len() == 0 {
        Err("no backends configured"@)
    } else {
        match outcomes[0] {
            Ok(t) => Ok(t),
            Err(e) => if outcomes.len() == 1 {
                Err(e)
            } else {
                chain_outcome(outcomes.drop_first())
            },
        }
    }
}

/// What comes next in a chain, by its texts.
pub enum ChainView {
    Try(int),
    Done(Seq<char>),
    Failed(Seq<char>),
}

impl View for ChainStep {
    type V = ChainView;

    open spec fn view(&self) -> ChainView {
        match self {
            ChainStep::Try(i) => ChainView::Try(*i as int),
            ChainStep::Done(t) => ChainView::Done(t@),
            ChainStep::Failed(e) => ChainView::Failed(e@),
        }
    }
}

/// Where a chain of `count` backends starts.
pub open spec fn first_step(count: int) -> ChainView {
    if count > 0 {
        ChainView::Try(0)
    } else {
        ChainView::Failed("no backends configured"@)
    }
}

/// What follows the outcome of the backend at `tried`: a success ends the chain, a failure leads to
/// the next backend, and after the last one to its error.
pub open spec fn next_step(count: int, tried: int, outcome: Result<Seq<char>, Seq<char>>) -> ChainView {
    match outcome {
        Ok(t) => ChainView::Done(t),
        Err(e) => if tried + 1 < count {
            ChainView::Try(tried + 1)
        } else {
            ChainView::Failed(e)
        },
    }
}

/// Where a chain leads from `step` on, where the backends fail or succeed as given.
pub open spec fn followed(
    outcomes: Seq<Result<Seq<char>, Seq<char>>>,
    step: ChainView,
    fuel: nat,
) -> Result<Seq<char>, Seq<char>>
    decreases fuel,
{
    match step {
        ChainView::Done(t) => Ok(t),
        ChainView::Failed(e) => Err(e),
        ChainView::Try(i) => if fuel == 0 {
            Err(""@)
        } else {
            followed(outcomes, next_step(outcomes.len() as int, i, outcomes[i]), (fuel - 1) as nat)
        },
    }
}

/// Where a chain of `count` backends starts.
pub fn chain_start(count: usize) -> (r: ChainStep)
    ensures
        r@ == first_step(count as int),
{
    if count > 0 {
        ChainStep::Try(0)
    } else {
        ChainStep::Failed("no backends configured".to_owned())
    }
}

/// The view of an outcome.
pub open spec fn outcome_view(outcome: Result<String, String>) -> Result<Seq<char>, Seq<char>> {
    match outcome {
        Ok(t) => Ok(t@),
        Err(e) => Err(e@),
    }
}

/// What follows the outcome of the backend at `tried`.
pub fn chain_next(count: usize, tried: usize, outcome: Result<String, String>) -> (r: ChainStep)
    requires
        tried < count,
    ensures
        r@ == next_step(count as int, tried as int, outcome_view(outcome)),
{
    match outcome {
        Ok(t) => ChainStep::Done(t),
        Err(e) => if tried + 1 < count {
            ChainStep::Try(tried + 1)
        } else {
            ChainStep::Failed(e)
        },
    }
}

proof fn lemma_followed(outcomes: Seq<Result<Seq<char>, Seq<char>>>, i: int)
    requires
        0 <= i < outcomes.len(),
    ensures
        followed(outcomes, ChainView::Try(i), (outcomes.len() - i) as nat) == chain_outcome(
            outcomes.skip(i),
        ),
    decreases outcomes.len() - i,
{
    let rest = outcomes.skip(i);
    assert(rest[0] == outcomes[i]);
    if i + 1 < outcomes.len() {
        lemma_followed(outcomes, i + 1);
        assert(rest.drop_first() == outcomes.skip(i + 1));
    }
    let step = next_step(outcomes.len() as int, i, outcomes[i]);
    let fuel = (outcomes.len() - i) as nat;
    assert(followed(outcomes, ChainView::Try(i), fuel) == followed(
        outcomes,
        step,
        (fuel - 1) as nat,
    ));
}

/// Tried step by step, a chain tries no backend twice and ends with its outcome.
pub proof fn law_chain_ends_with_its_outcome(outcomes: Seq<Result<Seq<char>, Seq<char>>>)
    ensures
        followed(outcomes, first_step(outcomes.len() as int), outcomes.len()) == chain_outcome(
            outcomes,
        ),
{
    if outcomes.len() > 0 {
        lemma_followed(outcomes, 0);
        assert(outcomes.skip(0) == outcomes);
    }
}

/// A chain ends with the first success: backends that stand before it failed, and those behind it
/// do not matter; without a success it ends with the last error.
pub proof fn law_first_success_ends_the_chain(outcomes: Seq<Result<Seq<char>, Seq<char>>>, k: int)
    requires
        0 <= k < outcomes.len(),
        forall|i: int| 0 <= i < k ==> (#[trigger] outcomes[i]) is Err,
    ensures
        outcomes[k] is Ok ==> chain_outcome(outcomes) == outcomes[k],
        outcomes[k] is Err && k == outcomes.len() - 1 ==> chain_outcome(outcomes) == outcomes[k],
    decreases k,
{
    if k > 0 {
        let rest = outcomes.drop_first();
        assert forall|i: int| 0 <= i < k - 1 implies (#[trigger] rest[i]) is Err by {
            assert(outcomes[i + 1] is Err);
        }
        law_first_success_ends_the_chain(rest, k - 1);
        assert(outcomes[0] is Err);
    }
}

/// Prompt, history, response and margin fill the context exactly, unless that would leave the history
/// less than it needs at least.
pub proof fn law_budget_is_what_is_left(context_tokens: u32, max_tokens: u32, prompt_tokens: usize)
    ensures
        max_tokens + prompt_tokens + 512 <= context_tokens ==> history_budget(
            context_tokens,
            max_tokens,
            prompt_tokens,
        ) + max_tokens + prompt_tokens + 256 == context_tokens,
        max_tokens + prompt_tokens + 512 > context_tokens ==> history_budget(
            context_tokens,
            max_tokens,
            prompt_tokens,
        ) == 256,
{
}

/// A backend answers with its own model and has its own window.
pub proof fn law_backends_have_their_own_model(c: LlmClient, s: SubprocessBackend, prompt: usize)
    ensures
        Backend::Http(c).model_view() == c.model@,
        Backend::Subprocess(s).model_view() == s.model@,
        Backend::Http(c).budget_view(prompt) == history_budget(
            c.context_tokens,
            c.max_tokens,
            prompt,
        ),
        Backend::Subprocess(s).budget_view(prompt) == history_budget(
            s.context_tokens,
            s.max_tokens,
            prompt,
        ),
{
}

/// Every message of a conversation is sent, in its place, with its role and all of its text.
pub proof fn law_every_message_is_sent(messages: Seq<ChatMessage>, i: int)
    requires
        0 <= i < messages.len(),
    ensures
        conversation(messages).len() == messages.len(),
        conversation(messages)[i] == (WireView::Chat {
            role: messages[i].role@,
            content: messages[i].content@,
        }),
{
}

/// The calls of an answer that ends with calls are run, all of them and in their order, and are kept
/// in the conversation. An answer that ends otherwise is the answer, where it says something; else
/// the answer is streamed. An answer without a choice is a failure.
pub proof fn law_answers_are_followed(s: LoopView, c: Choice)
    ensures
        c.finish_reason is Some && c.finish_reason->Some_0@ == "tool_calls"@ && c.tool_calls is Some
            ==> {
            &&& after_reply(s, Some(c)).1 == StepView::Run(c.tool_calls->Some_0@)
            &&& after_reply(s, Some(c)).0.messages == s.messages.push(
                WireView::Calls(c.tool_calls->Some_0@),
            )
            &&& after_reply(s, Some(c)).0.awaited == Some(c.tool_calls->Some_0@)
            &&& after_reply(s, Some(c)).0.rounds == s.rounds
        },
        c.finish_reason is None || c.finish_reason->Some_0@ != "tool_calls"@ || c.tool_calls is None
            ==> {
            &&& after_reply(s, Some(c)).0 == s
            &&& c.content is Some && c.content->Some_0@.len() > 0 ==> after_reply(s, Some(c)).1
                == StepView::Answer(c.content->Some_0@)
            &&& c.content is None || c.content->Some_0@.len() == 0 ==> after_reply(s, Some(c)).1
                == StepView::Stream
        },
        after_reply(s, None) == (s, StepView::Fail("empty choices"@)),
{
}

/// Every result goes back to the model under the id of its call, in the order of the calls; then the
/// model is asked again, up to five times in all.
pub proof fn law_results_go_back(s: LoopView, calls: Seq<ToolCall>, results: Seq<String>, i: int)
    requires
        s.awaited == Some(calls),
        calls.len() == results.len(),
        0 <= i < calls.len(),
    ensures
        after_results(s, results).0.messages.len() == s.messages.len() + calls.len(),
        after_results(s, results).0.messages[s.messages.len() + i] == (WireView::ToolResult {
            tool_call_id: calls[i].id@,
            content: results[i]@,
        }),
        after_results(s, results).0.rounds == s.rounds + 1,
        after_results(s, results).0.awaited is None,
        s.rounds < 4 ==> after_results(s, results).1 is Ask,
        s.rounds >= 4 ==> after_results(s, results).1 is Stream,
{
}

/// The payload of a line is all that stands behind `data:`, without white space around it; the end
/// mark is none, and neither is a line of another kind.
pub proof fn law_payload_is_whole(a: Seq<char>, payload: Seq<char>, b: Seq<char>, other: Seq<char>)
    requires
        forall|i: int| 0 <= i < a.len() ==> text::is_space(#[trigger] a[i]),
        forall|i: int| 0 <= i < b.len() ==> text::is_space(#[trigger] b[i]),
        payload.len() > 0,
        !text::is_space(payload[0]) && !text::is_space(payload.last()),
        !text::starts_with(other, "data:"@),
    ensures
        payload != "[DONE]"@ ==> payload_of("data:"@ + a + payload + b) == Some(payload),
        payload == "[DONE]"@ ==> payload_of("data:"@ + a + payload + b) is None,
        payload_of("data:"@ + a + b) is None,
        payload_of(other) is None,
{
    reveal_strlit("data:");
    let line = "data:"@ + a + payload + b;
    assert(line.subrange(0, 5) =~= "data:"@);
    assert(line.skip(5) =~= a + payload + b);
    text::law_trim_leaves_the_middle(a, payload, b, Class::Space);
    let empty = "data:"@ + a + b;
    assert(empty.subrange(0, 5) =~= "data:"@);
    assert(empty.skip(5) =~= a + Seq::<char>::empty() + b);
    text::law_trim_leaves_the_middle(a, Seq::empty(), b, Class::Space);
}

/// A stream is cut behind each line feed: a line comes out whole, with what stands behind it treated
/// likewise, and what has no line feed yet is held back.
pub proof fn law_lines_are_whole(line: Seq<u8>, rest: Seq<u8>)
    requires
        forall|i: int| 0 <= i < line.len() ==> #[trigger] line[i] != 10,
    ensures
        full_lines(line + seq![10u8] + rest) == seq![line + seq![10u8]] + full_lines(rest),
        open_line(line + seq![10u8] + rest) == open_line(rest),
        full_lines(line).len() == 0,
        open_line(line) == line,
{
    let s = line + seq![10u8] + rest;
    lemma_newline_at(s);
    lemma_newline_at(line);
    assert(s[line.len() as int] == 10);
    if let Some(i) = newline_at(s) {
        if i < line.len() {
            assert(s[i] == line[i]);
        } else if i > line.len() {
            assert(s[line.len() as int] != 10);
        }
    }
    if let Some(i) = newline_at(line) {
        assert(line[i] != 10);
    }
    assert(newline_at(s) == Some(line.len() as int));
    assert(s.take((line.len() + 1) as int) =~= line + seq![10u8]);
    assert(s.skip((line.len() + 1) as int) =~= rest);
}

/// Each line of a stream gives its text, without white space around it.
pub proof fn law_each_line_has_its_text(lines: Seq<Seq<u8>>, i: int)
    requires
        0 <= i < lines.len(),
    ensures
        line_texts(lines).len() == lines.len(),
        line_texts(lines)[i] == text::trim(utf8_lossy(lines[i])),
{
}

/// A backend that fails hands over to the one right behind it, and to no other; the first is tried
/// first, and an answer ends the chain with its text.
pub proof fn law_failures_lead_to_the_next(count: int, tried: int, t: Seq<char>)
    requires
        0 <= tried < count,
    ensures
        first_step(count) == ChainView::Try(0),
        next_step(count, tried, Ok(t)) == ChainView::Done(t),
        tried < count - 1 ==> next_step(count, tried, Err(t)) == ChainView::Try(tried + 1),
        tried == count - 1 ==> next_step(count, tried, Err(t)) == ChainView::Failed(t),
{
}

/// A list of wire messages is seen one by one.
pub proof fn law_wire_messages_are_seen_one_by_one(v: Seq<WireMessage>, i: int)
    requires
        0 <= i < v.len(),
    ensures
        wire_views(v).len() == v.len(),
        wire_views(v)[i] == v[i]@,
{
}

} // verus!
