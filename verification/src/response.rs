//! One turn: what is sent to the model, when a streamed answer is shown, and how it ends.

use crate::config::CommsConfig;
use crate::history::{ChatMessage, HistoryStore};
use crate::history;
use crate::llm::ProfileLlm;
use crate::llm;
use crate::text;
use crate::text::Class;
use vstd::prelude::*;
use vstd::string::*;
use vstd::utf8::*;

verus! {

/// Streaming flush cadence, derived from `CommsConfig::edit_debounce_ms`. We
/// post/update the response when a sentence completes OR `max_wait` has passed
/// since the last update (whichever first), but never more often than `min_gap`.
/// The typing indicator covers the gap before the first flush — no placeholder
/// message in any mode. Times are in milliseconds.
#[derive(Debug, Clone, Copy)]
pub struct FlushCadence {
    pub min_gap: u64,
    pub max_wait: u64,
}

impl FlushCadence {
    /// The cadence of the configured budgets. A flush is forced at least once a second, unless
    /// edits are held back for longer.
    pub fn from_comms(c: &CommsConfig) -> (r: Self)
        ensures
            r.min_gap == c.edit_debounce_ms,
            r.max_wait == (if c.edit_debounce_ms >= 1000 {
                c.edit_debounce_ms
            } else {
                1000
            }),
    {
        let min_gap = c.edit_debounce_ms;
        let max_wait: u64 = if min_gap >= 1000 { min_gap } else { 1000 };
        FlushCadence { min_gap, max_wait }
    }
}

/// Whether a character ends a sentence.
pub open spec fn ends_sentence(c: char) -> bool {
    c == '.' || c == '!' || c == '?' || c == '\n'
}

/// The place of the last character of `s` that ends a sentence.
pub open spec fn sentence_end(s: Seq<char>) -> Option<int>
    decreases s.len(),
{
    if s.len() == 0 {
        None
    } else if ends_sentence(s.last()) {
        Some(s.len() - 1)
    } else {
        sentence_end(s.drop_last())
    }
}

/// Byte index of the last sentence-ending boundary in `s` (`.`, `!`, `?`, or a
/// newline), if any.
pub open spec fn sentence_end_byte(s: Seq<char>) -> Option<nat> {
    match sentence_end(s) {
        Some(k) => Some(text::utf8_len(s.take(k))),
        None => None,
    }
}

/// Byte index of the last sentence-ending boundary in `s` (`.`, `!`, `?`, or a
/// newline), if any.
pub fn last_sentence_end(s: &str) -> (r: Option<usize>)
    ensures
        match r {
            Some(i) => sentence_end_byte(s@) == Some(i as nat),
            None => sentence_end_byte(s@) is None,
        },
{
    let total = text::byte_len(s);
    let v = text::chars_of(s);
    let mut n: usize = v.len();
    assert(s@.take(s@.len() as int) == s@);
    while n > 0
        invariant
            n <= v.len(),
            v@ == s@,
            text::utf8_len(s@) == total,
            sentence_end(s@) == sentence_end(s@.take(n as int)),
        decreases n,
    {
        let c = v[n - 1];
        assert(s@.take(n as int).last() == c);
        assert(s@.take(n as int).drop_last() == s@.take(n - 1));
        if c == '.' || c == '!' || c == '?' || c == '\n' {
            return Some(text::prefix_bytes(v.as_slice(), n - 1));
        }
        n -= 1;
    }
    None
}

/// `sentence_end` finds the last character that ends a sentence.
pub proof fn law_last_boundary(s: Seq<char>)
    ensures
        match sentence_end(s) {
            Some(k) => 0 <= k < s.len() && ends_sentence(s[k]) && forall|j: int|
                k < j < s.len() ==> !ends_sentence(#[trigger] s[j]),
            None => forall|j: int| 0 <= j < s.len() ==> !ends_sentence(#[trigger] s[j]),
        },
    decreases s.len(),
{
    if s.len() > 0 && !ends_sentence(s.last()) {
        law_last_boundary(s.drop_last());
        assert forall|j: int|
            (match sentence_end(s) {
                Some(k) => k,
                None => -1,
            }) < j < s.len() implies !ends_sentence(#[trigger] s[j]) by {
            if j < s.len() - 1 {
                assert(s.drop_last()[j] == s[j]);
            }
        }
    }
}

/// Decide whether to flush a streamed update. Flush when the text changed, the
/// rate floor has passed, and either a new sentence boundary appeared or the time
/// ceiling was reached.
pub fn should_flush(
    changed: bool,
    elapsed: u64,
    sentence_ready: bool,
    min_gap: u64,
    max_wait: u64,
) -> (r: bool)
    ensures
        r == (changed && elapsed >= min_gap && (sentence_ready || elapsed >= max_wait)),
{
    changed && elapsed >= min_gap && (sentence_ready || elapsed >= max_wait)
}

/// What is done with a snapshot of a streamed answer.
#[derive(Debug, Clone, Copy, PartialEq, Eq, Structural)]
pub enum Flush {
    /// Nothing yet.
    Wait,
    /// Post the message.
    Post,
    /// Edit the posted message.
    Edit,
}

/// The message of a streamed answer, as far as it is shown.
pub struct ShownMessage {
    posted: bool,
    shown: String,
}

/// Whether the message was posted, and the text that it shows.
pub struct ShownView {
    pub posted: bool,
    pub shown: Seq<char>,
}

impl View for ShownMessage {
    type V = ShownView;

    closed spec fn view(&self) -> ShownView {
        ShownView { posted: self.posted, shown: self.shown@ }
    }
}

/// Whether a snapshot is shown: it holds something new, and it is time.
pub open spec fn is_flushed(
    s: ShownView,
    snapshot: Seq<char>,
    elapsed: u64,
    cadence: FlushCadence,
) -> bool {
    let ready = match sentence_end_byte(snapshot) {
        Some(i) => i >= text::utf8_len(s.shown),
        None => false,
    };
    snapshot != s.shown && elapsed >= cadence.min_gap && (ready || elapsed >= cadence.max_wait)
}

/// How an answer is shown in the end.
pub enum FinalRender {
    /// It is there already.
    Nothing,
    /// Edit the posted message.
    Edit(String),
    /// Send it as a message of its own.
    Send(String),
}

/// How an answer is shown in the end, by its texts.
pub enum RenderView {
    Nothing,
    Edit(Seq<char>),
    Send(Seq<char>),
}

impl View for FinalRender {
    type V = RenderView;

    open spec fn view(&self) -> RenderView {
        match self {
            FinalRender::Nothing => RenderView::Nothing,
            FinalRender::Edit(t) => RenderView::Edit(t@),
            FinalRender::Send(t) => RenderView::Send(t@),
        }
    }
}

/// How `answer` is shown in the end: in the posted message, where there is one and it shows
/// something else; else as a message of its own.
pub open spec fn render_of(s: ShownView, answer: Seq<char>) -> RenderView {
    if s.posted {
        if answer == s.shown {
            RenderView::Nothing
        } else {
            RenderView::Edit(answer)
        }
    } else if text::is_blank(answer) {
        RenderView::Send("(no response)"@)
    } else {
        RenderView::Send(answer)
    }
}

impl ShownMessage {
    /// Nothing is shown before the first flush.
    pub fn new() -> (r: Self)
        ensures
            !r@.posted,
            r@.shown.len() == 0,
    {
        ShownMessage { posted: false, shown: String::new() }
    }

    /// Decides what is done with a snapshot, `elapsed` milliseconds after the last flush, or the
    /// start where there was none.
    pub fn on_snapshot(&self, snapshot: &str, elapsed: u64, cadence: &FlushCadence) -> (r: Flush)
        ensures
            r == (if !is_flushed(self@, snapshot@, elapsed, *cadence) {
                Flush::Wait
            } else if self@.posted {
                Flush::Edit
            } else {
                Flush::Post
            }),
    {
        let shown_len = text::byte_len(self.shown.as_str());
        let ready = match last_sentence_end(snapshot) {
            Some(i) => i >= shown_len,
            None => false,
        };
        let changed = !text::same(snapshot, self.shown.as_str());
        if !should_flush(changed, elapsed, ready, cadence.min_gap, cadence.max_wait) {
            Flush::Wait
        } else if self.posted {
            Flush::Edit
        } else {
            Flush::Post
        }
    }

    /// Notes that a snapshot is shown.
    pub fn flushed(&mut self, snapshot: &str)
        ensures
            final(self)@.posted,
            final(self)@.shown == snapshot@,
    {
        self.posted = true;
        self.shown = snapshot.to_owned();
    }

    /// Decides how the answer is shown in the end.
    pub fn finish(&self, answer: &str) -> (r: FinalRender)
        ensures
            r@ == render_of(self@, answer@),
    {
        if self.posted {
            if text::same(answer, self.shown.as_str()) {
                FinalRender::Nothing
            } else {
                FinalRender::Edit(answer.to_owned())
            }
        } else if text::blank(answer) {
            FinalRender::Send("(no response)".to_owned())
        } else {
            FinalRender::Send(answer.to_owned())
        }
    }
}

/// Whatever was flushed on the way, the room sees the answer in the end, or is told that there is
/// none; and no message of its own is sent once one was posted.
pub proof fn law_answer_is_shown(s: ShownView, answer: Seq<char>)
    ensures
        match render_of(s, answer) {
            RenderView::Nothing => s.posted && s.shown == answer,
            RenderView::Edit(t) => s.posted && t == answer,
            RenderView::Send(t) => !s.posted && t.len() > 0 && (t == answer || text::is_blank(
                answer,
            )),
        },
{
    reveal_strlit("(no response)");
    if !s.posted && !text::is_blank(answer) && answer.len() == 0 {
        assert(text::trim_front(answer, Class::Space) == answer);
        assert(text::trim_back(answer, Class::Space) == answer);
    }
}

/// How the streamed answer ended.
pub enum StreamOutcome {
    /// The stream ended with this text.
    Text(String),
    /// The stream failed.
    Failed(String),
    /// The task that streamed it failed.
    TaskFailed(String),
}

/// What follows a streamed answer.
pub enum AfterStream {
    /// The text is the answer.
    Use(String),
    /// Ask once more, without streaming.
    AskAgain,
    /// There is no answer, for this reason.
    Fail(String),
}

/// What follows a streamed answer, by its texts.
pub enum AfterStreamView {
    Use(Seq<char>),
    AskAgain,
    Fail(Seq<char>),
}

impl View for AfterStream {
    type V = AfterStreamView;

    open spec fn view(&self) -> AfterStreamView {
        match self {
            AfterStream::Use(t) => AfterStreamView::Use(t@),
            AfterStream::AskAgain => AfterStreamView::AskAgain,
            AfterStream::Fail(e) => AfterStreamView::Fail(e@),
        }
    }
}

/// What follows a streamed answer. An empty or failed stream is asked again without streaming,
/// except of a subprocess: it would run, and answer, a second time.
pub open spec fn follow_up(outcome: StreamOutcome, is_subprocess: bool) -> AfterStreamView {
    match outcome {
        StreamOutcome::Text(t) => if !text::is_blank(t@) {
            AfterStreamView::Use(t@)
        } else if is_subprocess {
            AfterStreamView::Fail("subprocess produced no output"@)
        } else {
            AfterStreamView::AskAgain
        },
        StreamOutcome::Failed(e) => if is_subprocess {
            AfterStreamView::Fail(e@)
        } else {
            AfterStreamView::AskAgain
        },
        StreamOutcome::TaskFailed(e) => AfterStreamView::Fail("stream task failed: "@ + e@),
    }
}

/// Decides what follows a streamed answer.
pub fn after_stream(outcome: StreamOutcome, is_subprocess: bool) -> (r: AfterStream)
    ensures
        r@ == follow_up(outcome, is_subprocess),
{
    match outcome {
        StreamOutcome::Text(t) => if !text::blank(t.as_str()) {
            AfterStream::Use(t)
        } else if is_subprocess {
            AfterStream::Fail("subprocess produced no output".to_owned())
        } else {
            AfterStream::AskAgain
        },
        StreamOutcome::Failed(e) => if is_subprocess {
            AfterStream::Fail(e)
        } else {
            AfterStream::AskAgain
        },
        StreamOutcome::TaskFailed(e) => {
            let mut out = "stream task failed: ".to_owned();
            out.append(e.as_str());
            AfterStream::Fail(out)
        },
    }
}

/// A subprocess is never asked a second time.
pub proof fn law_subprocess_runs_once(outcome: StreamOutcome)
    ensures
        !(follow_up(outcome, true) is AskAgain),
{
}

/// Ends a turn: an answer is kept in the room's history; an error is told instead, and not kept.
/// Gives back the text to show.
pub fn conclude(history: &mut HistoryStore, room_id: &str, result: Result<String, String>) -> (r:
    String)
    ensures
        match result {
            Ok(reply) => {
                &&& r@ == reply@
                &&& exists|msg: ChatMessage|
                    {
                        &&& msg.role@ == "assistant"@
                        &&& msg.content@ == reply@
                        &&& final(history)@ == old(history)@.recorded(room_id@).written(
                            room_id@,
                            old(history)@.recorded(room_id@).messages(room_id@).push(msg),
                        )
                    }
            },
            Err(e) => r@ == "Sorry, I hit an error: "@ + e@ && final(history)@ == old(history)@,
        },
{
    match result {
        Ok(reply) => {
            let msg = ChatMessage::assistant(reply.as_str());
            history.append(room_id, msg);
            reply
        },
        Err(e) => {
            let mut out = "Sorry, I hit an error: ".to_owned();
            out.append(e.as_str());
            out
        },
    }
}

/// A section of the system prompt, behind a blank line; nothing where its body is empty.
pub open spec fn prompt_section(title: Option<Seq<char>>, body: Seq<char>) -> Seq<char> {
    if body.len() == 0 {
        Seq::empty()
    } else {
        match title {
            Some(t) => "\n\n"@ + t + "\n"@ + body,
            None => "\n\n"@ + body,
        }
    }
}

/// The system prompt: the base persona, operating instructions and durable memory, in this order.
pub open spec fn system_prompt(
    base: Seq<char>,
    operating_global: Seq<char>,
    operating_room: Seq<char>,
    memory_global: Seq<char>,
    memory_room: Seq<char>,
) -> Seq<char> {
    text::trim_back(base, Class::Space) + prompt_section(None, operating_global) + prompt_section(
        None,
        operating_room,
    ) + prompt_section(Some("## Memory (global)"@), memory_global) + prompt_section(
        Some("## Memory (this room)"@),
        memory_room,
    )
}

/// Appends a section to the system prompt.
fn add_section(out: &mut String, title: Option<&str>, body: &str)
    ensures
        final(out)@ == old(out)@ + prompt_section(text::opt_str(title), body@),
{
    let ghost start = out@;
    if text::chars_of(body).len() == 0 {
        assert(out@ =~= start + Seq::<char>::empty());
        return;
    }
    out.append("\n\n");
    match title {
        Some(t) => {
            out.append(t);
            out.append("\n");
            out.append(body);
            assert(out@ =~= start + ("\n\n"@ + t@ + "\n"@ + body@));
        },
        None => {
            out.append(body);
            assert(out@ =~= start + ("\n\n"@ + body@));
        },
    }
}

/// Layer operating instructions and durable memory onto the base persona to form
/// the full system prompt. Empty sections are skipped, so absent files add nothing.
pub fn assemble_system_prompt(
    base: &str,
    operating_global: &str,
    operating_room: &str,
    memory_global: &str,
    memory_room: &str,
) -> (r: String)
    ensures
        r@ == system_prompt(
            base@,
            operating_global@,
            operating_room@,
            memory_global@,
            memory_room@,
        ),
{
    let v = text::chars_of(base);
    let mut out = text::string_of(text::skip_back(v.as_slice(), Class::Space));
    add_section(&mut out, None, operating_global);
    add_section(&mut out, None, operating_room);
    add_section(&mut out, Some("## Memory (global)"), memory_global);
    add_section(&mut out, Some("## Memory (this room)"), memory_room);
    out
}

/// Absent files add nothing to the persona.
pub proof fn law_absent_files_add_nothing(base: Seq<char>)
    ensures
        system_prompt(base, Seq::empty(), Seq::empty(), Seq::empty(), Seq::empty())
            == text::trim_back(base, Class::Space),
{
    assert(system_prompt(base, Seq::empty(), Seq::empty(), Seq::empty(), Seq::empty())
        =~= text::trim_back(base, Class::Space));
}

/// Each layer of the prompt that is there stands whole behind what comes before it, a blank line
/// between: persona, global and room instructions, global and room memory, in this order. A layer
/// that is not there adds nothing.
#[verifier::rlimit(40)]
pub proof fn law_every_layer_is_in_the_prompt(
    base: Seq<char>,
    operating_global: Seq<char>,
    operating_room: Seq<char>,
    memory_global: Seq<char>,
    memory_room: Seq<char>,
)
    ensures
        ({
            let none = Seq::<char>::empty();
            let (b, g, r, m, n) = (
                base,
                operating_global,
                operating_room,
                memory_global,
                memory_room,
            );
            &&& system_prompt(b, none, none, none, none) == text::trim_back(b, Class::Space)
            &&& g.len() > 0 ==> system_prompt(b, g, none, none, none) == system_prompt(
                b,
                none,
                none,
                none,
                none,
            ) + "\n\n"@ + g
            &&& r.len() > 0 ==> system_prompt(b, g, r, none, none) == system_prompt(
                b,
                g,
                none,
                none,
                none,
            ) + "\n\n"@ + r
            &&& m.len() > 0 ==> system_prompt(b, g, r, m, none) == system_prompt(
                b,
                g,
                r,
                none,
                none,
            ) + "\n\n## Memory (global)\n"@ + m
            &&& n.len() > 0 ==> system_prompt(b, g, r, m, n) == system_prompt(b, g, r, m, none)
                + "\n\n## Memory (this room)\n"@ + n
        }),
{
    let none = Seq::<char>::empty();
    let (b, g, r, m, n) = (base, operating_global, operating_room, memory_global, memory_room);
    law_absent_files_add_nothing(b);
    reveal_strlit("\n\n");
    reveal_strlit("\n");
    reveal_strlit("## Memory (global)");
    reveal_strlit("## Memory (this room)");
    reveal_strlit("\n\n## Memory (global)\n");
    reveal_strlit("\n\n## Memory (this room)\n");
    assert("\n\n"@ + "## Memory (global)"@ + "\n"@ =~= "\n\n## Memory (global)\n"@);
    assert("\n\n"@ + "## Memory (this room)"@ + "\n"@ =~= "\n\n## Memory (this room)\n"@);
    if g.len() > 0 {
        assert(system_prompt(b, g, none, none, none) =~= system_prompt(b, none, none, none, none)
            + "\n\n"@ + g);
    }
    if r.len() > 0 {
        assert(system_prompt(b, g, r, none, none) =~= system_prompt(b, g, none, none, none)
            + "\n\n"@ + r);
    }
    if m.len() > 0 {
        assert(system_prompt(b, g, r, m, none) =~= system_prompt(b, g, r, none, none)
            + "\n\n## Memory (global)\n"@ + m);
    }
    if n.len() > 0 {
        assert(system_prompt(b, g, r, m, n) =~= system_prompt(b, g, r, m, none)
            + "\n\n## Memory (this room)\n"@ + n);
    }
}

/// The messages of a turn: the system prompt, and as much of the room's history as the model's
/// window has room for beside it.
pub fn turn_messages(
    llm: &ProfileLlm,
    history: &HistoryStore,
    room_id: &str,
    prompt: &str,
) -> (r: Vec<ChatMessage>)
    ensures
        llm@.len() > 0,
        r@.len() > 0,
        r@[0].role@ == "system"@,
        r@[0].content@ == prompt@,
        exists|k: int| #[trigger]
            history::is_window(
                history@.messages(room_id@),
                llm@[0].budget_view(history::tokens(prompt@) as usize) as nat,
                k,
            ) && r@.skip(1) == history@.messages(room_id@).skip(k),
{
    let cost = history::estimate_tokens(prompt);
    let budget = llm.history_token_budget(cost);
    let mut out: Vec<ChatMessage> = Vec::new();
    out.push(ChatMessage::system(prompt));
    let mut window = history.windowed_by_tokens(room_id, budget);
    let ghost first = out@;
    let ghost kept = window@;
    out.append(&mut window);
    proof {
        assert(out@ == first + kept);
        assert(out@.skip(1) == kept);
        let msgs = history@.messages(room_id@);
        let k = choose|k: int| #[trigger]
            history::is_window(msgs, budget as nat, k) && kept == msgs.skip(k);
        assert(llm@[0].budget_view(history::tokens(prompt@) as usize) as nat == budget as nat);
        assert(history::is_window(
            msgs,
            llm@[0].budget_view(history::tokens(prompt@) as usize) as nat,
            k,
        ));
    }
    out
}

/// However long the prompt is, prompt, history, response and margin fit in the model's context
/// together, provided it has room for all but the history and the least history that is kept, and
/// more than the latest message is kept or that message fits.
pub proof fn law_turn_fits_the_context(
    context_tokens: u32,
    max_tokens: u32,
    prompt: Seq<char>,
    msgs: Seq<ChatMessage>,
    k: int,
)
    requires
        max_tokens + history::tokens(prompt) + 256 + 256 <= context_tokens,
        history::is_window(
            msgs,
            llm::history_budget(context_tokens, max_tokens, history::tokens(prompt) as usize) as nat,
            k,
        ),
        k + 1 < msgs.len() || history::total(msgs.skip(k)) <= llm::history_budget(
            context_tokens,
            max_tokens,
            history::tokens(prompt) as usize,
        ),
    ensures
        history::tokens(prompt) + history::total(msgs.skip(k)) + max_tokens + 256 <= context_tokens,
{
}

/// Nothing is shown again that is shown already, and nothing more often than the cadence allows;
/// new text is shown at the latest after the longest wait.
pub proof fn law_flushes_keep_the_cadence(
    s: ShownView,
    snapshot: Seq<char>,
    elapsed: u64,
    cadence: FlushCadence,
)
    ensures
        snapshot == s.shown ==> !is_flushed(s, snapshot, elapsed, cadence),
        elapsed < cadence.min_gap ==> !is_flushed(s, snapshot, elapsed, cadence),
        snapshot != s.shown && elapsed >= cadence.min_gap && elapsed >= cadence.max_wait
            ==> is_flushed(s, snapshot, elapsed, cadence),
{
}

/// A sentence that ends behind what is shown is shown as soon as the cadence allows; text that ends
/// no sentence waits.
#[verifier::rlimit(40)]
pub proof fn law_sentences_are_shown_at_once(
    s: ShownView,
    more: Seq<char>,
    end: char,
    rest: Seq<char>,
    elapsed: u64,
    cadence: FlushCadence,
)
    requires
        seq!['.', '!', '?', '\n'].contains(end),
        forall|i: int|
            0 <= i < rest.len() ==> !seq!['.', '!', '?', '\n'].contains(#[trigger] rest[i]),
        elapsed >= cadence.min_gap,
    ensures
        is_flushed(s, s.shown + more + seq![end] + rest, elapsed, cadence),
        elapsed < cadence.max_wait && s.shown.len() == 0 ==> !is_flushed(s, rest, elapsed, cadence),
{
    let ends = seq!['.', '!', '?', '\n'];
    assert(ends[0] == '.' && ends[1] == '!' && ends[2] == '?' && ends[3] == '\n');
    assert(forall|c: char| #[trigger] ends_sentence(c) ==> ends.contains(c));
    let snap = s.shown + more + seq![end] + rest;
    let k = (s.shown.len() + more.len()) as int;
    law_last_boundary(snap);
    assert(snap[k] == end);
    assert(ends_sentence(end));
    if let Some(j) = sentence_end(snap) {
        if j > k {
            assert(snap[j] == rest[j - k - 1]);
            assert(ends.contains(rest[j - k - 1]));
        } else if j < k {
            assert(!ends_sentence(snap[k]));
        }
    }
    assert(sentence_end(snap) == Some(k));
    let head = s.shown + more;
    assert(snap.take(k) =~= head);
    text::lemma_encode_concat(s.shown, more);
    assert(text::utf8_len(head) >= text::utf8_len(s.shown));
    assert(snap.len() != s.shown.len());
    law_last_boundary(rest);
    if let Some(j) = sentence_end(rest) {
        assert(ends.contains(rest[j]));
    }
}

/// A sentence ends where its last full stop, exclamation mark, question mark or newline stands,
/// counted in bytes.
pub proof fn law_sentence_ends_are_counted_in_bytes(head: Seq<char>, end: char, rest: Seq<char>)
    requires
        seq!['.', '!', '?', '\n'].contains(end),
        forall|i: int|
            0 <= i < rest.len() ==> !seq!['.', '!', '?', '\n'].contains(#[trigger] rest[i]),
    ensures
        sentence_end_byte(head + seq![end] + rest) == Some(text::utf8_len(head)),
        sentence_end_byte(rest) is None,
{
    let ends = seq!['.', '!', '?', '\n'];
    assert(ends[0] == '.' && ends[1] == '!' && ends[2] == '?' && ends[3] == '\n');
    assert(forall|c: char| #[trigger] ends_sentence(c) ==> ends.contains(c));
    let snap = head + seq![end] + rest;
    let k = head.len() as int;
    law_last_boundary(snap);
    assert(snap[k] == end);
    assert(ends_sentence(end));
    if let Some(j) = sentence_end(snap) {
        if j > k {
            assert(snap[j] == rest[j - k - 1]);
            assert(ends.contains(rest[j - k - 1]));
        }
    }
    assert(snap.take(k) =~= head);
    law_last_boundary(rest);
    if let Some(j) = sentence_end(rest) {
        assert(ends.contains(rest[j]));
    }
}

/// A streamed text that says something is the answer as it stands. An empty or failed stream is asked
/// again, unless a subprocess ran; why the task failed is told.
pub proof fn law_streams_are_followed(t: String, e: String, is_subprocess: bool)
    ensures
        text::trim(t@).len() > 0 ==> follow_up(StreamOutcome::Text(t), is_subprocess)
            == AfterStreamView::Use(t@),
        text::trim(t@).len() == 0 ==> follow_up(StreamOutcome::Text(t), false) is AskAgain,
        text::trim(t@).len() == 0 ==> follow_up(StreamOutcome::Text(t), true)
            == AfterStreamView::Fail("subprocess produced no output"@),
        follow_up(StreamOutcome::Failed(e), false) is AskAgain,
        follow_up(StreamOutcome::Failed(e), true) == AfterStreamView::Fail(e@),
        follow_up(StreamOutcome::TaskFailed(e), is_subprocess) == AfterStreamView::Fail(
            "stream task failed: "@ + e@,
        ),
{
}

/// An answer that was not shown before is sent whole; a blank one is told as none.
pub proof fn law_answers_are_sent_whole(s: ShownView, answer: Seq<char>)
    ensures
        !s.posted && text::trim(answer).len() > 0 ==> render_of(s, answer) == RenderView::Send(
            answer,
        ),
        !s.posted && text::trim(answer).len() == 0 ==> render_of(s, answer) == RenderView::Send(
            "(no response)"@,
        ),
        s.posted && s.shown != answer ==> render_of(s, answer) == RenderView::Edit(answer),
        s.posted && s.shown == answer ==> render_of(s, answer) is Nothing,
{
}

} // verus!
