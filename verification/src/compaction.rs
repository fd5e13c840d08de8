//! Size-triggered conversation compaction. When a room's history grows past a
//! token threshold, summarize the older turns into a single head summary (kept in
//! history) and distill durable facts into two-tier memory (per-room + global),
//! preserving the most recent turns verbatim. A room is never compacted by two tasks
//! at once.

use crate::history::{ChatMessage, HistoryStore};
use crate::history;
use crate::memory::MemoryStore;
use crate::memory;
use crate::names::NameMap;
use crate::text;
use crate::text::Class;
use vstd::prelude::*;
use vstd::slice::slice_subrange;
use vstd::string::*;

verus! {

/// What a compaction keeps, and how large the memories may grow.
#[derive(Debug, Clone, Copy)]
pub struct CompactionParams {
    pub keep_recent_turns: usize,
    pub max_global_tokens: usize,
    pub max_room_tokens: usize,
}

/// The rooms that are being compacted.
pub struct ActiveRooms {
    rooms: NameMap<()>,
}

impl View for ActiveRooms {
    type V = Set<Seq<char>>;

    closed spec fn view(&self) -> Set<Seq<char>> {
        self.rooms@.dom()
    }
}

impl ActiveRooms {
    /// No room.
    pub fn new() -> (r: Self)
        ensures
            r@ == Set::<Seq<char>>::empty(),
    {
        let r = ActiveRooms { rooms: NameMap::new() };
        assert(r@ =~= Set::<Seq<char>>::empty());
        r
    }

    /// Reserve a room for compaction; returns false if one is already running.
    pub fn begin(&mut self, room: &str) -> (r: bool)
        ensures
            r == !old(self)@.contains(room@),
            final(self)@ == old(self)@.insert(room@),
    {
        let fresh = !self.rooms.contains_key(room);
        self.rooms.insert(room.to_owned(), ());
        assert(self@ =~= old(self)@.insert(room@));
        fresh
    }

    /// Releases a room.
    pub fn end(&mut self, room: &str)
        ensures
            final(self)@ == old(self)@.remove(room@),
    {
        let _ = self.rooms.remove(room);
        assert(self@ =~= old(self)@.remove(room@));
    }
}

/// A room that was reserved stays so until it is released, whatever other rooms do: no second
/// compaction of it can begin.
pub proof fn law_room_is_reserved_once(active: Set<Seq<char>>, room: Seq<char>, other: Seq<char>)
    requires
        other != room,
    ensures
        active.insert(room).contains(room),
        active.insert(room).insert(other).contains(room),
        active.insert(room).remove(other).contains(room),
        !active.insert(room).remove(room).contains(room),
{
}

/// Whether a section says something: it is neither blank nor `none`.
pub open spec fn says_something(s: Seq<char>) -> bool {
    let t = text::trim(s);
    t.len() > 0 && t.map_values(|c: char| text::ascii_lower(c)) != "none"@.map_values(
        |c: char| text::ascii_lower(c),
    )
}

/// Whether a section says something: it is neither blank nor `none`.
pub fn is_content(s: &str) -> (r: bool)
    ensures
        r == says_something(s@),
{
    let v = text::chars_of(s);
    let t = text::skip_both(v.as_slice(), Class::Space);
    let none = text::chars_of("none");
    t.len() > 0 && !text::same_ignoring_case(t, none.as_slice())
}

/// Who speaks in a transcript.
pub open spec fn label(role: Seq<char>) -> Seq<char> {
    if role == "assistant"@ {
        "Assistant"@
    } else if role == "system"@ {
        "Note"@
    } else {
        "User"@
    }
}

/// The messages as a transcript, a paragraph each.
pub open spec fn transcript(msgs: Seq<ChatMessage>) -> Seq<char>
    decreases msgs.len(),
{
    if msgs.len() == 0 {
        Seq::empty()
    } else {
        transcript(msgs.drop_last()) + label(msgs.last().role@) + ": "@ + msgs.last().content@
            + "\n\n"@
    }
}

/// The messages as a transcript, without white space at its end.
pub open spec fn rendered(msgs: Seq<ChatMessage>) -> Seq<char> {
    text::trim_back(transcript(msgs), Class::Space)
}

/// The messages as a transcript.
pub fn render(msgs: &[ChatMessage]) -> (r: String)
    ensures
        r@ == rendered(msgs@),
{
    let mut out = String::new();
    let mut i: usize = 0;
    assert(out@ == transcript(msgs@.take(0)));
    while i < msgs.len()
        invariant
            i <= msgs.len(),
            out@ == transcript(msgs@.take(i as int)),
        decreases msgs.len() - i,
    {
        let role = msgs[i].role.as_str();
        if text::same(role, "assistant") {
            out.append("Assistant");
        } else if text::same(role, "system") {
            out.append("Note");
        } else {
            out.append("User");
        }
        out.append(": ");
        out.append(msgs[i].content.as_str());
        out.append("\n\n");
        assert(msgs@.take(i + 1).drop_last() == msgs@.take(i as int));
        i += 1;
    }
    assert(msgs@.take(msgs@.len() as int) == msgs@);
    let v = text::chars_of(out.as_str());
    text::string_of(text::skip_back(v.as_slice(), Class::Space))
}

/// The text under a header, up to the next `### ` header or the end, trimmed.
pub open spec fn section_of(body: Seq<char>, header: Seq<char>) -> Option<Seq<char>> {
    match text::find(body, header) {
        None => None,
        Some(i) => {
            let rest = body.skip(i + header.len());
            Some(
                text::trim(
                    match text::find(rest, "\n### "@) {
                        Some(end) => rest.take(end),
                        None => rest,
                    },
                ),
            )
        },
    }
}

/// Extract the text under a `### HEADER` up to the next `### ` header (or end).
pub fn section(body: &str, header: &str) -> (r: Option<String>)
    ensures
        text::opt_string(r) == section_of(body@, header@),
{
    let v = text::chars_of(body);
    let h = text::chars_of(header);
    match text::position(v.as_slice(), h.as_slice()) {
        None => None,
        Some(i) => {
            let rest = slice_subrange(v.as_slice(), i + h.len(), v.len());
            assert(rest@ == body@.skip(i + header@.len()));
            let next = text::chars_of("\n### ");
            let part = match text::position(rest, next.as_slice()) {
                Some(end) => slice_subrange(rest, 0, end),
                None => rest,
            };
            Some(text::string_of(text::skip_both(part, Class::Space)))
        },
    }
}

/// The section under a header is the whole text up to the next header, all of its lines, without
/// white space at its ends.
pub proof fn law_section_is_whole(
    pre: Seq<char>,
    header: Seq<char>,
    content: Seq<char>,
    rest: Seq<char>,
)
    requires
        text::ends_first(pre, header),
        text::ends_first("\n"@ + content, "\n### "@),
    ensures
        section_of(pre + header + "\n"@ + content + "\n### "@ + rest, header) == Some(
            text::trim(content),
        ),
{
    reveal_strlit("\n");
    let nl = "\n"@;
    let next = "\n### "@;
    let tail = nl + content + next + rest;
    let body = pre + header + nl + content + next + rest;
    assert(body =~= pre + header + tail);
    text::lemma_find_behind(pre, header, tail);
    assert(body.skip((pre.len() + header.len()) as int) =~= tail);
    text::lemma_find_behind(nl + content, next, rest);
    assert(tail =~= (nl + content) + next + rest);
    assert(tail.take((nl + content).len() as int) =~= seq!['\n'] + content);
    text::lemma_trim_skips_space('\n', content);
}

/// The last section is the whole text up to the end. A text without the header has no such section.
pub proof fn law_last_section_is_whole(pre: Seq<char>, header: Seq<char>, content: Seq<char>)
    requires
        text::ends_first(pre, header),
        !text::contains("\n"@ + content, "\n### "@),
    ensures
        section_of(pre + header + "\n"@ + content, header) == Some(text::trim(content)),
{
    reveal_strlit("\n");
    let nl = "\n"@;
    let body = pre + header + nl + content;
    assert(body =~= pre + header + (nl + content));
    text::lemma_find_behind(pre, header, nl + content);
    assert(body.skip((pre.len() + header.len()) as int) =~= nl + content);
    text::lemma_find_none(nl + content, "\n### "@);
    assert(nl + content =~= seq!['\n'] + content);
    text::lemma_trim_skips_space('\n', content);
}

/// There is a section exactly where there is its header.
pub proof fn law_sections_have_headers(body: Seq<char>, header: Seq<char>)
    ensures
        section_of(body, header) is Some == text::contains(body, header),
{
    text::lemma_find_none(body, header);
}

/// A transcript of turns one after another is their transcripts one after another, and each turn is
/// shown with who speaks and all of its text.
#[verifier::rlimit(40)]
pub proof fn law_transcript_shows_every_turn(
    a: Seq<ChatMessage>,
    m: ChatMessage,
    b: Seq<ChatMessage>,
)
    ensures
        transcript(a + seq![m] + b) == transcript(a) + ((if m.role@ == "assistant"@ {
            "Assistant: "@
        } else if m.role@ == "system"@ {
            "Note: "@
        } else {
            "User: "@
        }) + m.content@ + "\n\n"@) + transcript(b),
    decreases b.len(),
{
    reveal_strlit("Assistant: ");
    reveal_strlit("Note: ");
    reveal_strlit("User: ");
    reveal_strlit("Assistant");
    reveal_strlit("Note");
    reveal_strlit("User");
    reveal_strlit(": ");
    assert("Assistant"@ + ": "@ =~= "Assistant: "@);
    assert("Note"@ + ": "@ =~= "Note: "@);
    assert("User"@ + ": "@ =~= "User: "@);
    let all = a + seq![m] + b;
    let one = label(m.role@) + ": "@ + m.content@ + "\n\n"@;
    if b.len() == 0 {
        assert(all.drop_last() =~= a);
        assert(all.last() == m);
        assert(transcript(a) + one + transcript(b) =~= transcript(all));
    } else {
        law_transcript_shows_every_turn(a, m, b.drop_last());
        assert(all.drop_last() =~= a + seq![m] + b.drop_last());
        assert(all.last() == b.last());
        let l = b.last();
        assert(transcript(a) + one + transcript(b) =~= transcript(a) + one + transcript(
            b.drop_last(),
        ) + label(l.role@) + ": "@ + l.content@ + "\n\n"@);
    }
}

/// A section says something unless it is blank or reads `none`, in any case.
pub proof fn law_blank_and_none_say_nothing(a: Seq<char>, m: Seq<char>, b: Seq<char>)
    requires
        forall|i: int| 0 <= i < a.len() ==> text::is_space(#[trigger] a[i]),
        forall|i: int| 0 <= i < b.len() ==> text::is_space(#[trigger] b[i]),
        m.len() > 0 ==> !text::is_space(m[0]) && !text::is_space(m.last()),
    ensures
        m.len() == 0 ==> !says_something(a + m + b),
        m == "none"@ || m == "None"@ || m == "NONE"@ ==> !says_something(a + m + b),
        m.len() > 0 && m.len() != 4 ==> says_something(a + m + b),
        m.len() == 4 && text::ascii_lower(m[0]) != 'n' ==> says_something(a + m + b),
{
    text::law_trim_leaves_the_middle(a, m, b, Class::Space);
    reveal_strlit("none");
    reveal_strlit("None");
    reveal_strlit("NONE");
    let low = m.map_values(|c: char| text::ascii_lower(c));
    let none = "none"@.map_values(|c: char| text::ascii_lower(c));
    if m == "none"@ || m == "None"@ || m == "NONE"@ {
        assert(low =~= none);
    }
    if m.len() != 4 {
        assert(low.len() != none.len());
    } else {
        assert(low[0] == text::ascii_lower(m[0]));
        assert(none[0] == 'n');
    }
}

/// What the model is told to do with the older turns.
pub open spec fn compaction_prompt() -> Seq<char> {
    "You compact a chat assistant's memory. Given an earlier conversation excerpt, output three sections with EXACTLY these headers and nothing before them:\n### SUMMARY\n(a concise summary preserving decisions, facts, and open threads)\n### ROOM_MEMORY\n(durable facts specific to THIS room worth remembering long-term, as short bullets; or 'none')\n### GLOBAL_MEMORY\n(durable facts useful across ALL rooms — stable preferences, identities, standing instructions — as short bullets; or 'none')\nBe terse. Do not invent facts."@
}

/// A compaction that was planned: what the model is asked, the older turns that its summary stands
/// for, and the recent turns behind them, which are kept verbatim.
pub struct Plan {
    pub request: Vec<ChatMessage>,
    pub old: Vec<ChatMessage>,
    pub recent: Vec<ChatMessage>,
}

/// `p` compacts a room with the given messages: all but the last `keep` of them are handed to the
/// model.
pub open spec fn is_plan(p: Plan, msgs: Seq<ChatMessage>, keep: int) -> bool {
    let split = msgs.len() - keep;
    &&& p.old@ == msgs.take(split)
    &&& p.recent@ == msgs.skip(split)
    &&& p.request@.len() == 2
    &&& p.request@[0].role@ == "system"@
    &&& p.request@[0].content@ == compaction_prompt()
    &&& p.request@[1].role@ == "user"@
    &&& p.request@[1].content@ == "Earlier conversation:\n\n"@ + rendered(msgs.take(split))
}

/// The model is asked about all of the older turns, in their order, and about none of the recent
/// ones; it is told to answer in the three sections that are read from its reply.
pub proof fn law_model_is_asked_about_the_older_turns(
    p: Plan,
    msgs: Seq<ChatMessage>,
    keep: int,
    i: int,
)
    requires
        is_plan(p, msgs, keep),
        0 <= keep < msgs.len(),
        0 <= i < msgs.len() - keep,
        msgs[i].content@.len() > 0,
        !text::is_space(msgs[i].content@.last()),
    ensures
        p.old@.len() == msgs.len() - keep,
        p.recent@.len() == keep,
        p.old@ + p.recent@ == msgs,
        p.request@.len() == 2,
        p.request@[0].role@ == "system"@,
        p.request@[0].content@ == compaction_prompt(),
        p.request@[1].role@ == "user"@,
        text::starts_with(p.request@[1].content@, "Earlier conversation:\n\n"@),
        text::contains(p.request@[1].content@, msgs[i].content@),
{
    let split = msgs.len() - keep;
    assert(p.old@ + p.recent@ =~= msgs);
    let head = "Earlier conversation:\n\n"@;
    let shown = rendered(msgs.take(split));
    let all = head + shown;
    assert(all.subrange(0, head.len() as int) =~= head);
    lemma_turn_is_rendered(msgs.take(split), i);
    text::lemma_holds_what_a_part_holds(head, shown, Seq::empty(), msgs[i].content@);
    assert(head + shown + Seq::<char>::empty() =~= all);
}

/// A turn whose text does not end in white space is in the transcript, whatever is trimmed behind it.
#[verifier::rlimit(40)]
proof fn lemma_turn_is_rendered(msgs: Seq<ChatMessage>, i: int)
    requires
        0 <= i < msgs.len(),
        msgs[i].content@.len() > 0,
        !text::is_space(msgs[i].content@.last()),
    ensures
        text::contains(rendered(msgs), msgs[i].content@),
{
    let m = msgs[i];
    let a = msgs.take(i);
    let b = msgs.skip(i + 1);
    assert(msgs =~= a + seq![m] + b);
    law_transcript_shows_every_turn(a, m, b);
    let who = if m.role@ == "assistant"@ {
        "Assistant: "@
    } else if m.role@ == "system"@ {
        "Note: "@
    } else {
        "User: "@
    };
    let back = "\n\n"@ + transcript(b);
    assert(transcript(a) + (who + m.content@ + "\n\n"@) + transcript(b) =~= (transcript(a) + who)
        + m.content@ + back);
    lemma_trim_holds(transcript(a) + who, m.content@, back);
}

/// A text that does not end in white space survives a trim of what follows it.
proof fn lemma_trim_holds(x: Seq<char>, c: Seq<char>, y: Seq<char>)
    requires
        c.len() > 0,
        !text::is_space(c.last()),
    ensures
        text::contains(text::trim_back(x + c + y, Class::Space), c),
{
    let front = x + c;
    assert(front.last() == c.last());
    lemma_trim_keeps_front(front, y);
    let t = text::trim_back(front + y, Class::Space);
    assert(t.subrange(x.len() as int, front.len() as int) =~= c) by {
        assert(t.subrange(x.len() as int, front.len() as int) =~= t.take(
            front.len() as int,
        ).subrange(x.len() as int, front.len() as int));
    }
    assert(text::occurs_at(t, c, x.len() as int));
}

/// A trim from the back stops at the latest where a text ends without white space.
proof fn lemma_trim_keeps_front(front: Seq<char>, back: Seq<char>)
    requires
        front.len() > 0,
        !text::is_space(front.last()),
    ensures
        text::trim_back(front + back, Class::Space).len() >= front.len(),
        text::trim_back(front + back, Class::Space).take(front.len() as int) == front,
    decreases back.len(),
{
    let s = front + back;
    if back.len() == 0 {
        assert(s =~= front);
        assert(front.take(front.len() as int) =~= front);
    } else if text::is_space(back.last()) {
        assert(s.last() == back.last());
        assert(s.drop_last() =~= front + back.drop_last());
        lemma_trim_keeps_front(front, back.drop_last());
    } else {
        assert(s.last() == back.last());
        assert(s.take(front.len() as int) =~= front);
    }
}

/// The reply is read section by section: the summary, the facts of the room and those of all rooms
/// are each taken whole from under their own header.
#[verifier::rlimit(40)]
pub proof fn law_reply_is_read_section_by_section(
    summary: Seq<char>,
    room: Seq<char>,
    global: Seq<char>,
)
    requires
        !summary.contains('#'),
        !room.contains('#'),
        !global.contains('#'),
    ensures
        ({
            let reply = "### SUMMARY\n"@ + summary + "\n### ROOM_MEMORY\n"@ + room
                + "\n### GLOBAL_MEMORY\n"@ + global;
            &&& section_of(reply, "### SUMMARY"@) == Some(text::trim(summary))
            &&& section_of(reply, "### ROOM_MEMORY"@) == Some(text::trim(room))
            &&& section_of(reply, "### GLOBAL_MEMORY"@) == Some(text::trim(global))
        }),
{
    reveal_strlit("### SUMMARY\n");
    reveal_strlit("### SUMMARY");
    reveal_strlit("\n### ROOM_MEMORY\n");
    reveal_strlit("### ROOM_MEMORY");
    reveal_strlit("ROOM_MEMORY\n");
    reveal_strlit("\n### GLOBAL_MEMORY\n");
    reveal_strlit("### GLOBAL_MEMORY");
    reveal_strlit("GLOBAL_MEMORY\n");
    reveal_strlit("\n### ");
    reveal_strlit("\n");
    let nl = "\n"@;
    let next = "\n### "@;
    let reply = "### SUMMARY\n"@ + summary + "\n### ROOM_MEMORY\n"@ + room
        + "\n### GLOBAL_MEMORY\n"@ + global;
    assert("### SUMMARY\n"@ =~= "### SUMMARY"@ + nl);
    assert("\n### ROOM_MEMORY\n"@ =~= next + "ROOM_MEMORY\n"@);
    assert("\n### GLOBAL_MEMORY\n"@ =~= next + "GLOBAL_MEMORY\n"@);
    assert("\n### ROOM_MEMORY\n"@ =~= nl + "### ROOM_MEMORY"@ + nl);
    assert("\n### GLOBAL_MEMORY\n"@ =~= nl + "### GLOBAL_MEMORY"@ + nl);
    let none = Seq::<char>::empty();
    lemma_no_header_within(summary);
    lemma_no_header_within(room);
    lemma_no_header_within(global);
    // The summary.
    let rest1 = "ROOM_MEMORY\n"@ + room + "\n### GLOBAL_MEMORY\n"@ + global;
    law_section_is_whole(none, "### SUMMARY"@, summary, rest1);
    assert(none + "### SUMMARY"@ + nl + summary + next + rest1 =~= reply);
    // The facts of the room.
    let pre2 = "### SUMMARY\n"@ + summary + nl;
    lemma_headers_apart(pre2, summary, "### ROOM_MEMORY"@);
    let rest2 = "GLOBAL_MEMORY\n"@ + global;
    law_section_is_whole(pre2, "### ROOM_MEMORY"@, room, rest2);
    assert(pre2 + "### ROOM_MEMORY"@ + nl + room + next + rest2 =~= reply);
    // The facts of all rooms.
    let pre3 = pre2 + "### ROOM_MEMORY\n"@ + room + nl;
    reveal_strlit("### ROOM_MEMORY\n");
    lemma_third_header(pre3, summary, room);
    law_last_section_is_whole(pre3, "### GLOBAL_MEMORY"@, global);
    assert(pre3 + "### GLOBAL_MEMORY"@ + nl + global =~= reply);
}

/// A text without `#` holds no header.
proof fn lemma_no_header_within(content: Seq<char>)
    requires
        !content.contains('#'),
    ensures
        text::ends_first("\n"@ + content, "\n### "@),
        !text::contains("\n"@ + content, "\n### "@),
{
    reveal_strlit("\n");
    reveal_strlit("\n### ");
    let s = "\n"@ + content;
    let next = "\n### "@;
    assert forall|j: int| 0 <= j < s.len() implies !text::occurs_at(s + next, next, j) by {
        if text::occurs_at(s + next, next, j) {
            let sub = (s + next).subrange(j, j + 5);
            assert(sub[1] == (s + next)[j + 1]);
            if j + 1 < s.len() {
                assert(content[j] == '#');
                assert(content.contains('#'));
            } else {
                assert((s + next)[j + 1] == next[0]);
            }
        }
    }
    assert forall|j: int| !text::occurs_at(s, next, j) by {
        if text::occurs_at(s, next, j) {
            assert(s.subrange(j, j + 5)[1] == s[j + 1]);
            assert(content[j] == '#');
            assert(content.contains('#'));
        }
    }
}

/// The second header stands nowhere in the summary section.
#[verifier::rlimit(40)]
proof fn lemma_headers_apart(pre: Seq<char>, summary: Seq<char>, header: Seq<char>)
    requires
        !summary.contains('#'),
        pre == "### SUMMARY\n"@ + summary + "\n"@,
        header == "### ROOM_MEMORY"@,
    ensures
        text::ends_first(pre, header),
{
    reveal_strlit("### SUMMARY\n");
    reveal_strlit("### ROOM_MEMORY");
    reveal_strlit("\n");
    let all = pre + header;
    assert forall|j: int| 0 <= j < pre.len() implies !text::occurs_at(all, header, j) by {
        if text::occurs_at(all, header, j) {
            let sub = all.subrange(j, j + header.len());
            assert(sub[0] == all[j] && sub[1] == all[j + 1] && sub[2] == all[j + 2] && sub[4]
                == all[j + 4]);
            if j >= 12 && j < 12 + summary.len() {
                assert(summary[j - 12] == '#');
                assert(summary.contains('#'));
            }
        }
    }
}

/// The third header stands nowhere in the sections before it.
#[verifier::rlimit(40)]
proof fn lemma_third_header(pre: Seq<char>, summary: Seq<char>, room: Seq<char>)
    requires
        !summary.contains('#'),
        !room.contains('#'),
        pre == "### SUMMARY\n"@ + summary + "\n"@ + "### ROOM_MEMORY\n"@ + room + "\n"@,
    ensures
        text::ends_first(pre, "### GLOBAL_MEMORY"@),
{
    reveal_strlit("### SUMMARY\n");
    reveal_strlit("### ROOM_MEMORY\n");
    reveal_strlit("### GLOBAL_MEMORY");
    reveal_strlit("\n");
    let header = "### GLOBAL_MEMORY"@;
    let all = pre + header;
    let n = summary.len() as int;
    assert forall|j: int| 0 <= j < pre.len() implies !text::occurs_at(all, header, j) by {
        if text::occurs_at(all, header, j) {
            let sub = all.subrange(j, j + header.len());
            assert(sub[0] == all[j] && sub[1] == all[j + 1] && sub[2] == all[j + 2] && sub[4]
                == all[j + 4]);
            if 12 <= j < 12 + n {
                assert(all[j] == summary[j - 12]);
                assert(summary.contains('#'));
            } else if 29 + n <= j < 29 + n + room.len() {
                assert(all[j] == room[j - 29 - n]);
                assert(room.contains('#'));
            } else if 13 + n <= j < 29 + n {
                assert(all[j] == "### ROOM_MEMORY\n"@[j - 13 - n]);
                assert(j == 13 + n);
                assert(all[j + 4] == "### ROOM_MEMORY\n"@[4]);
            }
        }
    }
}

/// Plans the compaction of a room; `None` where it has too little history.
pub fn plan(history: &HistoryStore, room_id: &str, keep_recent_turns: usize) -> (r: Option<Plan>)
    ensures
        match r {
            Some(p) => history@.messages(room_id@).len() > keep_recent_turns && is_plan(
                p,
                history@.messages(room_id@),
                keep_recent_turns as int,
            ),
            None => history@.messages(room_id@).len() <= keep_recent_turns,
        },
{
    let msgs = history.load(room_id);
    if msgs.len() <= keep_recent_turns {
        return None;
    }
    let split: usize = msgs.len() - keep_recent_turns;
    let old = history::copy_messages(slice_subrange(msgs.as_slice(), 0, split));
    let recent = history::copy_messages(slice_subrange(msgs.as_slice(), split, msgs.len()));
    assert(old@ == msgs@.take(split as int));
    assert(recent@ == msgs@.skip(split as int));
    let sys = "You compact a chat assistant's memory. Given an earlier conversation excerpt, output three sections with EXACTLY these headers and nothing before them:\n### SUMMARY\n(a concise summary preserving decisions, facts, and open threads)\n### ROOM_MEMORY\n(durable facts specific to THIS room worth remembering long-term, as short bullets; or 'none')\n### GLOBAL_MEMORY\n(durable facts useful across ALL rooms — stable preferences, identities, standing instructions — as short bullets; or 'none')\nBe terse. Do not invent facts.";
    let mut user = "Earlier conversation:\n\n".to_owned();
    let shown = render(old.as_slice());
    user.append(shown.as_str());
    let mut request: Vec<ChatMessage> = Vec::new();
    request.push(ChatMessage::system(sys));
    request.push(ChatMessage::user(user.as_str()));
    Some(Plan { request, old, recent })
}

/// The durable facts that a reply holds.
pub struct Facts {
    pub room: String,
    pub global: String,
}

/// A section of a reply, empty where it is missing.
pub open spec fn section_or_empty(reply: Seq<char>, header: Seq<char>) -> Seq<char> {
    match section_of(reply, header) {
        Some(s) => s,
        None => Seq::empty(),
    }
}

/// A section of a reply, empty where it is missing.
fn section_text(reply: &str, header: &str) -> (r: String)
    ensures
        r@ == section_or_empty(reply@, header@),
{
    match section(reply, header) {
        Some(s) => s,
        None => String::new(),
    }
}

/// `msgs` is a summary at the head, and the turns that were kept behind it.
pub open spec fn is_compacted(
    msgs: Seq<ChatMessage>,
    summary: Seq<char>,
    kept: Seq<ChatMessage>,
) -> bool {
    &&& msgs.len() == kept.len() + 1
    &&& msgs[0].role@ == "system"@
    &&& msgs[0].content@ == "[Earlier conversation summary]\n"@ + summary
    &&& msgs.skip(1) == kept
}

/// Two messages say the same.
pub open spec fn same_message(a: ChatMessage, b: ChatMessage) -> bool {
    a.role@ == b.role@ && a.content@ == b.content@
}

/// `now` starts with the messages `seen`: nothing but appends has happened since they were seen.
pub open spec fn continues(now: Seq<ChatMessage>, seen: Seq<ChatMessage>) -> bool {
    &&& seen.len() <= now.len()
    &&& forall|i: int| 0 <= i < seen.len() ==> same_message(#[trigger] now[i], seen[i])
}

/// The turns that stay behind the summary of the turns `old`, where `recent` stood behind those when
/// the model was asked: all that stands behind the old turns now. Where those no longer head the
/// history, because it was cleared since, the recent turns, and what came in since behind them.
pub open spec fn kept_turns(
    now: Seq<ChatMessage>,
    old: Seq<ChatMessage>,
    recent: Seq<ChatMessage>,
) -> Seq<ChatMessage> {
    if continues(now, old + recent) {
        now.skip(old.len() as int)
    } else {
        recent + now
    }
}

/// Whether the messages `part` stand in `now` at `from`.
fn stands_at(now: &[ChatMessage], part: &[ChatMessage], from: usize) -> (r: bool)
    requires
        from + part.len() <= now.len(),
    ensures
        r == forall|i: int|
            0 <= i < part@.len() ==> same_message(now@[from + i], #[trigger] part@[i]),
{
    let mut k: usize = 0;
    while k < part.len()
        invariant
            k <= part.len(),
            from + part.len() <= now.len(),
            forall|i: int| 0 <= i < k ==> same_message(now@[from + i], #[trigger] part@[i]),
        decreases part.len() - k,
    {
        let a = &now[from + k];
        let b = &part[k];
        if !text::same(a.role.as_str(), b.role.as_str()) || !text::same(
            a.content.as_str(),
            b.content.as_str(),
        ) {
            assert(!same_message(now@[from + k], part@[k as int]));
            return false;
        }
        k += 1;
    }
    true
}

/// The turns that stay behind the summary.
fn keep_turns(now: &[ChatMessage], old: &[ChatMessage], recent: &[ChatMessage]) -> (r: Vec<
    ChatMessage,
>)
    ensures
        r@ == kept_turns(now@, old@, recent@),
{
    let ghost seen = old@ + recent@;
    let grown = now.len() >= old.len() && now.len() - old.len() >= recent.len() && stands_at(
        now,
        old,
        0,
    ) && stands_at(now, recent, old.len());
    proof {
        if grown {
            assert forall|i: int| 0 <= i < seen.len() implies same_message(
                #[trigger] now@[i],
                seen[i],
            ) by {
                if i < old@.len() {
                    assert(same_message(now@[0 + i], old@[i]));
                } else {
                    let k = i - old@.len();
                    assert(same_message(now@[old@.len() + k], recent@[k]));
                }
            }
        } else if continues(now@, seen) {
            assert forall|i: int| 0 <= i < old@.len() implies same_message(
                now@[0 + i],
                #[trigger] old@[i],
            ) by {
                assert(same_message(now@[i], seen[i]));
            }
            assert forall|i: int| 0 <= i < recent@.len() implies same_message(
                now@[old@.len() + i],
                #[trigger] recent@[i],
            ) by {
                assert(same_message(now@[old@.len() + i], seen[old@.len() + i]));
            }
        }
    }
    if grown {
        let tail = slice_subrange(now, old.len(), now.len());
        assert(tail@ == now@.skip(old@.len() as int));
        history::copy_messages(tail)
    } else {
        let mut out = history::copy_messages(recent);
        let mut since = history::copy_messages(now);
        out.append(&mut since);
        assert(out@ == recent@ + now@);
        out
    }
}

/// Applies the model's reply to a room: the older turns that it was asked about give way to the
/// summary, every turn behind them stays, those that came in since among them, and the summary
/// becomes the room's TLDR. Gives back the durable facts that the reply holds. A reply without a
/// usable summary changes nothing.
pub fn apply_summary(
    history: &mut HistoryStore,
    memory: &mut MemoryStore,
    room_id: &str,
    plan: &Plan,
    reply: &str,
) -> (r: Option<Facts>)
    ensures
        ({
            let summary = section_or_empty(reply@, "### SUMMARY"@);
            match r {
                None => {
                    &&& summary.len() == 0
                    &&& final(history)@ == old(history)@
                    &&& final(memory)@ == old(memory)@
                },
                Some(f) => {
                    &&& summary.len() > 0
                    &&& is_compacted(
                        final(history)@.messages(room_id@),
                        summary,
                        kept_turns(
                            old(history)@.messages(room_id@),
                            plan.old@,
                            plan.recent@,
                        ),
                    )
                    &&& final(history)@ == old(history)@.recorded(room_id@).written(
                        room_id@,
                        final(history)@.messages(room_id@),
                    )
                    &&& final(memory)@ == old(memory)@.written(
                        old(memory)@.tldr_path(room_id@),
                        summary,
                    )
                    &&& f.room@ == section_or_empty(reply@, "### ROOM_MEMORY"@)
                    &&& f.global@ == section_or_empty(reply@, "### GLOBAL_MEMORY"@)
                },
            }
        }),
{
    let summary = section_text(reply, "### SUMMARY");
    // If the model returned nothing usable, don't destroy history.
    if text::chars_of(summary.as_str()).len() == 0 {
        return None;
    }
    let now = history.load(room_id);
    let room = section_text(reply, "### ROOM_MEMORY");
    let global = section_text(reply, "### GLOBAL_MEMORY");
    let mut head = "[Earlier conversation summary]\n".to_owned();
    head.append(summary.as_str());
    let mut msgs: Vec<ChatMessage> = Vec::new();
    msgs.push(ChatMessage::system(head.as_str()));
    let mut kept = keep_turns(now.as_slice(), plan.old.as_slice(), plan.recent.as_slice());
    let ghost first = msgs@;
    let ghost rest = kept@;
    msgs.append(&mut kept);
    assert(msgs@ == first + rest);
    assert(msgs@.skip(1) == rest);
    history.rewrite(room_id, msgs);
    memory.rewrite_tldr(room_id, summary.as_str());
    Some(Facts { room, global })
}

/// A compaction keeps the last turns of a room as they were, behind one summary, and behind them
/// the turns that came in while the model was asked.
pub proof fn law_recent_turns_are_kept(
    msgs: Seq<ChatMessage>,
    since: Seq<ChatMessage>,
    after: Seq<ChatMessage>,
    p: Plan,
    summary: Seq<char>,
    keep: int,
)
    requires
        0 <= keep < msgs.len(),
        is_plan(p, msgs, keep),
        is_compacted(after, summary, kept_turns(msgs + since, p.old@, p.recent@)),
    ensures
        after.len() == 1 + keep + since.len(),
        after.skip(1) == msgs.skip(msgs.len() - keep) + since,
{
    let split = msgs.len() - keep;
    assert(p.old@ + p.recent@ =~= msgs);
    assert(continues(msgs + since, msgs));
    assert((msgs + since).skip(split) =~= msgs.skip(split) + since);
}

/// Where the history was cleared while the model was asked, the turns that were to be kept stand
/// behind the summary, and behind them what came in since.
pub proof fn law_cleared_history_loses_no_append(
    msgs: Seq<ChatMessage>,
    since: Seq<ChatMessage>,
    after: Seq<ChatMessage>,
    p: Plan,
    summary: Seq<char>,
    keep: int,
)
    requires
        0 <= keep < msgs.len(),
        is_plan(p, msgs, keep),
        !continues(since, msgs),
        is_compacted(after, summary, kept_turns(since, p.old@, p.recent@)),
    ensures
        after.len() == 1 + keep + since.len(),
        after.skip(1) == msgs.skip(msgs.len() - keep) + since,
{
    assert(p.old@ + p.recent@ =~= msgs);
}

/// A message that is appended to a room while the model is asked is still there, as the last one,
/// once the reply was applied; the room's file is not the list of rooms.
pub proof fn law_later_append_survives(
    h: history::HistoryView,
    room_id: Seq<char>,
    msg: ChatMessage,
    after: history::HistoryView,
    p: Plan,
    summary: Seq<char>,
    keep: int,
)
    requires
        h.room_path(room_id) != h.known_path(),
        0 <= keep < h.messages(room_id).len(),
        is_plan(p, h.messages(room_id), keep),
        ({
            let appended = h.recorded(room_id).written(
                room_id,
                h.recorded(room_id).messages(room_id).push(msg),
            );
            is_compacted(
                after.messages(room_id),
                summary,
                kept_turns(appended.messages(room_id), p.old@, p.recent@),
            )
        }),
    ensures
        after.messages(room_id).len() == keep + 2,
        after.messages(room_id).last() == msg,
{
    let msgs = h.messages(room_id);
    assert(msgs.push(msg) =~= msgs + seq![msg]);
    law_recent_turns_are_kept(msgs, seq![msg], after.messages(room_id), p, summary, keep);
    assert(after.messages(room_id).skip(1).last() == msg);
}

/// Adds the room facts to the room's memory. Gives back the memory where it has outgrown its cap
/// and is to be condensed.
pub fn note_room(memory: &mut MemoryStore, room_id: &str, facts: &str, max_tokens: usize) -> (r:
    Option<String>)
    ensures
        final(memory)@ == (if says_something(facts@) {
            old(memory)@.appended(old(memory)@.room_path(room_id@), facts@)
        } else {
            old(memory)@
        }),
        text::opt_string(r) == (if says_something(facts@) && memory::memory_tokens(
            final(memory)@.read(final(memory)@.room_path(room_id@)),
        ) > max_tokens {
            Some(final(memory)@.read(final(memory)@.room_path(room_id@)))
        } else {
            None
        }),
{
    if !is_content(facts) {
        return None;
    }
    memory.append_room(room_id, facts);
    if memory.room_tokens(room_id) > max_tokens {
        Some(memory.read_room(room_id))
    } else {
        None
    }
}

/// Adds the broadly useful facts to the global memory. Gives back the memory where it has outgrown
/// its cap and is to be condensed.
pub fn note_global(memory: &mut MemoryStore, facts: &str, max_tokens: usize) -> (r: Option<String>)
    ensures
        final(memory)@ == (if says_something(facts@) {
            old(memory)@.appended(old(memory)@.global_path, facts@)
        } else {
            old(memory)@
        }),
        text::opt_string(r) == (if says_something(facts@) && memory::memory_tokens(
            final(memory)@.read(final(memory)@.global_path),
        ) > max_tokens {
            Some(final(memory)@.read(final(memory)@.global_path))
        } else {
            None
        }),
{
    if !is_content(facts) {
        return None;
    }
    memory.append_global(facts);
    if memory.global_tokens() > max_tokens {
        Some(memory.read_global())
    } else {
        None
    }
}

/// What the model is asked to re-summarize an over-cap memory file, to bound its growth.
pub fn condense_request(notes: &str, target_tokens: usize) -> (r: Vec<ChatMessage>)
    ensures
        r@.len() == 2,
        r@[0].role@ == "system"@,
        r@[0].content@ == "Condense the following notes to well under "@ + text::decimal(
            target_tokens as nat,
        )
            + " tokens, keeping the most important durable facts as short bullets. Merge duplicates. Output only the condensed notes."@,
        r@[1].role@ == "user"@,
        r@[1].content@ == notes@,
{
    let mut sys = "Condense the following notes to well under ".to_owned();
    text::push_decimal(&mut sys, target_tokens as u64);
    sys.append(
        " tokens, keeping the most important durable facts as short bullets. Merge duplicates. Output only the condensed notes.",
    );
    let mut out: Vec<ChatMessage> = Vec::new();
    out.push(ChatMessage::system(sys.as_str()));
    out.push(ChatMessage::user(notes));
    out
}

/// Whether a room is due for compaction: compaction is on, and the history has more tokens than the
/// trigger. The trigger is `trigger_tokens` where it is set, else `window_share`, the configured
/// share of the room's history window.
pub fn is_due(
    history: &HistoryStore,
    room_id: &str,
    enabled: bool,
    trigger_tokens: usize,
    window_share: usize,
) -> (r: bool)
    ensures
        r == (enabled && history::total(history@.messages(room_id@)) > (if trigger_tokens > 0 {
            trigger_tokens
        } else {
            window_share
        })),
{
    if !enabled {
        return false;
    }
    let trigger: usize = if trigger_tokens > 0 { trigger_tokens } else { window_share };
    let msgs = history.load(room_id);
    history::exceeds(msgs.as_slice(), trigger)
}

/// After a compaction one note heads the history, which tells the summary as the model wrote it.
pub proof fn law_summary_heads_the_history(
    msgs: Seq<ChatMessage>,
    summary: Seq<char>,
    kept: Seq<ChatMessage>,
)
    requires
        is_compacted(msgs, summary, kept),
    ensures
        msgs.len() == kept.len() + 1,
        msgs[0].role@ == "system"@,
        msgs[0].content@ == "[Earlier conversation summary]\n"@ + summary,
        forall|i: int| 0 <= i < kept.len() ==> msgs[i + 1] == #[trigger] kept[i],
{
    assert forall|i: int| 0 <= i < kept.len() implies msgs[i + 1] == #[trigger] kept[i] by {
        assert(msgs.skip(1)[i] == msgs[i + 1]);
    }
}

/// A section that a reply lacks is taken as empty.
pub proof fn law_missing_sections_are_empty(reply: Seq<char>, header: Seq<char>)
    ensures
        !text::contains(reply, header) ==> section_or_empty(reply, header).len() == 0,
        section_of(reply, header) matches Some(s) ==> section_or_empty(reply, header) == s,
{
    if !text::contains(reply, header) {
        text::lemma_find_none(reply, header);
    }
}

/// A history continues what was seen where each message of that stands in its place with its role and
/// its text, and only there.
pub proof fn law_continued_history_has_what_was_seen(
    now: Seq<ChatMessage>,
    seen: Seq<ChatMessage>,
    i: int,
)
    requires
        0 <= i < seen.len(),
    ensures
        continues(now, seen) ==> now.len() >= seen.len() && now[i].role@ == seen[i].role@
            && now[i].content@ == seen[i].content@,
        now.len() < seen.len() || now[i].role@ != seen[i].role@ || now[i].content@
            != seen[i].content@ ==> !continues(now, seen),
{
    if continues(now, seen) {
        assert(same_message(now[i], seen[i]));
    }
}

/// The model is told the headers under which its reply is read.
#[verifier::rlimit(40)]
pub proof fn law_prompt_names_the_headers()
    ensures
        text::contains(compaction_prompt(), "\n### SUMMARY\n"@),
        text::contains(compaction_prompt(), "\n### ROOM_MEMORY\n"@),
        text::contains(compaction_prompt(), "\n### GLOBAL_MEMORY\n"@),
{
    reveal_strlit("You compact a chat assistant's memory. Given an earlier conversation excerpt, output three sections with EXACTLY these headers and nothing before them:\n### SUMMARY\n(a concise summary preserving decisions, facts, and open threads)\n### ROOM_MEMORY\n(durable facts specific to THIS room worth remembering long-term, as short bullets; or 'none')\n### GLOBAL_MEMORY\n(durable facts useful across ALL rooms — stable preferences, identities, standing instructions — as short bullets; or 'none')\nBe terse. Do not invent facts.");
    let p = compaction_prompt();
    reveal_strlit("\n### SUMMARY\n");
    assert(p.subrange(151, 164) =~= "\n### SUMMARY\n"@);
    assert(text::occurs_at(p, "\n### SUMMARY\n"@, 151));
    reveal_strlit("\n### ROOM_MEMORY\n");
    assert(p.subrange(229, 246) =~= "\n### ROOM_MEMORY\n"@);
    assert(text::occurs_at(p, "\n### ROOM_MEMORY\n"@, 229));
    reveal_strlit("\n### GLOBAL_MEMORY\n");
    assert(p.subrange(340, 359) =~= "\n### GLOBAL_MEMORY\n"@);
    assert(text::occurs_at(p, "\n### GLOBAL_MEMORY\n"@, 340));
}

/// A section starts right behind its header, on the same line or on the next, and ends where the next
/// header starts, or with the text.
pub proof fn law_section_starts_behind_its_header(
    pre: Seq<char>,
    header: Seq<char>,
    content: Seq<char>,
    rest: Seq<char>,
)
    requires
        text::ends_first(pre, header),
    ensures
        text::ends_first(content, "\n### "@) ==> section_of(
            pre + header + content + "\n### "@ + rest,
            header,
        ) == Some(text::trim(content)),
        !text::contains(content, "\n### "@) ==> section_of(pre + header + content, header) == Some(
            text::trim(content),
        ),
{
    let next = "\n### "@;
    if text::ends_first(content, next) {
        let tail = content + next + rest;
        let body = pre + header + content + next + rest;
        assert(body =~= pre + header + tail);
        text::lemma_find_behind(pre, header, tail);
        assert(body.skip((pre.len() + header.len()) as int) =~= tail);
        text::lemma_find_behind(content, next, rest);
        assert(tail.take(content.len() as int) =~= content);
    }
    if !text::contains(content, next) {
        let body = pre + header + content;
        text::lemma_find_behind(pre, header, content);
        assert(body.skip((pre.len() + header.len()) as int) =~= content);
        text::lemma_find_none(content, next);
    }
}

/// The model is told the transcript of the older turns, from the first to the last of them, and nothing
/// of the recent ones: but for the line break behind the last turn, which does not end in white space.
pub proof fn law_only_the_older_turns_are_told(p: Plan, msgs: Seq<ChatMessage>, keep: int)
    requires
        is_plan(p, msgs, keep),
        0 <= keep < msgs.len(),
        msgs[msgs.len() - keep - 1].content@.len() > 0,
        !text::is_space(msgs[msgs.len() - keep - 1].content@.last()),
    ensures
        p.request@[1].content@ + "\n\n"@ == "Earlier conversation:\n\n"@ + transcript(
            msgs.take(msgs.len() - keep),
        ),
{
    reveal_strlit("\n\n");
    let older = msgs.take(msgs.len() - keep);
    let nl = "\n\n"@;
    let head = transcript(older.drop_last()) + label(older.last().role@) + ": "@
        + older.last().content@;
    assert(older.last() == msgs[msgs.len() - keep - 1]);
    assert(transcript(older) == head + nl);
    assert(head.last() == older.last().content@.last());
    assert(text::is_space('\n'));
    text::lemma_back_taken(head, nl, Class::Space);
    assert(rendered(older) == head);
    assert("Earlier conversation:\n\n"@ + head + nl =~= "Earlier conversation:\n\n"@ + (head + nl));
}

} // verus!
