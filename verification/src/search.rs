//! Search over the web and over the history, as text for the model.

use crate::history::{ChatMessage, HistoryStore};
use crate::history;
use crate::text;
use vstd::prelude::*;
use vstd::slice::slice_subrange;
use vstd::string::*;

verus! {

/// One hit of a web search.
#[derive(Debug)]
pub struct SearxngResult {
    pub title: String,
    pub url: String,
    pub content: String,
    pub published_date: Option<String>,
}

/// What a web search gives back.
#[derive(Debug)]
pub struct SearxngResponse {
    pub results: Vec<SearxngResult>,
    pub answers: Vec<String>,
}

/// The direct answers, a paragraph each.
pub open spec fn answers_text(answers: Seq<String>) -> Seq<char>
    decreases answers.len(),
{
    if answers.len() == 0 {
        Seq::empty()
    } else {
        answers_text(answers.drop_last()) + "Answer: "@ + answers.last()@ + "\n\n"@
    }
}

/// A hit under its number: title, address, the start of its text and its date where it has them.
pub open spec fn result_text(number: nat, r: SearxngResult) -> Seq<char> {
    text::decimal(number) + ". **"@ + r.title@ + "**\n"@ + "   URL: "@ + r.url@ + "\n"@ + (
    if r.content@.len() > 0 {
        "   "@ + text::first(r.content@, 300) + "\n"@
    } else {
        ""@
    }) + (match r.published_date {
        Some(d) => "   Published: "@ + d@ + "\n"@,
        None => ""@,
    }) + "\n"@
}

/// The hits, numbered from one.
pub open spec fn results_text(results: Seq<SearxngResult>) -> Seq<char>
    decreases results.len(),
{
    if results.len() == 0 {
        Seq::empty()
    } else {
        results_text(results.drop_last()) + result_text(results.len(), results.last())
    }
}

/// The text of a web search: the answers and the first five hits.
pub open spec fn search_text(query: Seq<char>, resp: SearxngResponse) -> Seq<char> {
    if resp.results@.len() == 0 && resp.answers@.len() == 0 {
        "No results found for: "@ + query
    } else {
        "Search results for: "@ + query + "\n\n"@ + answers_text(resp.answers@) + results_text(
            if resp.results@.len() <= 5 {
                resp.results@
            } else {
                resp.results@.take(5)
            },
        )
    }
}

/// A hit under its number.
fn result_of(number: usize, r: &SearxngResult) -> (s: String)
    ensures
        s@ == result_text(number as nat, *r),
{
    proof {
        reveal_strlit("");
    }
    let mut out = text::decimal_of(number as u64);
    out.append(". **");
    out.append(r.title.as_str());
    out.append("**\n");
    out.append("   URL: ");
    out.append(r.url.as_str());
    out.append("\n");
    let ghost so_far = out@;
    let content = text::chars_of(r.content.as_str());
    if content.len() > 0 {
        let snippet = text::string_of(text::first_chars(content.as_slice(), 300));
        out.append("   ");
        out.append(snippet.as_str());
        out.append("\n");
        assert(out@ == so_far + ("   "@ + text::first(r.content@, 300) + "\n"@));
    } else {
        assert(out@ == so_far + ""@);
    }
    let ghost with_content = out@;
    match &r.published_date {
        Some(d) => {
            out.append("   Published: ");
            out.append(d.as_str());
            out.append("\n");
            assert(out@ == with_content + ("   Published: "@ + d@ + "\n"@));
        },
        None => {
            assert(out@ == with_content + ""@);
        },
    }
    out.append("\n");
    out
}

/// The text of a web search: the answers and the first five hits.
pub fn format_search_results(query: &str, resp: &SearxngResponse) -> (r: String)
    ensures
        r@ == search_text(query@, *resp),
{
    if resp.results.len() == 0 && resp.answers.len() == 0 {
        let mut out = "No results found for: ".to_owned();
        out.append(query);
        return out;
    }
    let mut out = "Search results for: ".to_owned();
    out.append(query);
    out.append("\n\n");
    let ghost head = out@;
    let mut i: usize = 0;
    assert(out@ == head + answers_text(resp.answers@.take(0)));
    while i < resp.answers.len()
        invariant
            i <= resp.answers.len(),
            out@ == head + answers_text(resp.answers@.take(i as int)),
        decreases resp.answers.len() - i,
    {
        out.append("Answer: ");
        out.append(resp.answers[i].as_str());
        out.append("\n\n");
        assert(resp.answers@.take(i + 1).drop_last() == resp.answers@.take(i as int));
        assert(out@ == head + answers_text(resp.answers@.take(i + 1)));
        i += 1;
    }
    assert(resp.answers@.take(resp.answers@.len() as int) == resp.answers@);
    let ghost with_answers = out@;
    let n: usize = if resp.results.len() < 5 { resp.results.len() } else { 5 };
    i = 0;
    assert(out@ == with_answers + results_text(resp.results@.take(0)));
    while i < n
        invariant
            i <= n <= resp.results.len(),
            n <= 5,
            out@ == with_answers + results_text(resp.results@.take(i as int)),
        decreases n - i,
    {
        let one = result_of(i + 1, &resp.results[i]);
        out.append(one.as_str());
        assert(resp.results@.take(i + 1).drop_last() == resp.results@.take(i as int));
        assert(out@ == with_answers + results_text(resp.results@.take(i + 1)));
        i += 1;
    }
    assert(resp.results@.take(resp.results@.len() as int) == resp.results@);
    out
}

/// A message body, cut after 300 bytes; `None` where the cut would fall inside a character.
pub open spec fn snippet(content: Seq<char>) -> Option<Seq<char>> {
    if text::utf8_len(content) > 300 {
        match text::cut(content, 300) {
            Some(k) => Some(content.take(k) + "…"@),
            None => None,
        }
    } else {
        Some(content)
    }
}

/// A message as a line, marked where it is the hit.
pub open spec fn message_line(m: ChatMessage, hit: bool) -> Option<Seq<char>> {
    match snippet(m.content@) {
        Some(s) => Some(
            (if hit {
                ">>>"@
            } else {
                "   "@
            }) + " ["@ + m.role@ + "] "@ + s,
        ),
        None => None,
    }
}

/// The messages from `from` up to `to` as lines; `hit` is the place of the hit.
pub open spec fn context_lines(msgs: Seq<ChatMessage>, from: int, to: int, hit: int) -> Option<
    Seq<Seq<char>>,
>
    decreases to - from,
{
    if to <= from {
        Some(Seq::empty())
    } else {
        match (context_lines(msgs, from, to - 1, hit), message_line(msgs[to - 1], to - 1 == hit)) {
            (Some(ls), Some(l)) => Some(ls.push(l)),
            _ => None,
        }
    }
}

/// A hit with the message before it and the one after it.
pub open spec fn hit_block(room: Seq<char>, msgs: Seq<ChatMessage>, hit: int) -> Option<Seq<char>> {
    let from = if hit == 0 { 0 } else { hit - 1 };
    let to = if hit + 2 <= msgs.len() { hit + 2 } else { msgs.len() as int };
    match context_lines(msgs, from, to, hit) {
        Some(ls) => Some("Room: "@ + room + "\n"@ + text::join(ls, "\n"@)),
        None => None,
    }
}

/// Whether a message holds the query, whatever the case of either.
pub open spec fn is_hit(m: ChatMessage, query: Seq<char>) -> bool {
    text::contains(text::lowercase(m.content@), text::lowercase(query))
}

/// The places of the hits among the first `n` messages of a room.
pub open spec fn room_hits(
    room: Seq<char>,
    msgs: Seq<ChatMessage>,
    query: Seq<char>,
    n: int,
) -> Seq<(Seq<char>, int)>
    decreases n,
{
    if n <= 0 {
        Seq::empty()
    } else if is_hit(msgs[n - 1], query) {
        room_hits(room, msgs, query, n - 1).push((room, n - 1))
    } else {
        room_hits(room, msgs, query, n - 1)
    }
}

/// The places of the hits in the given rooms, room after room.
pub open spec fn hits(
    h: history::HistoryView,
    rooms: Seq<Seq<char>>,
    query: Seq<char>,
) -> Seq<(Seq<char>, int)>
    decreases rooms.len(),
{
    if rooms.len() == 0 {
        Seq::empty()
    } else {
        let room = rooms.last();
        hits(h, rooms.drop_last(), query) + room_hits(
            room,
            h.messages(room),
            query,
            h.messages(room).len() as int,
        )
    }
}

/// The hits at the given places as blocks of text.
pub open spec fn blocks(h: history::HistoryView, places: Seq<(Seq<char>, int)>) -> Option<
    Seq<Seq<char>>,
>
    decreases places.len(),
{
    if places.len() == 0 {
        Some(Seq::empty())
    } else {
        let (room, i) = places.last();
        match (blocks(h, places.drop_last()), hit_block(room, h.messages(room), i)) {
            (Some(bs), Some(b)) => Some(bs.push(b)),
            _ => None,
        }
    }
}

/// The first `limit` of the hits.
pub open spec fn first_hits(
    h: history::HistoryView,
    rooms: Seq<Seq<char>>,
    query: Seq<char>,
    limit: nat,
) -> Seq<(Seq<char>, int)> {
    let all = hits(h, rooms, query);
    if all.len() <= limit {
        all
    } else {
        all.take(limit as int)
    }
}

/// The answer to a search for `query` that hit at the given places.
pub open spec fn shown_hits(
    h: history::HistoryView,
    query: Seq<char>,
    places: Seq<(Seq<char>, int)>,
) -> Option<Seq<char>> {
    match blocks(h, places) {
        None => None,
        Some(bs) => Some(
            if bs.len() == 0 {
                "No messages found matching '"@ + query + "'."@
            } else {
                "Found "@ + text::decimal(bs.len()) + " match(es) for '"@ + query + "':\n\n"@
                    + text::join(bs, "\n\n---\n\n"@)
            },
        ),
    }
}

/// The answer to a search of the history. `None` where a snippet would be cut inside a character.
pub open spec fn history_text(
    h: history::HistoryView,
    query: Seq<char>,
    room_filter: Option<Seq<char>>,
    limit: nat,
) -> Option<Seq<char>> {
    let rooms = match room_filter {
        Some(r) => seq![r],
        None => h.rooms(),
    };
    if query.len() == 0 {
        Some("error: query must not be empty"@)
    } else if rooms.len() == 0 {
        Some("No history found."@)
    } else {
        shown_hits(h, query, first_hits(h, rooms, query, limit))
    }
}

/// A message as a line.
fn line_of(m: &ChatMessage, hit: bool) -> (r: Option<String>)
    ensures
        text::opt_string(r) == message_line(*m, hit),
{
    let mut out = if hit { ">>>".to_owned() } else { "   ".to_owned() };
    out.append(" [");
    out.append(m.role.as_str());
    out.append("] ");
    let ghost head = out@;
    if text::byte_len(m.content.as_str()) > 300 {
        let v = text::chars_of(m.content.as_str());
        match text::cut_at(v.as_slice(), 300) {
            Some(k) => {
                let start = text::string_of(slice_subrange(v.as_slice(), 0, k));
                assert(start@ == m.content@.take(k as int));
                out.append(start.as_str());
                out.append("…");
                assert(out@ == head + (m.content@.take(k as int) + "…"@));
            },
            None => {
                return None;
            },
        }
    } else {
        out.append(m.content.as_str());
    }
    Some(out)
}

/// A hit with the message before it and the one after it.
fn block_of(room: &str, msgs: &[ChatMessage], hit: usize) -> (r: Option<String>)
    requires
        hit < msgs.len(),
    ensures
        text::opt_string(r) == hit_block(room@, msgs@, hit as int),
{
    let from: usize = if hit == 0 { 0 } else { hit - 1 };
    let to: usize = if msgs.len() - hit >= 2 { hit + 2 } else { msgs.len() };
    let mut lines: Vec<String> = Vec::new();
    let mut j: usize = from;
    assert(text::views(lines@) == Seq::<Seq<char>>::empty());
    while j < to
        invariant
            from <= j <= to <= msgs.len(),
            context_lines(msgs@, from as int, j as int, hit as int) == Some(text::views(lines@)),
            hit < msgs.len(),
            from == (if hit == 0 { 0 } else { hit - 1 }),
            to == (if hit + 2 <= msgs.len() { hit + 2 } else { msgs.len() as int }),
        decreases to - j,
    {
        match line_of(&msgs[j], j == hit) {
            Some(l) => {
                let ghost before = lines@;
                lines.push(l);
                assert(text::views(lines@) == text::views(before).push(l@));
            },
            None => {
                proof {
                    lemma_context_fails(msgs@, from as int, j + 1, to as int, hit as int);
                }
                return None;
            },
        }
        j += 1;
    }
    let mut out = "Room: ".to_owned();
    out.append(room);
    out.append("\n");
    let all = text::joined(lines.as_slice(), "\n");
    out.append(all.as_str());
    Some(out)
}

/// A context with a line that cannot be written cannot be written.
proof fn lemma_context_fails(msgs: Seq<ChatMessage>, from: int, j: int, to: int, hit: int)
    requires
        from < j <= to,
        context_lines(msgs, from, j, hit) is None,
    ensures
        context_lines(msgs, from, to, hit) is None,
    decreases to - j,
{
    if j < to {
        lemma_context_fails(msgs, from, j, to - 1, hit);
    }
}

/// The hits among fewer messages come first.
proof fn lemma_room_hits_prefix(
    room: Seq<char>,
    msgs: Seq<ChatMessage>,
    query: Seq<char>,
    i: int,
    n: int,
)
    requires
        0 <= i <= n,
    ensures
        room_hits(room, msgs, query, i).is_prefix_of(room_hits(room, msgs, query, n)),
    decreases n - i,
{
    if i < n {
        lemma_room_hits_prefix(room, msgs, query, i, n - 1);
    }
}

/// The hits in fewer rooms come first.
proof fn lemma_hits_prefix(
    h: history::HistoryView,
    rooms: Seq<Seq<char>>,
    query: Seq<char>,
    r: int,
)
    requires
        0 <= r <= rooms.len(),
    ensures
        hits(h, rooms.take(r), query).is_prefix_of(hits(h, rooms, query)),
    decreases rooms.len() - r,
{
    if r == rooms.len() {
        assert(rooms.take(r) == rooms);
    } else {
        lemma_hits_prefix(h, rooms, query, r + 1);
        assert(rooms.take(r + 1).drop_last() == rooms.take(r));
    }
}

/// Blocks that cannot be written for some places cannot be written for more.
proof fn lemma_blocks_fail(h: history::HistoryView, places: Seq<(Seq<char>, int)>, n: int)
    requires
        0 <= n <= places.len(),
        blocks(h, places.take(n)) is None,
    ensures
        blocks(h, places) is None,
    decreases places.len() - n,
{
    if n == places.len() {
        assert(places.take(n) == places);
    } else {
        assert(places.take(n + 1).drop_last() == places.take(n));
        lemma_blocks_fail(h, places, n + 1);
    }
}

/// Places in the history, by their rooms' names.
pub open spec fn place_views(places: Seq<(String, usize)>) -> Seq<(Seq<char>, int)> {
    places.map_values(|p: (String, usize)| (p.0@, p.1 as int))
}

/// Every place names a message.
pub open spec fn are_places(h: history::HistoryView, places: Seq<(String, usize)>) -> bool {
    forall|i: int|
        0 <= i < places.len() ==> (#[trigger] places[i]).1 < h.messages(places[i].0@).len()
}

/// The first `limit` hits in `rooms`.
fn find_hits(h: &HistoryStore, query: &str, rooms: &[String], limit: usize) -> (r: Vec<
    (String, usize),
>)
    ensures
        place_views(r@) == first_hits(h@, text::views(rooms@), query@, limit as nat),
        are_places(h@, r@),
{
    let query_lower = query.to_lowercase();
    let ghost names = text::views(rooms@);
    let ghost all = hits(h@, names, query@);
    let mut found: Vec<(String, usize)> = Vec::new();
    let mut r: usize = 0;
    assert(place_views(found@) == Seq::<(Seq<char>, int)>::empty());
    assert(names.take(0) == Seq::<Seq<char>>::empty());
    while r < rooms.len() && found.len() < limit
        invariant
            r <= rooms.len(),
            query_lower@ == text::lowercase(query@),
            names == text::views(rooms@),
            all == hits(h@, names, query@),
            place_views(found@).is_prefix_of(all),
            found.len() <= limit,
            are_places(h@, found@),
            found.len() < limit ==> place_views(found@) == hits(
                h@,
                names.take(r as int),
                query@,
            ),
        decreases rooms.len() - r,
    {
        let msgs = h.load(rooms[r].as_str());
        let ghost room = names[r as int];
        let ghost start = place_views(found@);
        proof {
            lemma_hits_prefix(h@, names, query@, r + 1);
            assert(names.take(r + 1).drop_last() == names.take(r as int));
            assert(start + Seq::<(Seq<char>, int)>::empty() == start);
        }
        let mut i: usize = 0;
        while i < msgs.len() && found.len() < limit
            invariant
                i <= msgs.len(),
                r < rooms.len(),
                query_lower@ == text::lowercase(query@),
                names == text::views(rooms@),
                room == names[r as int],
                msgs@ == h@.messages(room),
                all == hits(h@, names, query@),
                (start + room_hits(room, msgs@, query@, msgs@.len() as int)).is_prefix_of(all),
                place_views(found@).is_prefix_of(all),
                found.len() <= limit,
                are_places(h@, found@),
                found.len() < limit ==> place_views(found@) == start + room_hits(
                    room,
                    msgs@,
                    query@,
                    i as int,
                ),
            decreases msgs.len() - i,
        {
            let low = msgs[i].content.to_lowercase();
            proof {
                lemma_room_hits_prefix(room, msgs@, query@, i + 1, msgs@.len() as int);
            }
            if text::has_text(low.as_str(), query_lower.as_str()) {
                let ghost before = found@;
                found.push((rooms[r].clone(), i));
                proof {
                    let upto = start + room_hits(room, msgs@, query@, i + 1);
                    assert(place_views(found@) == place_views(before).push((room, i as int)));
                    assert(upto == place_views(found@));
                    assert(upto.is_prefix_of(all));
                }
            }
            i += 1;
        }
        r += 1;
    }
    proof {
        let seen = place_views(found@);
        if found.len() < limit {
            assert(names.take(names.len() as int) == names);
            assert(all == seen);
        } else {
            assert(all.take(seen.len() as int) == seen);
            if all.len() <= limit {
                assert(all == seen);
            }
        }
    }
    found
}

/// The answer to a search for `query` that hit at the given places; `None` where a snippet would
/// be cut inside a character.
pub fn show_hits(h: &HistoryStore, query: &str, places: &[(String, usize)]) -> (r: Option<String>)
    requires
        are_places(h@, places@),
    ensures
        text::opt_string(r) == shown_hits(h@, query@, place_views(places@)),
{
    let ghost all = place_views(places@);
    let mut found: Vec<String> = Vec::new();
    let mut i: usize = 0;
    assert(all.take(0) == Seq::<(Seq<char>, int)>::empty());
    assert(text::views(found@) == Seq::<Seq<char>>::empty());
    while i < places.len()
        invariant
            i <= places.len(),
            are_places(h@, places@),
            all == place_views(places@),
            blocks(h@, all.take(i as int)) == Some(text::views(found@)),
        decreases places.len() - i,
    {
        let msgs = h.load(places[i].0.as_str());
        proof {
            assert(all.take(i + 1).drop_last() == all.take(i as int));
            assert(all.take(i + 1).last() == (places@[i as int].0@, places@[i as int].1 as int));
        }
        match block_of(places[i].0.as_str(), msgs.as_slice(), places[i].1) {
            Some(b) => {
                let ghost before = found@;
                found.push(b);
                assert(text::views(found@) == text::views(before).push(b@));
            },
            None => {
                proof {
                    lemma_blocks_fail(h@, all, i + 1);
                }
                return None;
            },
        }
        i += 1;
    }
    assert(all.take(all.len() as int) == all);
    assert(text::views(found@).len() == found@.len());
    if found.len() == 0 {
        let mut out = "No messages found matching '".to_owned();
        out.append(query);
        out.append("'.");
        Some(out)
    } else {
        let mut out = "Found ".to_owned();
        text::push_decimal(&mut out, found.len() as u64);
        out.append(" match(es) for '");
        out.append(query);
        out.append("':\n\n");
        let joined = text::joined(found.as_slice(), "\n\n---\n\n");
        out.append(joined.as_str());
        Some(out)
    }
}

/// The answer to a search of the history, or `None` where a snippet cannot be cut.
fn answer(history: &HistoryStore, query: &str, room_filter: Option<&str>, limit: usize) -> (r:
    Option<String>)
    ensures
        text::opt_string(r) == history_text(
            history@,
            query@,
            text::opt_str(room_filter),
            limit as nat,
        ),
{
    if text::chars_of(query).len() == 0 {
        return Some("error: query must not be empty".to_owned());
    }
    let rooms: Vec<String> = match room_filter {
        Some(r) => {
            let mut one: Vec<String> = Vec::new();
            one.push(r.to_owned());
            assert(text::views(one@) == seq![r@]);
            one
        },
        None => history.list_room_ids(),
    };
    assert(text::views(rooms@).len() == rooms@.len());
    if rooms.len() == 0 {
        return Some("No history found.".to_owned());
    }
    let places = find_hits(history, query, rooms.as_slice(), limit);
    show_hits(history, query, places.as_slice())
}

/// Case-insensitive substring search across room history files.
/// Returns up to `limit` matching messages formatted for LLM consumption.
pub fn search_history(
    history: &HistoryStore,
    query: &str,
    room_filter: Option<&str>,
    limit: usize,
) -> (r: String)
    requires
        history_text(history@, query@, text::opt_str(room_filter), limit as nat) is Some,
    ensures
        history_text(history@, query@, text::opt_str(room_filter), limit as nat) == Some(r@),
{
    match answer(history, query, room_filter, limit) {
        Some(s) => s,
        None => String::new(),
    }
}

/// `search_history` where nothing is known of the messages: `None` where the snippet of a message
/// to show would be cut inside a character.
pub fn search_history_checked(
    history: &HistoryStore,
    query: &str,
    room_filter: Option<&str>,
    limit: usize,
) -> (r: Option<String>)
    ensures
        text::opt_string(r) == history_text(
            history@,
            query@,
            text::opt_str(room_filter),
            limit as nat,
        ),
{
    if answer(history, query, room_filter, limit).is_none() {
        None
    } else {
        Some(search_history(history, query, room_filter, limit))
    }
}

/// No room has more hits than messages.
proof fn lemma_room_hits_are_hits(
    room: Seq<char>,
    msgs: Seq<ChatMessage>,
    query: Seq<char>,
    n: int,
    j: int,
)
    requires
        0 <= n <= msgs.len(),
        0 <= j < room_hits(room, msgs, query, n).len(),
    ensures
        room_hits(room, msgs, query, n)[j].0 == room,
        0 <= room_hits(room, msgs, query, n)[j].1 < n,
        is_hit(msgs[room_hits(room, msgs, query, n)[j].1], query),
    decreases n,
{
    if n > 0 && j < room_hits(room, msgs, query, n - 1).len() {
        lemma_room_hits_are_hits(room, msgs, query, n - 1, j);
    }
}

/// Every hit names one of the rooms that were searched, and a message of that room which holds
/// the query.
pub proof fn law_hits_match(
    h: history::HistoryView,
    rooms: Seq<Seq<char>>,
    query: Seq<char>,
    j: int,
)
    requires
        0 <= j < hits(h, rooms, query).len(),
    ensures
        rooms.contains(hits(h, rooms, query)[j].0),
        0 <= hits(h, rooms, query)[j].1 < h.messages(hits(h, rooms, query)[j].0).len(),
        is_hit(
            h.messages(hits(h, rooms, query)[j].0)[hits(h, rooms, query)[j].1],
            query,
        ),
    decreases rooms.len(),
{
    let rest = rooms.drop_last();
    let n = hits(h, rest, query).len();
    if j < n {
        law_hits_match(h, rest, query, j);
        let k = choose|k: int| 0 <= k < rest.len() && rest[k] == hits(h, rest, query)[j].0;
        assert(rooms[k] == rest[k]);
    } else {
        let room = rooms.last();
        lemma_room_hits_are_hits(
            room,
            h.messages(room),
            query,
            h.messages(room).len() as int,
            j - n,
        );
        assert(rooms[rooms.len() - 1] == room);
    }
}

/// There are as many blocks as places.
proof fn lemma_blocks_len(h: history::HistoryView, places: Seq<(Seq<char>, int)>)
    ensures
        match blocks(h, places) {
            Some(bs) => bs.len() == places.len(),
            None => true,
        },
    decreases places.len(),
{
    if places.len() > 0 {
        lemma_blocks_len(h, places.drop_last());
    }
}

/// A search shows every hit up to the limit, and none beyond it.
pub proof fn law_limit_is_kept(
    h: history::HistoryView,
    rooms: Seq<Seq<char>>,
    query: Seq<char>,
    limit: nat,
)
    ensures
        match blocks(h, first_hits(h, rooms, query, limit)) {
            Some(bs) => bs.len() == if hits(h, rooms, query).len() <= limit {
                hits(h, rooms, query).len()
            } else {
                limit
            },
            None => true,
        },
{
    lemma_blocks_len(h, first_hits(h, rooms, query, limit));
}

/// Every message that holds the query is among the hits of its room.
proof fn lemma_room_hit_is_listed(
    room: Seq<char>,
    msgs: Seq<ChatMessage>,
    query: Seq<char>,
    n: int,
    i: int,
)
    requires
        0 <= i < n <= msgs.len(),
        is_hit(msgs[i], query),
    ensures
        room_hits(room, msgs, query, n).contains((room, i)),
    decreases n,
{
    let all = room_hits(room, msgs, query, n);
    if i == n - 1 {
        assert(all[all.len() - 1] == (room, i));
    } else {
        lemma_room_hit_is_listed(room, msgs, query, n - 1, i);
        let before = room_hits(room, msgs, query, n - 1);
        let k = choose|k: int| 0 <= k < before.len() && before[k] == (room, i);
        assert(all[k] == (room, i));
    }
}

/// Every message of the given rooms that holds the query is among the hits.
proof fn lemma_hit_is_listed(
    h: history::HistoryView,
    rooms: Seq<Seq<char>>,
    query: Seq<char>,
    room: Seq<char>,
    i: int,
)
    requires
        rooms.contains(room),
        0 <= i < h.messages(room).len(),
        is_hit(h.messages(room)[i], query),
    ensures
        hits(h, rooms, query).contains((room, i)),
    decreases rooms.len(),
{
    let all = hits(h, rooms, query);
    let rest = rooms.drop_last();
    let last = rooms.last();
    let front = hits(h, rest, query);
    let back = room_hits(last, h.messages(last), query, h.messages(last).len() as int);
    assert(all =~= front + back);
    if last == room {
        lemma_room_hit_is_listed(room, h.messages(room), query, h.messages(room).len() as int, i);
        let k = choose|k: int| 0 <= k < back.len() && back[k] == (room, i);
        assert(all[front.len() + k] == (room, i));
    } else {
        let r = choose|r: int| 0 <= r < rooms.len() && rooms[r] == room;
        assert(rest[r] == room);
        lemma_hit_is_listed(h, rest, query, room, i);
        let k = choose|k: int| 0 <= k < front.len() && front[k] == (room, i);
        assert(all[k] == (room, i));
    }
}

/// Where the blocks of some places can be written, each place has its own, in their order.
proof fn lemma_block_of_place(h: history::HistoryView, places: Seq<(Seq<char>, int)>, k: int)
    requires
        blocks(h, places) is Some,
        0 <= k < places.len(),
    ensures
        k < blocks(h, places)->Some_0.len(),
        hit_block(places[k].0, h.messages(places[k].0), places[k].1) == Some(
            blocks(h, places)->Some_0[k],
        ),
    decreases places.len(),
{
    lemma_blocks_len(h, places);
    lemma_blocks_len(h, places.drop_last());
    if k < places.len() - 1 {
        lemma_block_of_place(h, places.drop_last(), k);
        assert(places.drop_last()[k] == places[k]);
    }
}

/// A search looks through every room that it is asked for: all that the history lists, or the one
/// that is named. Its answer shows, block after block, `limit` of the messages that hold the query,
/// or all of them where there are no more: a message of such a room that holds the query has its
/// block.
#[verifier::rlimit(40)]
pub proof fn law_search_shows_every_hit(
    h: history::HistoryView,
    query: Seq<char>,
    room_filter: Option<Seq<char>>,
    limit: nat,
    room: Seq<char>,
    i: int,
    r: Seq<char>,
)
    requires
        query.len() > 0,
        limit > 0,
        match room_filter {
            Some(f) => f == room,
            None => h.rooms().contains(room),
        },
        0 <= i < h.messages(room).len(),
        text::contains(text::lowercase(h.messages(room)[i].content@), text::lowercase(query)),
        history_text(h, query, room_filter, limit) == Some(r),
    ensures
        exists|bs: Seq<Seq<char>>|
            {
                &&& bs.len() > 0
                &&& r == "Found "@ + text::decimal(bs.len()) + " match(es) for '"@ + query
                    + "':\n\n"@ + #[trigger] text::join(bs, "\n\n---\n\n"@)
                &&& bs.len() <= limit
                &&& bs.len() < limit || hits(
                    h,
                    if room_filter is Some {
                        seq![room]
                    } else {
                        h.rooms()
                    },
                    query,
                ).len() == limit ==> exists|k: int|
                    0 <= k < bs.len() && hit_block(room, h.messages(room), i) == Some(
                        #[trigger] bs[k],
                    )
            },
{
    let rooms = if let Some(f) = room_filter {
        seq![f]
    } else {
        h.rooms()
    };
    if room_filter is Some {
        assert(rooms[0] == room);
    }
    let all = hits(h, rooms, query);
    let places = first_hits(h, rooms, query, limit);
    assert(is_hit(h.messages(room)[i], query));
    lemma_hit_is_listed(h, rooms, query, room, i);
    let k = choose|k: int| 0 <= k < all.len() && all[k] == (room, i);
    lemma_blocks_len(h, places);
    let bs = blocks(h, places)->Some_0;
    let _ = text::join(bs, "\n\n---\n\n"@);
    if bs.len() < limit || all.len() == limit {
        assert(places == all);
        lemma_block_of_place(h, places, k);
        assert(hit_block(room, h.messages(room), i) == Some(bs[k]));
    }
}

/// A search that no message answers says so, and shows nothing.
pub proof fn law_search_without_hits(
    h: history::HistoryView,
    query: Seq<char>,
    room_filter: Option<Seq<char>>,
    limit: nat,
)
    requires
        query.len() > 0,
        room_filter is None ==> h.rooms().len() > 0,
        forall|room: Seq<char>, i: int|
            (match room_filter {
                Some(f) => f == room,
                None => h.rooms().contains(room),
            }) && 0 <= i < h.messages(room).len() ==> !text::contains(
                text::lowercase((#[trigger] h.messages(room)[i]).content@),
                text::lowercase(query),
            ),
    ensures
        history_text(h, query, room_filter, limit) == Some(
            "No messages found matching '"@ + query + "'."@,
        ),
{
    let rooms = if let Some(f) = room_filter {
        seq![f]
    } else {
        h.rooms()
    };
    if hits(h, rooms, query).len() > 0 {
        law_hits_match(h, rooms, query, 0);
        let (room, i) = hits(h, rooms, query)[0];
        assert(is_hit(h.messages(room)[i], query));
    }
}

/// The hits of rooms one after another come one after another, and those of a room rise.
pub proof fn law_hits_are_in_order(
    h: history::HistoryView,
    a: Seq<Seq<char>>,
    b: Seq<Seq<char>>,
    query: Seq<char>,
    room: Seq<char>,
)
    ensures
        hits(h, a + b, query) == hits(h, a, query) + hits(h, b, query),
        forall|i: int, j: int|
            0 <= i < j < hits(h, seq![room], query).len() ==> (#[trigger] hits(
                h,
                seq![room],
                query,
            )[i]).1 < (#[trigger] hits(h, seq![room], query)[j]).1,
    decreases b.len(),
{
    let one = seq![room];
    assert(one.drop_last() =~= Seq::<Seq<char>>::empty());
    let n = h.messages(room).len() as int;
    let rh = room_hits(room, h.messages(room), query, n);
    assert(hits(h, one.drop_last(), query) =~= Seq::<(Seq<char>, int)>::empty());
    assert(hits(h, one, query) =~= rh);
    lemma_room_hits_rise(room, h.messages(room), query, n);
    if b.len() == 0 {
        assert(a + b =~= a);
        assert(hits(h, a, query) + hits(h, b, query) =~= hits(h, a, query));
    } else {
        law_hits_are_in_order(h, a, b.drop_last(), query, room);
        assert((a + b).drop_last() =~= a + b.drop_last());
        assert((a + b).last() == b.last());
        let last = b.last();
        let back = room_hits(last, h.messages(last), query, h.messages(last).len() as int);
        assert(hits(h, a, query) + (hits(h, b.drop_last(), query) + back) =~= hits(h, a, query)
            + hits(h, b.drop_last(), query) + back);
    }
}

/// The hits of a room rise.
proof fn lemma_room_hits_rise(
    room: Seq<char>,
    msgs: Seq<ChatMessage>,
    query: Seq<char>,
    n: int,
)
    requires
        0 <= n <= msgs.len(),
    ensures
        forall|i: int, j: int|
            0 <= i < j < room_hits(room, msgs, query, n).len() ==> (#[trigger] room_hits(
                room,
                msgs,
                query,
                n,
            )[i]).1 < (#[trigger] room_hits(room, msgs, query, n)[j]).1,
    decreases n,
{
    if n > 0 {
        lemma_room_hits_rise(room, msgs, query, n - 1);
        let all = room_hits(room, msgs, query, n);
        let before = room_hits(room, msgs, query, n - 1);
        assert forall|i: int, j: int| 0 <= i < j < all.len() implies (#[trigger] all[i]).1 < (
        #[trigger] all[j]).1 by {
            assert(all[i] == before[i]);
            lemma_room_hits_are_hits(room, msgs, query, n - 1, i);
            if j < before.len() {
                assert(all[j] == before[j]);
                assert(before[i].1 < before[j].1);
            }
        }
    }
}

/// The block of a hit names the room and shows the message that was hit, marked, with who wrote it
/// and all of its text where that is short, between its neighbours.
#[verifier::rlimit(40)]
pub proof fn law_block_shows_the_message(room: Seq<char>, msgs: Seq<ChatMessage>, i: int)
    requires
        0 <= i < msgs.len(),
        forall|j: int|
            0 <= j < msgs.len() && i - 1 <= j <= i + 1 ==> text::utf8_len(
                (#[trigger] msgs[j]).content@,
            ) <= 300,
    ensures
        ({
            let before = if i > 0 {
                "    ["@ + msgs[i - 1].role@ + "] "@ + msgs[i - 1].content@ + "\n"@
            } else {
                Seq::empty()
            };
            let after = if i + 1 < msgs.len() {
                "\n    ["@ + msgs[i + 1].role@ + "] "@ + msgs[i + 1].content@
            } else {
                Seq::empty()
            };
            hit_block(room, msgs, i) == Some(
                "Room: "@ + room + "\n"@ + before + ">>> ["@ + msgs[i].role@ + "] "@
                    + msgs[i].content@ + after,
            )
        }),
{
    reveal_strlit("    [");
    reveal_strlit("\n    [");
    reveal_strlit("   ");
    reveal_strlit(" [");
    reveal_strlit("\n");
    reveal_strlit(">>> [");
    reveal_strlit(">>>");
    assert("   "@ + " ["@ =~= "    ["@);
    assert("\n"@ + "    ["@ =~= "\n    ["@);
    assert(">>>"@ + " ["@ =~= ">>> ["@);
    let m = msgs[i];
    let hit = ">>> ["@ + m.role@ + "] "@ + m.content@;
    assert(message_line(m, true) == Some(hit));
    let head = "Room: "@ + room + "\n"@;
    let none = Seq::<Seq<char>>::empty();
    let from = if i == 0 { 0 } else { i - 1 };
    assert(context_lines(msgs, from, from, i) == Some(none));
    let mut lines = none;
    if i > 0 {
        let b = msgs[i - 1];
        let line = "    ["@ + b.role@ + "] "@ + b.content@;
        assert(message_line(b, false) == Some(line));
        lines = none.push(line);
        assert(context_lines(msgs, from, i, i) == Some(lines));
        lemma_join_line(none, line, hit);
    }
    let upto = lines.push(hit);
    assert(context_lines(msgs, from, i + 1, i) == Some(upto));
    if i + 1 < msgs.len() {
        let a = msgs[i + 1];
        let last = "    ["@ + a.role@ + "] "@ + a.content@;
        assert(message_line(a, false) == Some(last));
        assert(context_lines(msgs, from, i + 2, i) == Some(upto.push(last)));
        lemma_join_line(lines, hit, last);
        let tail = "\n    ["@ + a.role@ + "] "@ + a.content@;
        assert("\n"@ + last =~= tail);
        if i > 0 {
            let b = msgs[i - 1];
            let line = "    ["@ + b.role@ + "] "@ + b.content@;
            assert(head + (line + "\n"@ + hit + "\n"@ + last) =~= head + (line + "\n"@) + ">>> ["@
                + m.role@ + "] "@ + m.content@ + tail);
        } else {
            assert(text::join(upto, "\n"@) == hit);
            assert(head + (hit + "\n"@ + last) =~= head + Seq::<char>::empty() + ">>> ["@ + m.role@
                + "] "@ + m.content@ + tail);
        }
    } else if i > 0 {
        let b = msgs[i - 1];
        let line = "    ["@ + b.role@ + "] "@ + b.content@;
        assert(head + (line + "\n"@ + hit) =~= head + (line + "\n"@) + ">>> ["@ + m.role@ + "] "@
            + m.content@ + Seq::<char>::empty());
    } else {
        assert(text::join(upto, "\n"@) == hit);
        assert(head + hit =~= head + Seq::<char>::empty() + ">>> ["@ + m.role@ + "] "@ + m.content@
            + Seq::<char>::empty());
    }
}

/// One more line stands behind a newline.
proof fn lemma_join_line(lines: Seq<Seq<char>>, a: Seq<char>, b: Seq<char>)
    ensures
        text::join(lines.push(a).push(b), "\n"@) == text::join(lines.push(a), "\n"@) + "\n"@ + b,
        lines.len() == 0 ==> text::join(lines.push(a), "\n"@) == a,
{
    assert(lines.push(a).push(b).drop_last() =~= lines.push(a));
}

/// A long message is shown as far as its first 300 bytes go, and it is told that it goes on.
pub proof fn law_long_messages_are_cut(head: Seq<char>, tail: Seq<char>)
    requires
        text::utf8_len(head) == 300,
        tail.len() > 0,
    ensures
        snippet(head + tail) == Some(head + "…"@),
        snippet(head) == Some(head),
{
    let s = head + tail;
    text::lemma_encode_concat(head, tail);
    assert(s.take(head.len() as int) =~= head);
    text::lemma_cut(s, 300);
    text::lemma_utf8_prefix(tail, 0);
    assert(text::utf8_len(tail.take(1)) > 0) by {
        text::lemma_utf8_prefix(tail, 1);
    }
    text::lemma_utf8_prefix(tail, 1);
    let k = text::cut(s, 300)->Some_0;
    text::lemma_same_bytes(s, k, head.len() as int);
}

/// The answer to a web search shows every direct answer and each of the first five hits under its
/// number, with its title and address.
#[verifier::rlimit(40)]
pub proof fn law_search_results_are_shown(
    query: Seq<char>,
    resp: SearxngResponse,
    a: int,
    r: int,
)
    requires
        0 <= a < resp.answers@.len(),
        0 <= r < resp.results@.len(),
        r < 5,
    ensures
        text::contains(search_text(query, resp), "Answer: "@ + resp.answers@[a]@ + "\n\n"@),
        text::contains(
            search_text(query, resp),
            text::decimal((r + 1) as nat) + ". **"@ + resp.results@[r].title@ + "**\n"@
                + "   URL: "@ + resp.results@[r].url@ + "\n"@,
        ),
{
    let head = "Search results for: "@ + query + "\n\n"@;
    let answers = answers_text(resp.answers@);
    let listed = if resp.results@.len() <= 5 {
        resp.results@
    } else {
        resp.results@.take(5)
    };
    let results = results_text(listed);
    lemma_answer_is_shown(resp.answers@, a);
    lemma_result_is_shown(listed, r);
    let one = "Answer: "@ + resp.answers@[a]@ + "\n\n"@;
    let two = text::decimal((r + 1) as nat) + ". **"@ + resp.results@[r].title@ + "**\n"@
        + "   URL: "@ + resp.results@[r].url@ + "\n"@;
    let all = head + answers + results;
    assert(search_text(query, resp) == all);
    let i = choose|i: int| text::occurs_at(answers, one, i);
    text::lemma_occurs_behind(head, answers, one, i);
    text::lemma_occurs_in_front(head + answers, results, one, head.len() + i);
    let j = choose|j: int| text::occurs_at(results, two, j);
    text::lemma_occurs_behind(head + answers, results, two, j);
}

proof fn lemma_answer_is_shown(answers: Seq<String>, a: int)
    requires
        0 <= a < answers.len(),
    ensures
        text::contains(answers_text(answers), "Answer: "@ + answers[a]@ + "\n\n"@),
    decreases answers.len(),
{
    let before = answers_text(answers.drop_last());
    let one = "Answer: "@ + answers.last()@ + "\n\n"@;
    assert(answers_text(answers) =~= before + one);
    if a == answers.len() - 1 {
        assert(answers_text(answers).subrange(before.len() as int, (before.len() + one.len()) as int)
            =~= one);
        assert(text::occurs_at(answers_text(answers), one, before.len() as int));
    } else {
        lemma_answer_is_shown(answers.drop_last(), a);
        let want = "Answer: "@ + answers[a]@ + "\n\n"@;
        let i = choose|i: int| text::occurs_at(before, want, i);
        text::lemma_occurs_in_front(before, one, want, i);
    }
}

proof fn lemma_result_is_shown(results: Seq<SearxngResult>, r: int)
    requires
        0 <= r < results.len(),
    ensures
        text::contains(
            results_text(results),
            text::decimal((r + 1) as nat) + ". **"@ + results[r].title@ + "**\n"@ + "   URL: "@
                + results[r].url@ + "\n"@,
        ),
    decreases results.len(),
{
    let before = results_text(results.drop_last());
    let one = result_text(results.len(), results.last());
    let want = text::decimal((r + 1) as nat) + ". **"@ + results[r].title@ + "**\n"@ + "   URL: "@
        + results[r].url@ + "\n"@;
    assert(results_text(results) == before + one);
    if r == results.len() - 1 {
        assert(one.subrange(0, want.len() as int) =~= want);
        assert(text::occurs_at(one, want, 0));
        text::lemma_occurs_behind(before, one, want, 0);
    } else {
        lemma_result_is_shown(results.drop_last(), r);
        let i = choose|i: int| text::occurs_at(before, want, i);
        text::lemma_occurs_in_front(before, one, want, i);
    }
}

/// A hit of a web search is shown with its text, cut after 300 characters, and its date, where it
/// has them.
#[verifier::rlimit(40)]
pub proof fn law_result_shows_what_it_has(number: nat, r: SearxngResult)
    ensures
        ({
            let head = text::decimal(number) + ". **"@ + r.title@ + "**\n   URL: "@ + r.url@ + "\n"@;
            let date = match r.published_date {
                Some(d) => "   Published: "@ + d@ + "\n"@,
                None => Seq::empty(),
            };
            &&& r.content@.len() == 0 ==> result_text(number, r) == head + date + "\n"@
            &&& 0 < r.content@.len() <= 300 ==> result_text(number, r) == head + "   "@
                + r.content@ + "\n"@ + date + "\n"@
            &&& r.content@.len() > 300 ==> result_text(number, r) == head + "   "@
                + r.content@.subrange(0, 300) + "\n"@ + date + "\n"@
        }),
{
    reveal_strlit("");
    reveal_strlit("**\n");
    reveal_strlit("   URL: ");
    reveal_strlit("**\n   URL: ");
    assert("**\n"@ + "   URL: "@ =~= "**\n   URL: "@);
    let head = text::decimal(number) + ". **"@ + r.title@ + "**\n   URL: "@ + r.url@ + "\n"@;
    let date = match r.published_date {
        Some(d) => "   Published: "@ + d@ + "\n"@,
        None => Seq::empty(),
    };
    if r.content@.len() == 0 {
        assert(result_text(number, r) =~= head + date + "\n"@);
    } else if r.content@.len() <= 300 {
        assert(result_text(number, r) =~= head + "   "@ + r.content@ + "\n"@ + date + "\n"@);
    } else {
        assert(result_text(number, r) =~= head + "   "@ + r.content@.subrange(0, 300) + "\n"@ + date
            + "\n"@);
    }
}

/// The first hits are shown, in the order of the rooms and of their messages: as many as there are,
/// up to the limit.
#[verifier::rlimit(40)]
pub proof fn law_first_hits_are_shown_in_order(
    h: history::HistoryView,
    query: Seq<char>,
    room_filter: Option<Seq<char>>,
    limit: nat,
    r: Seq<char>,
)
    requires
        query.len() > 0,
        limit > 0,
        ({
            let rooms = if room_filter is Some {
                seq![room_filter->Some_0]
            } else {
                h.rooms()
            };
            hits(h, rooms, query).len() > 0
        }),
        history_text(h, query, room_filter, limit) == Some(r),
    ensures
        ({
            let rooms = if room_filter is Some {
                seq![room_filter->Some_0]
            } else {
                h.rooms()
            };
            let all = hits(h, rooms, query);
            exists|bs: Seq<Seq<char>>|
                {
                    &&& r == "Found "@ + text::decimal(bs.len()) + " match(es) for '"@ + query
                        + "':\n\n"@ + #[trigger] text::join(bs, "\n\n---\n\n"@)
                    &&& bs.len() == all.len() || bs.len() == limit
                    &&& bs.len() <= all.len() && bs.len() <= limit
                    &&& forall|k: int|
                        0 <= k < bs.len() ==> hit_block(
                            all[k].0,
                            h.messages(all[k].0),
                            all[k].1,
                        ) == Some(#[trigger] bs[k])
                }
        }),
{
    let rooms = if let Some(f) = room_filter {
        seq![f]
    } else {
        h.rooms()
    };
    let all = hits(h, rooms, query);
    let places = first_hits(h, rooms, query, limit);
    lemma_blocks_len(h, places);
    let bs = blocks(h, places)->Some_0;
    let _ = text::join(bs, "\n\n---\n\n"@);
    assert forall|k: int| 0 <= k < bs.len() implies hit_block(
        all[k].0,
        h.messages(all[k].0),
        all[k].1,
    ) == Some(#[trigger] bs[k]) by {
        lemma_block_of_place(h, places, k);
        assert(places[k] == all[k]);
    }
}

/// A search for nothing is refused, and one without a room says that there is no history.
pub proof fn law_empty_searches(
    h: history::HistoryView,
    query: Seq<char>,
    room_filter: Option<Seq<char>>,
    limit: nat,
)
    ensures
        query.len() == 0 ==> history_text(h, query, room_filter, limit) == Some(
            "error: query must not be empty"@,
        ),
        query.len() > 0 && room_filter is None && h.rooms().len() == 0 ==> history_text(
            h,
            query,
            room_filter,
            limit,
        ) == Some("No history found."@),
{
}

/// The answer to a web search says for what was searched, then come the direct answers, then the
/// hits, with answers or without; of more than five hits the others do not count. Where nothing was
/// found it says so.
pub proof fn law_web_search_is_laid_out(
    query: Seq<char>,
    resp: SearxngResponse,
    five: SearxngResponse,
)
    requires
        five.answers@ == resp.answers@,
        resp.results@.len() > 5 ==> five.results@ == resp.results@.subrange(0, 5),
        resp.results@.len() <= 5 ==> five.results@ == resp.results@,
    ensures
        search_text(query, resp) == search_text(query, five),
        resp.results@.len() > 0 || resp.answers@.len() > 0 ==> search_text(query, resp)
            == "Search results for: "@ + query + "\n\n"@ + answers_text(five.answers@)
            + results_text(five.results@),
        resp.results@.len() == 0 && resp.answers@.len() == 0 ==> search_text(query, resp)
            == "No results found for: "@ + query,
{
    if resp.results@.len() > 5 {
        assert(resp.results@.take(5) =~= five.results@);
    }
}

/// Each answer is a paragraph of its own, in the order they came, and each hit is shown under the next
/// number, behind those before it.
pub proof fn law_answers_and_hits_come_in_order(
    a: Seq<String>,
    b: Seq<String>,
    one: String,
    rs: Seq<SearxngResult>,
    r: SearxngResult,
)
    ensures
        answers_text(a + b) == answers_text(a) + answers_text(b),
        answers_text(seq![one]) == "Answer: "@ + one@ + "\n\n"@,
        answers_text(Seq::empty()).len() == 0,
        results_text(rs.push(r)) == results_text(rs) + result_text(rs.len() + 1, r),
        results_text(Seq::empty()).len() == 0,
    decreases b.len(),
{
    let single = seq![one];
    assert(answers_text(single.drop_last()) =~= Seq::<char>::empty());
    assert(Seq::<char>::empty() + "Answer: "@ =~= "Answer: "@);
    assert(rs.push(r).drop_last() =~= rs);
    if b.len() == 0 {
        assert(a + b =~= a);
        assert(answers_text(a) + answers_text(b) =~= answers_text(a));
    } else {
        law_answers_and_hits_come_in_order(a, b.drop_last(), one, rs, r);
        assert((a + b).drop_last() =~= a + b.drop_last());
        assert((a + b).last() == b.last());
        let x = answers_text(a);
        let y = answers_text(b.drop_last());
        let z = b.last()@;
        assert((x + y) + "Answer: "@ + z + "\n\n"@ =~= x + (y + "Answer: "@ + z + "\n\n"@));
    }
}

} // verus!
