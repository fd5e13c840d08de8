//! Per-room conversation history, with a sidecar that lists the rooms ever written.

use crate::json;
use crate::names::NameMap;
use crate::paths;
use crate::text;
use vstd::prelude::*;
use vstd::string::*;

verus! {

/// The token estimate of a body: a quarter of its bytes, and four for the role wrapper.
pub open spec fn tokens(content: Seq<char>) -> nat {
    text::utf8_len(content) / 4 + 4
}

/// Rough token estimate for a message body. Real tokenization is model-specific;
/// ~4 characters per token is a decent cross-model heuristic, plus a small
/// per-message overhead for the role wrapper.
pub fn estimate_tokens(content: &str) -> (r: usize)
    ensures
        r == tokens(content@),
        r >= 4,
{
    text::byte_len(content) / 4 + 4
}

/// One turn of a conversation.
#[derive(Debug)]
pub struct ChatMessage {
    pub role: String,
    pub content: String,
}

impl Clone for ChatMessage {
    fn clone(&self) -> (r: Self)
        ensures
            r == *self,
    {
        ChatMessage { role: self.role.clone(), content: self.content.clone() }
    }
}

impl ChatMessage {
    /// A turn of the user.
    pub fn user(content: &str) -> (r: Self)
        ensures
            r.role@ == "user"@,
            r.content@ == content@,
    {
        ChatMessage { role: "user".to_owned(), content: content.to_owned() }
    }

    /// A turn of the assistant.
    pub fn assistant(content: &str) -> (r: Self)
        ensures
            r.role@ == "assistant"@,
            r.content@ == content@,
    {
        ChatMessage { role: "assistant".to_owned(), content: content.to_owned() }
    }

    /// A system message.
    pub fn system(content: &str) -> (r: Self)
        ensures
            r.role@ == "system"@,
            r.content@ == content@,
    {
        ChatMessage { role: "system".to_owned(), content: content.to_owned() }
    }
}

/// The token estimates of the messages together.
pub open spec fn total(msgs: Seq<ChatMessage>) -> nat
    decreases msgs.len(),
{
    if msgs.len() == 0 {
        0
    } else {
        total(msgs.drop_first()) + tokens(msgs[0].content@)
    }
}

/// The messages from `k` on are the most recent ones that fit in `budget` tokens: they fit, one
/// more would not, and the latest message is there even where it alone does not fit.
pub open spec fn is_window(msgs: Seq<ChatMessage>, budget: nat, k: int) -> bool {
    &&& 0 <= k <= msgs.len()
    &&& msgs.len() > 0 ==> k < msgs.len()
    &&& k < msgs.len() - 1 ==> total(msgs.skip(k)) <= budget
    &&& k > 0 ==> total(msgs.skip(k - 1)) > budget
}

/// A longer tail has at least as many tokens.
proof fn lemma_total_tail(msgs: Seq<ChatMessage>, i: int, j: int)
    requires
        0 <= i <= j <= msgs.len(),
    ensures
        total(msgs.skip(j)) <= total(msgs.skip(i)),
    decreases j - i,
{
    if i < j {
        lemma_total_tail(msgs, i + 1, j);
        assert(msgs.skip(i).drop_first() == msgs.skip(i + 1));
    }
}

/// Exactly one tail of a conversation is its window for a budget.
pub proof fn law_window_is_unique(msgs: Seq<ChatMessage>, budget: nat, i: int, j: int)
    requires
        is_window(msgs, budget, i),
        is_window(msgs, budget, j),
    ensures
        i == j,
{
    if i < j {
        lemma_total_tail(msgs, i, j - 1);
    } else if j < i {
        lemma_total_tail(msgs, j, i - 1);
    }
}

/// Copies a list of messages.
pub fn copy_messages(msgs: &[ChatMessage]) -> (r: Vec<ChatMessage>)
    ensures
        r@ == msgs@,
{
    let mut out: Vec<ChatMessage> = Vec::new();
    let mut i: usize = 0;
    while i < msgs.len()
        invariant
            i <= msgs.len(),
            out@ == msgs@.take(i as int),
        decreases msgs.len() - i,
    {
        out.push(msgs[i].clone());
        assert(msgs@.take(i + 1) == msgs@.take(i as int).push(msgs@[i as int]));
        i += 1;
    }
    assert(msgs@.take(msgs@.len() as int) == msgs@);
    out
}

/// The start of the window of `msgs` for `budget`.
pub fn window_start(msgs: &[ChatMessage], budget: usize) -> (k: usize)
    ensures
        is_window(msgs@, budget as nat, k as int),
{
    let mut k: usize = msgs.len();
    let mut used: usize = 0;
    let mut fits = true;
    assert(msgs@.skip(msgs@.len() as int).len() == 0);
    while k > 0
        invariant
            k <= msgs.len(),
            fits ==> used == total(msgs@.skip(k as int)) && used <= budget,
            !fits ==> k + 1 == msgs.len() && total(msgs@.skip(k as int)) > budget,
        decreases k,
    {
        let cost: usize = estimate_tokens(msgs[k - 1].content.as_str());
        assert(msgs@.skip(k - 1).drop_first() == msgs@.skip(k as int));
        if k < msgs.len() && (!fits || cost > budget - used) {
            proof {
                lemma_total_tail(msgs@, k - 1, k as int);
            }
            return k;
        }
        if cost > budget - used {
            fits = false;
        } else {
            used += cost;
        }
        k -= 1;
    }
    k
}

/// Whether the messages together have more than `limit` tokens.
pub fn exceeds(msgs: &[ChatMessage], limit: usize) -> (r: bool)
    ensures
        r == (total(msgs@) > limit),
{
    let mut k: usize = msgs.len();
    let mut sum: usize = 0;
    assert(msgs@.skip(msgs@.len() as int).len() == 0);
    assert(msgs@.skip(0) == msgs@);
    while k > 0
        invariant
            k <= msgs.len(),
            msgs@.skip(0) == msgs@,
            sum == total(msgs@.skip(k as int)),
            sum <= limit,
        decreases k,
    {
        let cost = estimate_tokens(msgs[k - 1].content.as_str());
        assert(msgs@.skip(k - 1).drop_first() == msgs@.skip(k as int));
        if cost > limit - sum {
            proof {
                lemma_total_tail(msgs@, 0, k - 1);
            }
            return true;
        }
        sum += cost;
        k -= 1;
    }
    false
}

/// A file of the history directory.
pub enum HistoryFile {
    /// Text that holds no conversation: the list of the rooms ever written.
    Rooms(String),
    /// The conversation of a room.
    Messages(Vec<ChatMessage>),
}

/// A file of the history directory, by its contents.
pub enum FileView {
    Rooms(Seq<char>),
    Messages(Seq<ChatMessage>),
}

impl View for HistoryFile {
    type V = FileView;

    open spec fn view(&self) -> FileView {
        match self {
            HistoryFile::Rooms(t) => FileView::Rooms(t@),
            HistoryFile::Messages(m) => FileView::Messages(m@),
        }
    }
}

/// The history directory: its path, and its files by their paths.
pub struct HistoryView {
    pub data_dir: Seq<char>,
    pub files: Map<Seq<char>, FileView>,
}

impl HistoryView {
    /// The file that lists the rooms.
    pub open spec fn known_path(self) -> Seq<char> {
        paths::join_spec(self.data_dir, "known_rooms.json"@)
    }

    /// The file of a room.
    pub open spec fn room_path(self, room_id: Seq<char>) -> Seq<char> {
        paths::room_file_spec(self.data_dir, room_id, ".json"@)
    }

    /// The rooms that the sidecar lists: none where it is missing or unreadable.
    pub open spec fn rooms(self) -> Seq<Seq<char>> {
        if self.files.contains_key(self.known_path()) {
            match self.files[self.known_path()] {
                FileView::Rooms(t) => match json::string_list(t) {
                    Some(l) => l,
                    None => Seq::empty(),
                },
                FileView::Messages(_) => Seq::empty(),
            }
        } else {
            Seq::empty()
        }
    }

    /// The conversation of a room: empty where nothing is kept.
    pub open spec fn messages(self, room_id: Seq<char>) -> Seq<ChatMessage> {
        if self.files.contains_key(self.room_path(room_id)) {
            match self.files[self.room_path(room_id)] {
                FileView::Rooms(_) => Seq::empty(),
                FileView::Messages(m) => m,
            }
        } else {
            Seq::empty()
        }
    }

    /// The directory with a room's conversation replaced.
    pub open spec fn written(self, room_id: Seq<char>, msgs: Seq<ChatMessage>) -> HistoryView {
        HistoryView {
            data_dir: self.data_dir,
            files: self.files.insert(self.room_path(room_id), FileView::Messages(msgs)),
        }
    }

    /// The directory with a room entered in the sidecar, unless it stands there already.
    pub open spec fn recorded(self, room_id: Seq<char>) -> HistoryView {
        if self.rooms().contains(room_id) {
            self
        } else {
            HistoryView {
                data_dir: self.data_dir,
                files: self.files.insert(
                    self.known_path(),
                    FileView::Rooms(json::string_list_json(self.rooms().push(room_id))),
                ),
            }
        }
    }
}

/// A list of rooms with `room_id` at its end, unless it stands there already.
pub open spec fn with_room(rooms: Seq<Seq<char>>, room_id: Seq<char>) -> Seq<Seq<char>> {
    if rooms.contains(room_id) {
        rooms
    } else {
        rooms.push(room_id)
    }
}

/// Writing to one room leaves the conversation of every other room as it was, and gives back what
/// was written; two rooms are other rooms where their ids differ as file names.
pub proof fn law_rooms_are_isolated(
    h: HistoryView,
    a: Seq<char>,
    b: Seq<char>,
    msgs: Seq<ChatMessage>,
)
    requires
        paths::safe_room(a) != paths::safe_room(b),
    ensures
        h.written(a, msgs).messages(b) == h.messages(b),
        h.written(a, msgs).messages(a) == msgs,
{
    reveal_strlit(".json");
    paths::law_rooms_share_a_file(h.data_dir, a, b, ".json"@);
}

/// Entering a room in the sidecar leaves every conversation as it was, but for a room whose file
/// would be the sidecar itself.
pub proof fn law_recording_keeps_messages(h: HistoryView, a: Seq<char>, b: Seq<char>)
    requires
        h.room_path(b) != h.known_path(),
    ensures
        h.recorded(a).messages(b) == h.messages(b),
{
}

/// Whether `v` holds a string equal to `s`.
pub fn lists(v: &[String], s: &str) -> (r: bool)
    ensures
        r == text::views(v@).contains(s@),
{
    let mut i: usize = 0;
    let ghost all = text::views(v@);
    while i < v.len()
        invariant
            i <= v.len(),
            all == text::views(v@),
            forall|j: int| 0 <= j < i ==> all[j] != s@,
        decreases v.len() - i,
    {
        if text::same(v[i].as_str(), s) {
            assert(all[i as int] == s@);
            return true;
        }
        i += 1;
    }
    false
}

/// The histories of all rooms.
pub struct HistoryStore {
    data_dir: String,
    files: NameMap<HistoryFile>,
}

impl View for HistoryStore {
    type V = HistoryView;

    closed spec fn view(&self) -> HistoryView {
        HistoryView {
            data_dir: self.data_dir@,
            files: self.files@.map_values(|f: HistoryFile| f@),
        }
    }
}

impl HistoryStore {
    /// The history under `data_dir`, with no file yet.
    pub fn new(data_dir: &str) -> (r: Self)
        ensures
            r@.data_dir == data_dir@,
            r@.files == Map::<Seq<char>, FileView>::empty(),
    {
        HistoryStore { data_dir: data_dir.to_owned(), files: NameMap::new() }
    }

    /// Takes over a file that stands at `path`.
    pub fn restore(&mut self, path: String, file: HistoryFile)
        ensures
            final(self)@.data_dir == old(self)@.data_dir,
            final(self)@.files == old(self)@.files.insert(path@, file@),
    {
        self.files.insert(path, file);
    }

    /// The file at `path`.
    pub fn file(&self, path: &str) -> (r: Option<&HistoryFile>)
        ensures
            match r {
                Some(f) => self@.files.contains_key(path@) && f@ == self@.files[path@],
                None => !self@.files.contains_key(path@),
            },
    {
        self.files.get(path)
    }

    /// The file that lists the rooms.
    pub fn known_rooms_path(&self) -> (r: String)
        ensures
            r@ == self@.known_path(),
    {
        paths::join_path(self.data_dir.as_str(), "known_rooms.json")
    }

    /// The file of a room.
    pub fn path(&self, room_id: &str) -> (r: String)
        ensures
            r@ == self@.room_path(room_id@),
    {
        paths::room_file(self.data_dir.as_str(), room_id, ".json")
    }

    /// All room IDs that have ever had history written. Persisted across restarts
    /// so the scheduler can compact rooms it hasn't seen this session.
    pub fn list_room_ids(&self) -> (r: Vec<String>)
        ensures
            text::views(r@) == self@.rooms(),
    {
        let path = self.known_rooms_path();
        match self.file(path.as_str()) {
            Some(HistoryFile::Rooms(t)) => match json::parse_string_list(t.as_str()) {
                Some(l) => l,
                None => {
                    let none: Vec<String> = Vec::new();
                    assert(text::views(none@) == Seq::<Seq<char>>::empty());
                    none
                },
            },
            _ => {
                let none: Vec<String> = Vec::new();
                assert(text::views(none@) == Seq::<Seq<char>>::empty());
                none
            },
        }
    }

    /// Record a room ID in the sidecar (no-op if already present).
    fn record_room(&mut self, room_id: &str)
        ensures
            final(self)@ == old(self)@.recorded(room_id@),
            final(self)@.rooms() == with_room(old(self)@.rooms(), room_id@),
    {
        let mut known = self.list_room_ids();
        if lists(known.as_slice(), room_id) {
            return;
        }
        let ghost before = known@;
        known.push(room_id.to_owned());
        assert(text::views(known@) == text::views(before).push(room_id@));
        let listed = json::render_string_list(known.as_slice());
        let path = self.known_rooms_path();
        self.restore(path, HistoryFile::Rooms(listed));
    }

    /// A room's full history.
    pub fn load(&self, room_id: &str) -> (r: Vec<ChatMessage>)
        ensures
            r@ == self@.messages(room_id@),
    {
        let path = self.path(room_id);
        match self.file(path.as_str()) {
            Some(HistoryFile::Messages(m)) => copy_messages(m.as_slice()),
            _ => Vec::new(),
        }
    }

    /// Adds a message to a room's history.
    pub fn append(&mut self, room_id: &str, msg: ChatMessage)
        ensures
            final(self)@ == old(self)@.recorded(room_id@).written(
                room_id@,
                old(self)@.recorded(room_id@).messages(room_id@).push(msg),
            ),
            final(self)@.room_path(room_id@) != final(self)@.known_path() ==> {
                &&& final(self)@.messages(room_id@) == old(self)@.messages(room_id@).push(msg)
                &&& final(self)@.rooms() == with_room(old(self)@.rooms(), room_id@)
            },
    {
        self.record_room(room_id);
        let mut msgs = self.load(room_id);
        msgs.push(msg);
        let path = self.path(room_id);
        self.restore(path, HistoryFile::Messages(msgs));
    }

    /// Replace a room's entire history (used by compaction).
    pub fn rewrite(&mut self, room_id: &str, msgs: Vec<ChatMessage>)
        ensures
            final(self)@ == old(self)@.recorded(room_id@).written(room_id@, msgs@),
            final(self)@.messages(room_id@) == msgs@,
            final(self)@.room_path(room_id@) != final(self)@.known_path() ==> final(self)@.rooms()
                == with_room(old(self)@.rooms(), room_id@),
    {
        self.record_room(room_id);
        let path = self.path(room_id);
        self.restore(path, HistoryFile::Messages(msgs));
    }

    /// Estimated total token count of a room's full history.
    pub fn token_count(&self, room_id: &str) -> (r: usize)
        requires
            total(self@.messages(room_id@)) <= usize::MAX,
        ensures
            r == total(self@.messages(room_id@)),
    {
        let msgs = self.load(room_id);
        let mut k: usize = msgs.len();
        let mut sum: usize = 0;
        assert(msgs@.skip(msgs@.len() as int).len() == 0);
        assert(msgs@.skip(0) == msgs@);
        while k > 0
            invariant
                k <= msgs.len(),
                msgs@.skip(0) == msgs@,
                total(msgs@) <= usize::MAX,
                sum == total(msgs@.skip(k as int)),
            decreases k,
        {
            assert(msgs@.skip(k - 1).drop_first() == msgs@.skip(k as int));
            proof {
                lemma_total_tail(msgs@, 0, k - 1);
            }
            sum += estimate_tokens(msgs[k - 1].content.as_str());
            k -= 1;
        }
        sum
    }

    /// Returns up to `max` most recent messages.
    pub fn windowed(&self, room_id: &str, max: usize) -> (r: Vec<ChatMessage>)
        ensures
            r@ == (if self@.messages(room_id@).len() <= max {
                self@.messages(room_id@)
            } else {
                self@.messages(room_id@).skip(self@.messages(room_id@).len() - max)
            }),
    {
        let msgs = self.load(room_id);
        if msgs.len() <= max {
            msgs
        } else {
            copy_messages(vstd::slice::slice_subrange(msgs.as_slice(), msgs.len() - max, msgs.len()))
        }
    }

    /// Returns the most recent messages whose combined estimated token count fits
    /// within `token_budget`, in chronological order. The single most recent
    /// message is always included even if it alone exceeds the budget, so the
    /// user's latest turn is never dropped.
    pub fn windowed_by_tokens(&self, room_id: &str, token_budget: usize) -> (r: Vec<ChatMessage>)
        ensures
            exists|k: int| #[trigger]
                is_window(self@.messages(room_id@), token_budget as nat, k) && r@
                    == self@.messages(room_id@).skip(k),
    {
        let msgs = self.load(room_id);
        let k = window_start(msgs.as_slice(), token_budget);
        copy_messages(vstd::slice::slice_subrange(msgs.as_slice(), k, msgs.len()))
    }

    /// Drops a room's history.
    pub fn clear(&mut self, room_id: &str)
        ensures
            final(self)@.data_dir == old(self)@.data_dir,
            final(self)@.files == old(self)@.files.remove(old(self)@.room_path(room_id@)),
            final(self)@.messages(room_id@) == Seq::<ChatMessage>::empty(),
    {
        let path = self.path(room_id);
        let _ = self.files.remove(path.as_str());
    }
}

/// The estimate of a text is four tokens and one for each full four bytes.
pub proof fn law_four_bytes_are_a_token(s: Seq<char>)
    ensures
        4 * (tokens(s) - 4) <= text::utf8_len(s) < 4 * (tokens(s) - 4) + 4,
{
}

/// The tokens of conversations one after another are those of both together, and each message counts
/// once.
pub proof fn law_tokens_add_up(a: Seq<ChatMessage>, b: Seq<ChatMessage>, m: ChatMessage)
    ensures
        total(a + b) == total(a) + total(b),
        total(seq![m]) == 4 + text::utf8_len(m.content@) / 4,
    decreases a.len(),
{
    assert(seq![m].drop_first() =~= Seq::<ChatMessage>::empty());
    assert(total(seq![m].drop_first()) == 0);
    if a.len() == 0 {
        assert(a + b =~= b);
    } else {
        assert((a + b).drop_first() =~= a.drop_first() + b);
        law_tokens_add_up(a.drop_first(), b, m);
    }
}

/// A window is the longest tail that fits: it fits, unless it is the latest message alone, and no
/// longer tail does. The latest message is always there.
pub proof fn law_window_is_the_longest_that_fits(
    msgs: Seq<ChatMessage>,
    budget: nat,
    k: int,
    j: int,
)
    requires
        is_window(msgs, budget, k),
        msgs.len() > 0,
    ensures
        0 <= k < msgs.len(),
        msgs.skip(k).last() == msgs.last(),
        msgs.skip(k).len() == 1 || total(msgs.skip(k)) <= budget,
        0 <= j < k ==> total(msgs.skip(j)) > budget,
{
    if 0 <= j < k {
        lemma_total_tail(msgs, j, k - 1);
    }
}

/// A conversation that fits is sent whole.
pub proof fn law_short_conversation_is_whole(msgs: Seq<ChatMessage>, budget: nat, k: int)
    requires
        is_window(msgs, budget, k),
        total(msgs) <= budget,
    ensures
        msgs.skip(k) == msgs,
{
    assert(msgs.skip(0) =~= msgs);
    if k > 0 {
        lemma_total_tail(msgs, 0, k - 1);
    }
}

/// A room that was entered is listed once, behind those that were there, which all stay in their
/// order.
pub proof fn law_rooms_are_listed_once(rooms: Seq<Seq<char>>, room_id: Seq<char>)
    ensures
        with_room(rooms, room_id).contains(room_id),
        rooms.is_prefix_of(with_room(rooms, room_id)),
        rooms.contains(room_id) ==> with_room(rooms, room_id) == rooms,
        !rooms.contains(room_id) ==> with_room(rooms, room_id).len() == rooms.len() + 1
            && with_room(rooms, room_id).last() == room_id,
        rooms.no_duplicates() ==> with_room(rooms, room_id).no_duplicates(),
{
    let all = with_room(rooms, room_id);
    if !rooms.contains(room_id) {
        assert(all[all.len() - 1] == room_id);
    }
}

/// A room that is entered in the list can be read from it, where a list reads back as it was
/// written.
pub proof fn law_recorded_room_is_listed(h: HistoryView, room_id: Seq<char>)
    requires
        json::string_list(json::string_list_json(h.rooms().push(room_id))) == Some(
            h.rooms().push(room_id),
        ),
    ensures
        h.recorded(room_id).rooms() == with_room(h.rooms(), room_id),
        h.recorded(room_id).rooms().contains(room_id),
{
    law_rooms_are_listed_once(h.rooms(), room_id);
}

/// A message that is appended to a room stands behind all that was there, and no other room's
/// messages change, where its file is not the list of rooms.
pub proof fn law_append_adds_one(
    h: HistoryView,
    room_id: Seq<char>,
    other: Seq<char>,
    msg: ChatMessage,
)
    requires
        h.room_path(room_id) != h.known_path(),
        h.room_path(other) != h.known_path(),
        paths::safe_room(room_id) != paths::safe_room(other),
    ensures
        ({
            let after = h.recorded(room_id).written(
                room_id,
                h.recorded(room_id).messages(room_id).push(msg),
            );
            &&& after.messages(room_id).len() == h.messages(room_id).len() + 1
            &&& after.messages(room_id).last() == msg
            &&& after.messages(room_id).drop_last() == h.messages(room_id)
            &&& after.messages(other) == h.messages(other)
        }),
{
    let then = h.recorded(room_id);
    law_recording_keeps_messages(h, room_id, room_id);
    law_recording_keeps_messages(h, room_id, other);
    law_rooms_are_isolated(then, room_id, other, then.messages(room_id).push(msg));
    assert(h.messages(room_id).push(msg).drop_last() =~= h.messages(room_id));
}

/// Under a directory without a slash at its end each room has its own file, and so has the list of
/// rooms.
pub proof fn law_where_histories_stand(h: HistoryView, room_id: Seq<char>)
    requires
        h.data_dir.len() > 0 && h.data_dir.last() != '/',
    ensures
        h.known_path() == h.data_dir + "/known_rooms.json"@,
        h.room_path(room_id) == h.data_dir + "/"@ + paths::safe_room(room_id) + ".json"@,
{
    reveal_strlit("/");
    reveal_strlit("known_rooms.json");
    reveal_strlit("/known_rooms.json");
    reveal_strlit(".json");
    paths::law_paths_are_joined(h.data_dir, "known_rooms.json"@);
    assert(h.known_path() =~= h.data_dir + "/known_rooms.json"@);
    paths::law_room_file_stays_in_dir(h.data_dir, room_id, ".json"@);
    assert(h.room_path(room_id) =~= h.data_dir + "/"@ + paths::safe_room(room_id) + ".json"@);
}

} // verus!
