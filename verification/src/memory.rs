//! Durable memory files, injected into the system prompt. Two tiers:
//! a **global** file shared across rooms and a **per-room** file. Files live under
//! the state dir (`~/.roger/memory/`). Beside them each room has a TLDR, the summary
//! that its last compaction wrote.

use crate::history;
use crate::names::NameMap;
use crate::paths;
use crate::text;
use crate::text::Class;
use vstd::prelude::*;
use vstd::string::*;

verus! {

/// The memory files: where they stand, and what they hold.
pub struct MemoryView {
    pub global_path: Seq<char>,
    pub rooms_dir: Seq<char>,
    pub tldr_dir: Seq<char>,
    pub files: Map<Seq<char>, Seq<char>>,
}

impl MemoryView {
    /// The memory file of a room.
    pub open spec fn room_path(self, room_id: Seq<char>) -> Seq<char> {
        paths::room_file_spec(self.rooms_dir, room_id, ".md"@)
    }

    /// The TLDR file of a room.
    pub open spec fn tldr_path(self, room_id: Seq<char>) -> Seq<char> {
        paths::room_file_spec(self.tldr_dir, room_id, ".md"@)
    }

    /// What a file reads as: its text without white space at the ends, nothing where it is
    /// missing.
    pub open spec fn read(self, path: Seq<char>) -> Seq<char> {
        if self.files.contains_key(path) {
            text::trim(self.files[path])
        } else {
            Seq::empty()
        }
    }

    /// With a file written.
    pub open spec fn written(self, path: Seq<char>, content: Seq<char>) -> MemoryView {
        MemoryView { files: self.files.insert(path, content), ..self }
    }

    /// Without a file.
    pub open spec fn removed(self, path: Seq<char>) -> MemoryView {
        MemoryView { files: self.files.remove(path), ..self }
    }

    /// With a block added to a file, after a blank line where the file holds something already. A
    /// blank block adds nothing.
    pub open spec fn appended(self, path: Seq<char>, block: Seq<char>) -> MemoryView {
        if text::is_blank(block) {
            self
        } else if self.read(path).len() == 0 {
            self.written(path, text::trim(block))
        } else {
            self.written(path, self.read(path) + "\n\n"@ + text::trim(block))
        }
    }
}

/// The token estimate of a memory text, zero where it is empty.
pub open spec fn memory_tokens(s: Seq<char>) -> nat {
    if s.len() == 0 {
        0
    } else {
        history::tokens(s)
    }
}

/// Where the memory files stand: under `memory` in the state directory, the global one where the
/// configuration says.
pub open spec fn layout(
    state_dir: Seq<char>,
    global_override: Option<Seq<char>>,
    home: Option<Seq<char>>,
) -> MemoryView {
    let base = paths::join_spec(state_dir, "memory"@);
    MemoryView {
        global_path: match global_override {
            Some(p) => paths::expand_spec(home, p),
            None => paths::join_spec(base, "global.md"@),
        },
        rooms_dir: paths::join_spec(base, "rooms"@),
        tldr_dir: paths::join_spec(base, "tldr"@),
        files: Map::empty(),
    }
}

/// What was written is read back, without the white space at its ends, and no other file changes.
pub proof fn law_write_reads_back(m: MemoryView, path: Seq<char>, other: Seq<char>, content: Seq<char>)
    requires
        other != path,
    ensures
        m.written(path, content).read(path) == text::trim(content),
        m.written(path, content).read(other) == m.read(other),
        m.removed(path).read(path).len() == 0,
        m.removed(path).read(other) == m.read(other),
{
}

/// After a block was added, a file reads as before with the block behind it, a blank line between
/// them; no other file changes.
pub proof fn law_append_adds_the_block(
    m: MemoryView,
    path: Seq<char>,
    other: Seq<char>,
    block: Seq<char>,
)
    requires
        other != path,
    ensures
        m.appended(path, block).read(other) == m.read(other),
        m.appended(path, block).read(path) == (if text::is_blank(block) {
            m.read(path)
        } else if m.read(path).len() == 0 {
            text::trim(block)
        } else {
            m.read(path) + "\n\n"@ + text::trim(block)
        }),
{
    let cur = m.read(path);
    let b = text::trim(block);
    text::lemma_trimmed_ends(block, Class::Space);
    if m.files.contains_key(path) {
        text::lemma_trimmed_ends(m.files[path], Class::Space);
    }
    text::lemma_trim_fixed(b, Class::Space);
    if b.len() > 0 && cur.len() > 0 {
        let next = cur + "\n\n"@ + b;
        assert(next[0] == cur[0]);
        assert(next.last() == b.last());
        text::lemma_trim_fixed(next, Class::Space);
    }
}

/// The files of two rooms differ where their ids differ as file names, in memory and TLDR alike.
pub proof fn law_rooms_have_their_own_files(m: MemoryView, a: Seq<char>, b: Seq<char>)
    requires
        paths::safe_room(a) != paths::safe_room(b),
    ensures
        m.room_path(a) != m.room_path(b),
        m.tldr_path(a) != m.tldr_path(b),
{
    reveal_strlit(".md");
    paths::law_rooms_share_a_file(m.rooms_dir, a, b, ".md"@);
    paths::law_rooms_share_a_file(m.tldr_dir, a, b, ".md"@);
}

/// In the default layout the global file, the room files and the TLDRs never share a path.
pub proof fn law_tiers_are_separate(
    state_dir: Seq<char>,
    home: Option<Seq<char>>,
    a: Seq<char>,
    b: Seq<char>,
)
    ensures
        ({
            let m = layout(state_dir, None, home);
            &&& m.room_path(a) != m.tldr_path(b)
            &&& m.global_path != m.room_path(a)
            &&& m.global_path != m.tldr_path(a)
        }),
{
    reveal_strlit("memory");
    reveal_strlit("rooms");
    reveal_strlit("tldr");
    reveal_strlit("global.md");
    reveal_strlit(".md");
    reveal_strlit("/");
    let m = layout(state_dir, None, home);
    let base = paths::join_spec(state_dir, "memory"@);
    assert(base.last() == 'y');
    assert forall|rel: Seq<char>| rel == "rooms"@ || rel == "tldr"@ || rel == "global.md"@ implies
        #[trigger] paths::join_spec(base, rel) == base + "/"@ + rel by {
        assert(rel.subrange(0, 1)[0] == rel[0]);
        assert("/"@[0] == '/');
    }
    paths::law_room_file_stays_in_dir(m.rooms_dir, a, ".md"@);
    paths::law_room_file_stays_in_dir(m.tldr_dir, b, ".md"@);
    paths::law_room_file_stays_in_dir(m.tldr_dir, a, ".md"@);
    let i = base.len() as int + 1;
    assert(m.rooms_dir == base + "/"@ + "rooms"@);
    assert(m.tldr_dir == base + "/"@ + "tldr"@);
    assert(m.global_path == base + "/"@ + "global.md"@);
    assert(m.room_path(a)[i] == 'r');
    assert(m.tldr_path(b)[i] == 't');
    assert(m.tldr_path(a)[i] == 't');
    assert(m.global_path[i] == 'g');
}

/// Durable memory: one global text, and a memory and a TLDR per room.
pub struct MemoryStore {
    global_path: String,
    rooms_dir: String,
    tldr_dir: String,
    files: NameMap<String>,
}

impl View for MemoryStore {
    type V = MemoryView;

    closed spec fn view(&self) -> MemoryView {
        MemoryView {
            global_path: self.global_path@,
            rooms_dir: self.rooms_dir@,
            tldr_dir: self.tldr_dir@,
            files: self.files@.map_values(|s: String| s@),
        }
    }
}

/// The token estimate of a memory text, zero where it is empty.
fn tokens_of(s: &str) -> (r: usize)
    ensures
        r == memory_tokens(s@),
{
    if text::chars_of(s).len() == 0 {
        0
    } else {
        history::estimate_tokens(s)
    }
}

impl MemoryStore {
    /// `state_dir` is roger's state dir (`~/.roger`). `global_override` is
    /// `[memory].global_file` if configured, else `<state>/memory/global.md`. A leading `~` of it
    /// is read against `home`. No file is there yet.
    pub fn new(state_dir: &str, global_override: Option<&str>, home: Option<&str>) -> (r: Self)
        ensures
            r@ == layout(state_dir@, text::opt_str(global_override), text::opt_str(home)),
    {
        let base = paths::join_path(state_dir, "memory");
        let global_path = match global_override {
            Some(p) => paths::expand_tilde(home, p),
            None => paths::join_path(base.as_str(), "global.md"),
        };
        let r = MemoryStore {
            global_path,
            rooms_dir: paths::join_path(base.as_str(), "rooms"),
            tldr_dir: paths::join_path(base.as_str(), "tldr"),
            files: NameMap::new(),
        };
        assert(r@.files == Map::<Seq<char>, Seq<char>>::empty());
        r
    }

    /// Where the global memory stands.
    pub fn global_path(&self) -> (r: String)
        ensures
            r@ == self@.global_path,
    {
        self.global_path.clone()
    }

    /// Where a room's memory stands.
    pub fn room_path(&self, room_id: &str) -> (r: String)
        ensures
            r@ == self@.room_path(room_id@),
    {
        paths::room_file(self.rooms_dir.as_str(), room_id, ".md")
    }

    /// Where a room's TLDR stands.
    pub fn tldr_path(&self, room_id: &str) -> (r: String)
        ensures
            r@ == self@.tldr_path(room_id@),
    {
        paths::room_file(self.tldr_dir.as_str(), room_id, ".md")
    }

    /// Writes a file, or takes over one that stands at `path`.
    pub fn write(&mut self, path: String, content: String)
        ensures
            final(self)@ == old(self)@.written(path@, content@),
    {
        self.files.insert(path, content);
        assert(self@.files == old(self)@.files.insert(path@, content@));
    }

    /// Drops a file, where it is there.
    pub fn remove(&mut self, path: &str)
        ensures
            final(self)@ == old(self)@.removed(path@),
    {
        let _ = self.files.remove(path);
        assert(self@.files == old(self)@.files.remove(path@));
    }

    /// The text of a file as it stands.
    pub fn file(&self, path: &str) -> (r: Option<&String>)
        ensures
            match r {
                Some(t) => self@.files.contains_key(path@) && t@ == self@.files[path@],
                None => !self@.files.contains_key(path@),
            },
    {
        self.files.get(path)
    }

    /// A file without white space at its ends.
    fn read_trimmed(&self, path: &str) -> (r: String)
        ensures
            r@ == self@.read(path@),
    {
        match self.file(path) {
            Some(t) => text::trimmed(t.as_str()),
            None => String::new(),
        }
    }

    /// Adds a block to a file.
    fn append(&mut self, path: String, block: &str)
        ensures
            final(self)@ == old(self)@.appended(path@, block@),
    {
        let trimmed = text::trimmed(block);
        if text::chars_of(trimmed.as_str()).len() == 0 {
            return;
        }
        let current = self.read_trimmed(path.as_str());
        if text::chars_of(current.as_str()).len() == 0 {
            self.write(path, trimmed);
        } else {
            let mut next = current.clone();
            next.append("\n\n");
            next.append(trimmed.as_str());
            self.write(path, next);
        }
    }

    /// Current TLDR for a room — a short cold-start summary written by compaction.
    /// Empty when no compaction has run yet.
    pub fn read_tldr(&self, room_id: &str) -> (r: String)
        ensures
            r@ == self@.read(self@.tldr_path(room_id@)),
    {
        let path = self.tldr_path(room_id);
        self.read_trimmed(path.as_str())
    }

    /// Replace the room TLDR with a freshly compacted summary. Called by compaction;
    /// always a full rewrite (not append) so it never accumulates stale content.
    pub fn rewrite_tldr(&mut self, room_id: &str, content: &str)
        ensures
            final(self)@ == old(self)@.written(old(self)@.tldr_path(room_id@), content@),
    {
        let path = self.tldr_path(room_id);
        self.write(path, content.to_owned());
    }

    /// Delete the TLDR for a room (for `/forget`).
    pub fn clear_tldr(&mut self, room_id: &str)
        ensures
            final(self)@ == old(self)@.removed(old(self)@.tldr_path(room_id@)),
    {
        let path = self.tldr_path(room_id);
        self.remove(path.as_str());
    }

    /// Global memory text (empty if the file is missing or blank).
    pub fn read_global(&self) -> (r: String)
        ensures
            r@ == self@.read(self@.global_path),
    {
        self.read_trimmed(self.global_path.as_str())
    }

    /// Per-room memory text (empty if the file is missing or blank).
    pub fn read_room(&self, room_id: &str) -> (r: String)
        ensures
            r@ == self@.read(self@.room_path(room_id@)),
    {
        let path = self.room_path(room_id);
        self.read_trimmed(path.as_str())
    }

    /// Estimated token size of the global memory (0 when empty).
    pub fn global_tokens(&self) -> (r: usize)
        ensures
            r == memory_tokens(self@.read(self@.global_path)),
    {
        let s = self.read_global();
        tokens_of(s.as_str())
    }

    /// Estimated token size of a room's memory (0 when empty).
    pub fn room_tokens(&self, room_id: &str) -> (r: usize)
        ensures
            r == memory_tokens(self@.read(self@.room_path(room_id@))),
    {
        let s = self.read_room(room_id);
        tokens_of(s.as_str())
    }

    /// Delete the global memory file (for `/forget global`).
    pub fn clear_global(&mut self)
        ensures
            final(self)@ == old(self)@.removed(old(self)@.global_path),
    {
        let path = self.global_path();
        self.remove(path.as_str());
    }

    /// Delete a room's memory file (for `/forget`).
    pub fn clear_room(&mut self, room_id: &str)
        ensures
            final(self)@ == old(self)@.removed(old(self)@.room_path(room_id@)),
    {
        let path = self.room_path(room_id);
        self.remove(path.as_str());
    }

    /// Append a block to a room's memory (blank-line separated), creating the file.
    pub fn append_room(&mut self, room_id: &str, block: &str)
        ensures
            final(self)@ == old(self)@.appended(old(self)@.room_path(room_id@), block@),
    {
        let path = self.room_path(room_id);
        self.append(path, block);
    }

    /// Append a block to the global memory (blank-line separated).
    pub fn append_global(&mut self, block: &str)
        ensures
            final(self)@ == old(self)@.appended(old(self)@.global_path, block@),
    {
        let path = self.global_path();
        self.append(path, block);
    }

    /// Replace a room's memory with `content` (used by memory self-compaction).
    pub fn rewrite_room(&mut self, room_id: &str, content: &str)
        ensures
            final(self)@ == old(self)@.written(old(self)@.room_path(room_id@), content@),
    {
        let path = self.room_path(room_id);
        self.write(path, content.to_owned());
    }

    /// Replace the global memory with `content`.
    pub fn rewrite_global(&mut self, content: &str)
        ensures
            final(self)@ == old(self)@.written(old(self)@.global_path, content@),
    {
        let path = self.global_path();
        self.write(path, content.to_owned());
    }
}

/// Under a state directory without a slash at its end the memories stand in `memory`: the global one
/// in `global.md`, those of the rooms in `rooms`, the TLDRs in `tldr`, each named after its room.
#[verifier::rlimit(40)]
pub proof fn law_where_memories_stand(
    state_dir: Seq<char>,
    home: Option<Seq<char>>,
    room_id: Seq<char>,
)
    requires
        state_dir.len() > 0 && state_dir.last() != '/',
    ensures
        ({
            let m = layout(state_dir, None, home);
            &&& m.global_path == state_dir + "/memory/global.md"@
            &&& m.room_path(room_id) == state_dir + "/memory/rooms/"@ + paths::safe_room(room_id)
                + ".md"@
            &&& m.tldr_path(room_id) == state_dir + "/memory/tldr/"@ + paths::safe_room(room_id)
                + ".md"@
            &&& m.files == Map::<Seq<char>, Seq<char>>::empty()
        }),
{
    reveal_strlit("memory");
    reveal_strlit("global.md");
    reveal_strlit("rooms");
    reveal_strlit("tldr");
    reveal_strlit(".md");
    reveal_strlit("/memory/global.md");
    reveal_strlit("/memory/rooms/");
    reveal_strlit("/memory/tldr/");
    paths::law_paths_are_joined(state_dir, "memory"@);
    let base = paths::join_spec(state_dir, "memory"@);
    assert(base == state_dir + seq!['/'] + "memory"@);
    assert(base.last() == 'y');
    paths::law_paths_are_joined(base, "global.md"@);
    paths::law_paths_are_joined(base, "rooms"@);
    paths::law_paths_are_joined(base, "tldr"@);
    let m = layout(state_dir, None, home);
    assert(m.global_path =~= state_dir + "/memory/global.md"@);
    assert(m.rooms_dir.last() == 's');
    assert(m.tldr_dir.last() == 'r');
    let name = paths::safe_room(room_id) + ".md"@;
    paths::law_room_ids_as_file_names(room_id);
    assert(name[0] != '/') by {
        if room_id.len() > 0 {
            assert(name[0] == paths::safe_room(room_id)[0]);
            let bad = seq!['!', ':', '/'];
            assert(bad[2] == '/');
        } else {
            assert(name[0] == '.');
        }
    }
    paths::law_paths_are_joined(m.rooms_dir, name);
    paths::law_paths_are_joined(m.tldr_dir, name);
    assert(m.room_path(room_id) =~= state_dir + "/memory/rooms/"@ + paths::safe_room(room_id)
        + ".md"@);
    assert(m.tldr_path(room_id) =~= state_dir + "/memory/tldr/"@ + paths::safe_room(room_id)
        + ".md"@);
}

/// A configured global memory stands where it is configured.
pub proof fn law_configured_global_memory(
    state_dir: Seq<char>,
    home: Option<Seq<char>>,
    path: Seq<char>,
)
    requires
        path.len() > 0 && path[0] != '~',
    ensures
        layout(state_dir, Some(path), home).global_path == path,
        layout(state_dir, Some(path), home).rooms_dir == layout(state_dir, None, home).rooms_dir,
        layout(state_dir, Some(path), home).tldr_dir == layout(state_dir, None, home).tldr_dir,
{
    reveal_strlit("~");
    reveal_strlit("~/");
    if text::starts_with(path, "~/"@) {
        assert(path.subrange(0, 2)[0] == path[0]);
    }
    if path == "~"@ {
        assert(path[0] == '~');
    }
}

/// A memory that holds something has four tokens and one for each four bytes; an empty one has none.
pub proof fn law_tokens_of_a_memory(s: Seq<char>)
    ensures
        s.len() == 0 ==> memory_tokens(s) == 0,
        s.len() > 0 ==> memory_tokens(s) == 4 + text::utf8_len(s) / 4,
{
}

} // verus!
