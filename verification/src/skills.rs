//! Skills: reusable procedures roger can load and author. A skill is a markdown
//! file (`<name>.md`) with a title and a one-line description followed by steps.
//! Active skills live in `config/skills/` (committed) and `~/.roger/skills/active/`
//! (learned); a small index (name + description) says what there is, and full bodies
//! are loaded on demand via the `read_skill` tool.
//!
//! Self-improvement is approval-gated: `write_skill` writes to `~/.roger/skills/pending/`;
//! a skill only becomes active once it is approved.

use crate::names;
use crate::names::NameMap;
use crate::paths;
use crate::text;
use crate::text::Class;
use vstd::prelude::*;
use vstd::slice::slice_subrange;
use vstd::string::*;

verus! {

/// The character that stands for `c` in a skill's name.
pub open spec fn skill_char(c: char) -> char {
    if text::is_alnum(c) || c == '-' || c == '_' {
        c
    } else {
        '_'
    }
}

/// A name as it is used for a file: letters, digits, `-` and `_`, with no `_` at either end.
pub open spec fn sanitized(name: Seq<char>) -> Seq<char> {
    text::trim_both(text::trim(name).map_values(|c: char| skill_char(c)), Class::Only('_'))
}

/// The file of a skill.
pub open spec fn skill_file(name: Seq<char>) -> Seq<char> {
    sanitized(name) + ".md"@
}

/// The first of the lines that is neither blank nor a heading, trimmed.
pub open spec fn first_text_line(lines: Seq<Seq<char>>) -> Option<Seq<char>>
    decreases lines.len(),
{
    if lines.len() == 0 {
        None
    } else if text::is_blank(lines[0]) || text::trim(lines[0])[0] == '#' {
        first_text_line(lines.drop_first())
    } else {
        Some(text::trim(lines[0]))
    }
}

/// The one-line description of a skill: its first line that is neither blank nor a heading, without
/// quote marks, cut to 120 characters.
pub open spec fn description(content: Seq<char>) -> Seq<char> {
    match first_text_line(text::split_on(content, '\n')) {
        Some(l) => text::first(text::trim(text::trim_front(l, Class::Only('>'))), 120),
        None => Seq::empty(),
    }
}

/// Reduces a name to what is used for a file: letters, digits, `-` and `_`, without `_` at either
/// end. A name that is such already stays as it is.
pub fn sanitize(name: &str) -> (r: String)
    ensures
        r@ == sanitized(name@),
        forall|i: int|
            0 <= i < r@.len() ==> text::is_alnum(#[trigger] r@[i]) || r@[i] == '-' || r@[i] == '_',
        r@.len() > 0 ==> r@[0] != '_' && r@.last() != '_',
        sanitized(r@) == r@,
{
    proof {
        law_sanitizing_settles(name@);
        assert forall|i: int| 0 <= i < sanitized(name@).len() implies text::is_alnum(
            #[trigger] sanitized(name@)[i],
        ) || sanitized(name@)[i] == '-' || sanitized(name@)[i] == '_' by {
            law_names_are_safe(name@, i);
        }
    }
    let v = text::chars_of(name);
    let t = text::skip_both(v.as_slice(), Class::Space);
    let mut out: Vec<char> = Vec::new();
    let ghost all = t@.map_values(|c: char| skill_char(c));
    let mut i: usize = 0;
    while i < t.len()
        invariant
            i <= t.len(),
            all == t@.map_values(|c: char| skill_char(c)),
            out@ == all.take(i as int),
        decreases t.len() - i,
    {
        let c = t[i];
        out.push(if text::alnum(c) || c == '-' || c == '_' { c } else { '_' });
        assert(all.take(i + 1) == all.take(i as int).push(skill_char(c)));
        i += 1;
    }
    assert(all.take(all.len() as int) == all);
    text::string_of(text::skip_both(out.as_slice(), Class::Only('_')))
}

/// The file of a skill.
fn file_of(name: &str) -> (r: String)
    ensures
        r@ == skill_file(name@),
{
    let mut f = sanitize(name);
    f.append(".md");
    f
}

/// The skill's one-line description: the first non-empty, non-heading line.
pub fn description_of(content: &str) -> (r: String)
    ensures
        r@ == description(content@),
{
    let v = text::chars_of(content);
    let lines = text::pieces(v.as_slice(), '\n');
    let ghost all = text::split_on(content@, '\n');
    let mut i: usize = 0;
    assert(all.skip(0) == all);
    while i < lines.len()
        invariant
            i <= lines.len(),
            all == lines@.map_values(|p: &[char]| p@),
            all == text::split_on(content@, '\n'),
            first_text_line(all) == first_text_line(all.skip(i as int)),
        decreases lines.len() - i,
    {
        let l = text::skip_both(lines[i], Class::Space);
        assert(all.skip(i as int)[0] == lines@[i as int]@);
        assert(all.skip(i as int).drop_first() == all.skip(i + 1));
        if l.len() > 0 && l[0] != '#' {
            let bare = text::skip_both(text::skip_front(l, Class::Only('>')), Class::Space);
            return text::string_of(text::first_chars(bare, 120));
        }
        i += 1;
    }
    assert(all.skip(i as int).len() == 0);
    String::new()
}

/// Why a skill could not be drafted or approved.
#[derive(Debug)]
pub enum SkillError {
    /// No character of the name can stand in a file name.
    InvalidName,
    /// No skill of this name is pending.
    NotPending(String),
}

impl SkillError {
    /// What the error says.
    pub open spec fn text(self) -> Seq<char> {
        match self {
            SkillError::InvalidName => "invalid skill name"@,
            SkillError::NotPending(name) => "no pending skill '"@ + name@ + "'"@,
        }
    }

    /// What the error says.
    pub fn message(&self) -> (r: String)
        ensures
            r@ == self.text(),
            self matches SkillError::NotPending(name) ==> r@ == "no pending skill '"@ + name@ + "'"@,
            *self is InvalidName ==> r@ == "invalid skill name"@,
    {
        match self {
            SkillError::InvalidName => "invalid skill name".to_owned(),
            SkillError::NotPending(name) => {
                let mut out = "no pending skill '".to_owned();
                out.append(name.as_str());
                out.append("'");
                out
            },
        }
    }
}

/// The skill directories, each as its files by name.
#[verifier::ext_equal]
pub struct SkillView {
    pub committed: Map<Seq<char>, Seq<char>>,
    pub learned: Map<Seq<char>, Seq<char>>,
    pub pending: Map<Seq<char>, Seq<char>>,
}

/// Whether a directory holds a skill `name`.
pub open spec fn holds(dir: Map<Seq<char>, Seq<char>>, name: Seq<char>) -> bool {
    name.len() > 0 && dir.contains_key(name + ".md"@)
}

impl SkillView {
    /// The name and description of every active skill; a learned skill overrides a committed one.
    pub open spec fn index(self) -> Map<Seq<char>, Seq<char>> {
        Map::new(
            |name: Seq<char>| holds(self.learned, name) || holds(self.committed, name),
            |name: Seq<char>|
                description(
                    if holds(self.learned, name) {
                        self.learned[name + ".md"@]
                    } else {
                        self.committed[name + ".md"@]
                    },
                ),
        )
    }

    /// The names of the pending skills.
    pub open spec fn pending_names(self) -> Set<Seq<char>> {
        Set::new(|name: Seq<char>| holds(self.pending, name))
    }

    /// The body of an active skill; a learned skill overrides a committed one.
    pub open spec fn body(self, name: Seq<char>) -> Option<Seq<char>> {
        if self.learned.contains_key(skill_file(name)) {
            Some(self.learned[skill_file(name)])
        } else if self.committed.contains_key(skill_file(name)) {
            Some(self.committed[skill_file(name)])
        } else {
            None
        }
    }

    /// With a draft.
    pub open spec fn drafted(self, name: Seq<char>, content: Seq<char>) -> SkillView {
        SkillView { pending: self.pending.insert(skill_file(name), content), ..self }
    }

    /// With a pending skill made active.
    pub open spec fn approved(self, name: Seq<char>) -> SkillView {
        SkillView {
            learned: self.learned.insert(skill_file(name), self.pending[skill_file(name)]),
            pending: self.pending.remove(skill_file(name)),
            ..self
        }
    }

    /// Without a learned or pending skill.
    pub open spec fn forgotten(self, name: Seq<char>) -> SkillView {
        SkillView {
            learned: self.learned.remove(skill_file(name)),
            pending: self.pending.remove(skill_file(name)),
            ..self
        }
    }
}

/// A draft changes nothing that is active: neither the index nor any body.
pub proof fn law_draft_is_not_active(
    v: SkillView,
    name: Seq<char>,
    content: Seq<char>,
    other: Seq<char>,
)
    ensures
        v.drafted(name, content).index() == v.index(),
        v.drafted(name, content).body(other) == v.body(other),
{
    assert(v.drafted(name, content).index() =~= v.index());
}

/// A draft that is approved is active, described by its own text and read back as it was drafted,
/// and no longer pending.
pub proof fn law_approved_draft_is_active(v: SkillView, name: Seq<char>, content: Seq<char>)
    requires
        sanitized(name).len() > 0,
    ensures
        ({
            let after = v.drafted(name, content).approved(name);
            &&& after.index().contains_key(sanitized(name))
            &&& after.index()[sanitized(name)] == description(content)
            &&& !after.pending_names().contains(sanitized(name))
            &&& after.body(name) == Some(content)
        }),
{
}

/// Forgetting leaves the committed skills alone, and leaves neither a learned nor a pending skill
/// of the name.
pub proof fn law_committed_skills_stay(v: SkillView, name: Seq<char>)
    ensures
        v.forgotten(name).committed == v.committed,
        !holds(v.forgotten(name).learned, sanitized(name)),
        !holds(v.forgotten(name).pending, sanitized(name)),
{
}

/// A sanitized name holds only letters, digits, `-` and `_`.
pub proof fn law_names_are_safe(name: Seq<char>, i: int)
    requires
        0 <= i < sanitized(name).len(),
    ensures
        text::is_alnum(sanitized(name)[i]) || sanitized(name)[i] == '-' || sanitized(name)[i]
            == '_',
{
    let all = text::trim(name).map_values(|c: char| skill_char(c));
    lemma_front_keeps(all, Class::Only('_'));
    lemma_back_keeps(text::trim_front(all, Class::Only('_')), Class::Only('_'));
    let front = text::trim_front(all, Class::Only('_'));
    assert(sanitized(name)[i] == front[i]);
    let k = all.len() - front.len();
    assert(front[i] == all[k + i]);
}

proof fn lemma_front_keeps(s: Seq<char>, k: Class)
    ensures
        text::trim_front(s, k).len() <= s.len(),
        forall|i: int|
            0 <= i < text::trim_front(s, k).len() ==> #[trigger] text::trim_front(s, k)[i] == s[i
                + s.len() - text::trim_front(s, k).len()],
    decreases s.len(),
{
    if s.len() > 0 && k.has(s[0]) {
        lemma_front_keeps(s.drop_first(), k);
    }
}

proof fn lemma_back_keeps(s: Seq<char>, k: Class)
    ensures
        text::trim_back(s, k).len() <= s.len(),
        forall|i: int|
            0 <= i < text::trim_back(s, k).len() ==> #[trigger] text::trim_back(s, k)[i] == s[i],
    decreases s.len(),
{
    if s.len() > 0 && k.has(s.last()) {
        lemma_back_keeps(s.drop_last(), k);
    }
}

/// A sanitized name neither starts nor ends with `_`, and sanitizing it again leaves it as it is.
pub proof fn law_sanitizing_settles(name: Seq<char>)
    ensures
        sanitized(name).len() > 0 ==> sanitized(name)[0] != '_' && sanitized(name).last() != '_',
        sanitized(sanitized(name)) == sanitized(name),
{
    let s = sanitized(name);
    text::lemma_trimmed_ends(
        text::trim(name).map_values(|c: char| skill_char(c)),
        Class::Only('_'),
    );
    assert forall|i: int| 0 <= i < s.len() implies skill_char(#[trigger] s[i]) == s[i]
        && !text::is_space(s[i]) by {
        law_names_are_safe(name, i);
    }
    text::lemma_trim_fixed(s, Class::Space);
    assert(s.map_values(|c: char| skill_char(c)) =~= s);
    text::lemma_trim_fixed(s, Class::Only('_'));
}

/// The skill in the file `file`, where it is one: `<name>.md` with a name.
fn stem_of(file: &str) -> (r: Option<String>)
    ensures
        match r {
            Some(s) => s@.len() > 0 && file@ == s@ + ".md"@,
            None => forall|s: Seq<char>| s.len() > 0 ==> file@ != #[trigger] (s + ".md"@),
        },
{
    proof {
        reveal_strlit(".md");
    }
    let v = text::chars_of(file);
    let ext = text::chars_of(".md");
    if v.len() > 3 && text::matches_at(v.as_slice(), ext.as_slice(), v.len() - 3) {
        let stem = text::string_of(slice_subrange(v.as_slice(), 0, v.len() - 3));
        proof {
            let tail = file@.subrange(file@.len() - 3, file@.len() as int);
            assert(stem@ + tail == file@);
        }
        Some(stem)
    } else {
        proof {
            assert forall|s: Seq<char>| s.len() > 0 implies file@ != #[trigger] (s + ".md"@) by {
                if file@ == s + ".md"@ {
                    assert(file@.subrange(file@.len() - 3, file@.len() as int) =~= ".md"@);
                }
            }
        }
        None
    }
}

/// Puts the descriptions of the skills of a directory into `index`, over what stands there.
fn add_descriptions(index: &mut NameMap<String>, dir: &NameMap<String>)
    ensures
        forall|k: Seq<char>| #[trigger]
            final(index)@.contains_key(k) <==> old(index)@.contains_key(k) || holds(
                text_files(dir@),
                k,
            ),
        forall|k: Seq<char>|
            final(index)@.contains_key(k) ==> #[trigger] final(index)@[k]@ == (if holds(
                text_files(dir@),
                k,
            ) {
                description(text_files(dir@)[k + ".md"@])
            } else {
                old(index)@[k]@
            }),
{
    let files = dir.keys();
    let ghost ks = text::views(files@);
    let ghost before = index@;
    let ghost texts = text_files(dir@);
    let mut i: usize = 0;
    while i < files.len()
        invariant
            i <= files.len(),
            ks == text::views(files@),
            names::lists_keys(ks, dir@.dom()),
            texts == text_files(dir@),
            forall|k: Seq<char>| #[trigger]
                index@.contains_key(k) <==> before.contains_key(k) || (k.len() > 0
                    && ks.take(i as int).contains(k + ".md"@)),
            forall|k: Seq<char>|
                index@.contains_key(k) ==> #[trigger] index@[k]@ == (if k.len() > 0 && ks.take(
                    i as int,
                ).contains(k + ".md"@) {
                    description(texts[k + ".md"@])
                } else {
                    before[k]@
                }),
        decreases files.len() - i,
    {
        let file = &files[i];
        let ghost then = index@;
        assert(ks[i as int] == file@);
        assert(ks.contains(ks[i as int]));
        assert(dir@.dom().contains(file@));
        assert(ks.take(i + 1) == ks.take(i as int).push(file@));
        let ghost mut put: Option<Seq<char>> = None;
        if let Some(stem) = stem_of(file.as_str()) {
            if let Some(content) = dir.get(file.as_str()) {
                let d = description_of(content.as_str());
                proof {
                    put = Some(stem@);
                }
                index.insert(stem, d);
            }
        }
        proof {
            assert forall|k: Seq<char>| k.len() > 0 implies (#[trigger] ks.take(i + 1).contains(
                k + ".md"@,
            ) <==> ks.take(i as int).contains(k + ".md"@) || file@ == k + ".md"@) by {
                let t = ks.take(i as int);
                let x = k + ".md"@;
                if t.push(file@).contains(x) && file@ != x {
                    let j = choose|j: int| 0 <= j < t.push(file@).len() && t.push(file@)[j] == x;
                    assert(t[j] == x);
                }
                if t.contains(x) {
                    let j = choose|j: int| 0 <= j < t.len() && t[j] == x;
                    assert(t.push(file@)[j] == x);
                }
                if file@ == x {
                    assert(t.push(file@)[t.len() as int] == x);
                }
            }
            assert forall|k: Seq<char>| k.len() > 0 && file@ == #[trigger] (k + ".md"@) implies put
                == Some(k) by {
                lemma_stem_unique(k, put->Some_0);
            }
            assert forall|k: Seq<char>|
                index@.contains_key(k) implies #[trigger] index@[k]@ == (if k.len() > 0
                && ks.take(i + 1).contains(k + ".md"@) {
                description(texts[k + ".md"@])
            } else {
                before[k]@
            }) by {
                if put == Some(k) {
                } else {
                    assert(then.contains_key(k));
                    assert(index@[k] == then[k]);
                }
            }
        }
        i += 1;
    }
    proof {
        assert(ks.take(ks.len() as int) == ks);
        assert forall|k: Seq<char>| #[trigger]
            index@.contains_key(k) <==> before.contains_key(k) || holds(texts, k) by {
            assert(dir@.dom().contains(k + ".md"@) <==> ks.contains(k + ".md"@));
        }
        assert forall|k: Seq<char>| index@.contains_key(k) implies #[trigger] index@[k]@ == (
        if holds(texts, k) {
            description(texts[k + ".md"@])
        } else {
            before[k]@
        }) by {
            assert(dir@.dom().contains(k + ".md"@) <==> ks.contains(k + ".md"@));
        }
    }
}

/// A file belongs to one skill.
proof fn lemma_stem_unique(a: Seq<char>, b: Seq<char>)
    ensures
        a + ".md"@ == b + ".md"@ ==> a == b,
{
    if a + ".md"@ == b + ".md"@ {
        assert((a + ".md"@).len() == (b + ".md"@).len());
        assert((a + ".md"@).take(a.len() as int) =~= a);
        assert((b + ".md"@).take(b.len() as int) =~= b);
    }
}

/// A directory by the texts of its files.
pub open spec fn text_files(dir: Map<Seq<char>, String>) -> Map<Seq<char>, Seq<char>> {
    dir.map_values(|s: String| s@)
}

/// The directories that a file of skills can stand in.
#[derive(Debug, Clone, Copy)]
pub enum SkillDir {
    Committed,
    Learned,
    Pending,
}

/// Active skills, committed and learned, and the drafts that await approval.
pub struct SkillStore {
    committed_dir: String,
    learned_dir: String,
    pending_dir: String,
    committed: NameMap<String>,
    learned: NameMap<String>,
    pending: NameMap<String>,
}

impl View for SkillStore {
    type V = SkillView;

    closed spec fn view(&self) -> SkillView {
        SkillView {
            committed: text_files(self.committed@),
            learned: text_files(self.learned@),
            pending: text_files(self.pending@),
        }
    }
}

impl SkillStore {
    /// The path of a directory.
    pub closed spec fn dir_view(self, dir: SkillDir) -> Seq<char> {
        match dir {
            SkillDir::Committed => self.committed_dir@,
            SkillDir::Learned => self.learned_dir@,
            SkillDir::Pending => self.pending_dir@,
        }
    }

    /// The skills under `config_dir` and `state_dir`, with no file yet.
    pub fn new(config_dir: &str, state_dir: &str) -> (r: Self)
        ensures
            r@ == (SkillView {
                committed: Map::empty(),
                learned: Map::empty(),
                pending: Map::empty(),
            }),
            r.dir_view(SkillDir::Committed) == paths::join_spec(config_dir@, "skills"@),
            r.dir_view(SkillDir::Learned) == paths::join_spec(
                paths::join_spec(state_dir@, "skills"@),
                "active"@,
            ),
            r.dir_view(SkillDir::Pending) == paths::join_spec(
                paths::join_spec(state_dir@, "skills"@),
                "pending"@,
            ),
    {
        let base = paths::join_path(state_dir, "skills");
        SkillStore {
            committed_dir: paths::join_path(config_dir, "skills"),
            learned_dir: paths::join_path(base.as_str(), "active"),
            pending_dir: paths::join_path(base.as_str(), "pending"),
            committed: NameMap::new(),
            learned: NameMap::new(),
            pending: NameMap::new(),
        }
    }

    /// Where a directory stands.
    pub fn dir(&self, dir: SkillDir) -> (r: &str)
        ensures
            r@ == self.dir_view(dir),
    {
        match dir {
            SkillDir::Committed => self.committed_dir.as_str(),
            SkillDir::Learned => self.learned_dir.as_str(),
            SkillDir::Pending => self.pending_dir.as_str(),
        }
    }

    /// Takes over a file that stands in a directory.
    pub fn restore(&mut self, dir: SkillDir, file: String, content: String)
        ensures
            forall|d: SkillDir| final(self).dir_view(d) == old(self).dir_view(d),
            final(self)@ == (match dir {
                SkillDir::Committed => SkillView {
                    committed: old(self)@.committed.insert(file@, content@),
                    ..old(self)@
                },
                SkillDir::Learned => SkillView {
                    learned: old(self)@.learned.insert(file@, content@),
                    ..old(self)@
                },
                SkillDir::Pending => SkillView {
                    pending: old(self)@.pending.insert(file@, content@),
                    ..old(self)@
                },
            }),
    {
        match dir {
            SkillDir::Committed => self.committed.insert(file, content),
            SkillDir::Learned => self.learned.insert(file, content),
            SkillDir::Pending => self.pending.insert(file, content),
        }
        assert(self@ =~= (match dir {
            SkillDir::Committed => SkillView {
                committed: old(self)@.committed.insert(file@, content@),
                ..old(self)@
            },
            SkillDir::Learned => SkillView {
                learned: old(self)@.learned.insert(file@, content@),
                ..old(self)@
            },
            SkillDir::Pending => SkillView {
                pending: old(self)@.pending.insert(file@, content@),
                ..old(self)@
            },
        }));
    }

    /// The file of a skill in its directory.
    pub fn file_name(name: &str) -> (r: String)
        ensures
            r@ == skill_file(name@),
    {
        file_of(name)
    }

    /// The name and description of every active skill, as a map.
    fn index_map(&self) -> (r: NameMap<String>)
        ensures
            text_files(r@) == self@.index(),
    {
        let mut m: NameMap<String> = NameMap::new();
        add_descriptions(&mut m, &self.committed);
        let ghost first = m@;
        add_descriptions(&mut m, &self.learned);
        proof {
            let want = self@.index();
            let got = text_files(m@);
            assert forall|k: Seq<char>| #[trigger] got.contains_key(k) == want.contains_key(k) by {
                assert(m@.contains_key(k) == (first.contains_key(k) || holds(
                    text_files(self.learned@),
                    k,
                )));
                assert(first.contains_key(k) == holds(text_files(self.committed@), k));
            }
            assert forall|k: Seq<char>| got.contains_key(k) implies #[trigger] got[k] == want[k] by {
                assert(got[k] == m@[k]@);
                if !holds(text_files(self.learned@), k) {
                    assert(first.contains_key(k));
                    assert(first[k]@ == description(text_files(self.committed@)[k + ".md"@]));
                }
                assert(want.contains_key(k));
            }
            assert(got =~= want);
        }
        m
    }

    /// `(name, description)` for every active skill (learned overrides committed), in the order of
    /// the names.
    pub fn index(&self) -> (r: Vec<(String, String)>)
        ensures
            names::keys_ordered(r@),
            text_files(names::mapping(r@)) == self@.index(),
    {
        self.index_map().pairs()
    }

    /// Full body of an active skill by name (learned overrides committed).
    pub fn read(&self, name: &str) -> (r: Option<String>)
        ensures
            text::opt_string(r) == self@.body(name@),
    {
        let f = file_of(name);
        match self.learned.get(f.as_str()) {
            Some(s) => Some(s.clone()),
            None => match self.committed.get(f.as_str()) {
                Some(s) => Some(s.clone()),
                None => None,
            },
        }
    }

    /// Draft a skill into the pending area (awaiting approval).
    pub fn write_pending(&mut self, name: &str, content: &str) -> (r: Result<(), SkillError>)
        ensures
            forall|d: SkillDir| final(self).dir_view(d) == old(self).dir_view(d),
            match r {
                Ok(_) => sanitized(name@).len() > 0 && final(self)@ == old(self)@.drafted(
                    name@,
                    content@,
                ),
                Err(e) => sanitized(name@).len() == 0 && e == SkillError::InvalidName
                    && final(self)@ == old(self)@,
            },
    {
        let safe = sanitize(name);
        if text::chars_of(safe.as_str()).len() == 0 {
            return Err(SkillError::InvalidName);
        }
        let f = file_of(name);
        self.pending.insert(f, content.to_owned());
        assert(self@ =~= old(self)@.drafted(name@, content@));
        Ok(())
    }

    /// Promote a pending skill to the learned (active) set.
    pub fn approve(&mut self, name: &str) -> (r: Result<(), SkillError>)
        ensures
            forall|d: SkillDir| final(self).dir_view(d) == old(self).dir_view(d),
            match r {
                Ok(_) => old(self)@.pending.contains_key(skill_file(name@)) && final(self)@ == old(
                    self,
                )@.approved(name@),
                Err(e) => {
                    &&& !old(self)@.pending.contains_key(skill_file(name@))
                    &&& e matches SkillError::NotPending(n) && n@ == name@
                    &&& final(self)@ == old(self)@
                },
            },
    {
        let f = file_of(name);
        match self.pending.remove(f.as_str()) {
            None => {
                assert(self@ =~= old(self)@);
                Err(SkillError::NotPending(name.to_owned()))
            },
            Some(content) => {
                self.learned.insert(f, content);
                assert(self@ =~= old(self)@.approved(name@));
                Ok(())
            },
        }
    }

    /// Delete a learned or pending skill (committed skills are read-only). Says whether there was
    /// one.
    pub fn forget(&mut self, name: &str) -> (r: bool)
        ensures
            forall|d: SkillDir| final(self).dir_view(d) == old(self).dir_view(d),
            final(self)@ == old(self)@.forgotten(name@),
            r == (old(self)@.learned.contains_key(skill_file(name@))
                || old(self)@.pending.contains_key(skill_file(name@))),
    {
        let f = file_of(name);
        let learned = self.learned.remove(f.as_str()).is_some();
        let pending = self.pending.remove(f.as_str()).is_some();
        assert(self@ =~= old(self)@.forgotten(name@));
        learned || pending
    }

    /// `(active_names, pending_names)`, each in order.
    pub fn list(&self) -> (r: (Vec<String>, Vec<String>))
        ensures
            text::views(r.0@) == names::key_list(self@.index().dom()),
            text::views(r.1@) == names::key_list(self@.pending_names()),
    {
        let active = self.index_map();
        let mut waiting: NameMap<String> = NameMap::new();
        add_descriptions(&mut waiting, &self.pending);
        proof {
            assert(active@.dom() =~= text_files(active@).dom());
            assert(waiting@.dom() =~= self@.pending_names()) by {
                assert forall|k: Seq<char>| #[trigger]
                    waiting@.dom().contains(k) == self@.pending_names().contains(k) by {
                    assert(waiting@.contains_key(k) == holds(text_files(self.pending@), k));
                }
            }
        }
        (active.keys(), waiting.keys())
    }
}

/// The description of a skill is its first line that is neither blank nor a heading, whatever blank
/// lines and headings stand before it and whatever stands behind it, without a quote mark in front,
/// up to 120 characters.
#[verifier::rlimit(40)]
pub proof fn law_description_is_the_first_line(
    before: Seq<Seq<char>>,
    line: Seq<char>,
    after: Seq<Seq<char>>,
)
    requires
        forall|i: int|
            0 <= i < before.len() ==> !(#[trigger] before[i]).contains('\n') && (text::trim(
                before[i],
            ).len() == 0 || text::trim(before[i])[0] == '#'),
        forall|i: int| 0 <= i < after.len() ==> !(#[trigger] after[i]).contains('\n'),
        line.len() > 0,
        !line.contains('\n'),
        !text::is_space(line[0]) && !text::is_space(line.last()),
        line[0] != '#' && line[0] != '>',
    ensures
        description(text::join(before + seq![line] + after, seq!['\n'])) == text::first(line, 120),
        description(text::join(before + seq!["> "@ + line] + after, seq!['\n'])) == text::first(
            line,
            120,
        ),
        before.len() > 0 ==> description(text::join(before, seq!['\n'])).len() == 0,
{
    reveal_strlit("> ");
    let plain = before + seq![line] + after;
    assert forall|i: int| 0 <= i < plain.len() implies !(#[trigger] plain[i]).contains('\n') by {
        if i < before.len() {
            assert(plain[i] == before[i]);
        } else if i > before.len() {
            assert(plain[i] == after[i - before.len() - 1]);
        }
    }
    text::law_splitting_undoes_joining(plain, '\n');
    text::lemma_trim_fixed(line, Class::Space);
    lemma_first_line(before, line, after);
    assert(text::trim_front(line, Class::Only('>')) == line);
    let marked = "> "@ + line;
    assert(marked[0] == '>');
    assert(marked.last() == line.last());
    text::lemma_trim_fixed(marked, Class::Space);
    let quoted = before + seq![marked] + after;
    assert(!marked.contains('\n')) by {
        if marked.contains('\n') {
            let j = choose|j: int| 0 <= j < marked.len() && marked[j] == '\n';
            if j >= 2 {
                assert(line[j - 2] == '\n');
                assert(line.contains('\n'));
            }
        }
    }
    assert forall|i: int| 0 <= i < quoted.len() implies !(#[trigger] quoted[i]).contains('\n') by {
        if i < before.len() {
            assert(quoted[i] == before[i]);
        } else if i > before.len() {
            assert(quoted[i] == after[i - before.len() - 1]);
        }
    }
    text::law_splitting_undoes_joining(quoted, '\n');
    lemma_first_line(before, marked, after);
    let bare = seq![' '] + line;
    assert(marked.drop_first() =~= bare);
    assert(bare[0] == ' ');
    assert(text::trim_front(bare, Class::Only('>')) == bare);
    assert(text::trim_front(marked, Class::Only('>')) == bare);
    text::lemma_trim_skips_space(' ', line);
    if before.len() > 0 {
        text::law_splitting_undoes_joining(before, '\n');
        lemma_no_line(before);
    }
}

/// Blank lines and headings are passed over.
proof fn lemma_first_line(before: Seq<Seq<char>>, line: Seq<char>, after: Seq<Seq<char>>)
    requires
        forall|i: int|
            0 <= i < before.len() ==> (text::trim(#[trigger] before[i]).len() == 0 || text::trim(
                before[i],
            )[0] == '#'),
        text::trim(line).len() > 0,
        text::trim(line)[0] != '#',
    ensures
        first_text_line(before + seq![line] + after) == Some(text::trim(line)),
    decreases before.len(),
{
    let all = before + seq![line] + after;
    if before.len() == 0 {
        assert(all[0] == line);
    } else {
        assert(all[0] == before[0]);
        let rest = before.drop_first();
        assert forall|i: int| 0 <= i < rest.len() implies (text::trim(#[trigger] rest[i]).len() == 0
            || text::trim(rest[i])[0] == '#') by {
            assert(rest[i] == before[i + 1]);
        }
        lemma_first_line(rest, line, after);
        assert(all.drop_first() =~= rest + seq![line] + after);
    }
}

/// Where there is nothing but blank lines and headings no line is found.
proof fn lemma_no_line(lines: Seq<Seq<char>>)
    requires
        forall|i: int|
            0 <= i < lines.len() ==> (text::trim(#[trigger] lines[i]).len() == 0 || text::trim(
                lines[i],
            )[0] == '#'),
    ensures
        first_text_line(lines) is None,
    decreases lines.len(),
{
    if lines.len() > 0 {
        let rest = lines.drop_first();
        assert forall|i: int| 0 <= i < rest.len() implies (text::trim(#[trigger] rest[i]).len() == 0
            || text::trim(rest[i])[0] == '#') by {
            assert(rest[i] == lines[i + 1]);
        }
        lemma_no_line(rest);
    }
}

/// Every committed and every learned skill is in the index, described by its own text; of two of one
/// name it is the learned one. Nothing else is in it.
pub proof fn law_index_has_every_skill(v: SkillView, name: Seq<char>)
    requires
        name.len() > 0,
    ensures
        v.learned.contains_key(name + ".md"@) ==> v.index().contains_key(name) && v.index()[name]
            == description(v.learned[name + ".md"@]),
        !v.learned.contains_key(name + ".md"@) && v.committed.contains_key(name + ".md"@)
            ==> v.index().contains_key(name) && v.index()[name] == description(
            v.committed[name + ".md"@],
        ),
        !v.learned.contains_key(name + ".md"@) && !v.committed.contains_key(name + ".md"@)
            ==> !v.index().contains_key(name),
        v.pending_names().contains(name) == v.pending.contains_key(name + ".md"@),
        !v.index().contains_key(Seq::empty()),
{
}

/// A skill is read from its file: the learned one where there is one, else the committed one.
pub proof fn law_skills_are_read_from_their_file(v: SkillView, name: Seq<char>)
    requires
        name.len() > 0,
        forall|i: int|
            0 <= i < name.len() ==> text::is_alnum(#[trigger] name[i]) || name[i] == '-' || name[i]
                == '_',
        name[0] != '_' && name.last() != '_',
    ensures
        skill_file(name) == name + ".md"@,
        v.learned.contains_key(name + ".md"@) ==> v.body(name) == Some(v.learned[name + ".md"@]),
        !v.learned.contains_key(name + ".md"@) && v.committed.contains_key(name + ".md"@)
            ==> v.body(name) == Some(v.committed[name + ".md"@]),
        !v.learned.contains_key(name + ".md"@) && !v.committed.contains_key(name + ".md"@)
            ==> v.body(name) is None,
{
    assert forall|i: int| 0 <= i < name.len() implies skill_char(#[trigger] name[i]) == name[i]
        && !text::is_space(name[i]) by {}
    assert(name[name.len() - 1] == name.last());
    text::lemma_trim_fixed(name, Class::Space);
    assert(name.map_values(|c: char| skill_char(c)) =~= name);
    text::lemma_trim_fixed(name, Class::Only('_'));
}

/// Drafting, approving and forgetting one skill leave every other as it was.
pub proof fn law_other_skills_stay(
    v: SkillView,
    name: Seq<char>,
    other: Seq<char>,
    content: Seq<char>,
)
    requires
        skill_file(name) != skill_file(other),
    ensures
        v.drafted(name, content).body(other) == v.body(other),
        v.approved(name).body(other) == v.body(other),
        v.forgotten(name).body(other) == v.body(other),
        v.drafted(name, content).pending.contains_key(skill_file(other)) == v.pending.contains_key(
            skill_file(other),
        ),
        v.approved(name).pending.contains_key(skill_file(other)) == v.pending.contains_key(
            skill_file(other),
        ),
        v.forgotten(name).pending.contains_key(skill_file(other)) == v.pending.contains_key(
            skill_file(other),
        ),
        v.drafted(name, content).pending[skill_file(name)] == content,
        v.approved(name).learned[skill_file(name)] == v.pending[skill_file(name)],
        v.approved(name).committed == v.committed,
{
}

/// A name that starts and ends with a letter, a digit or `-` keeps its length; only what can not stand
/// in a name is replaced in it. White space around it does not count.
pub proof fn law_sanitizing_replaces_characters(
    a: Seq<char>,
    name: Seq<char>,
    b: Seq<char>,
    i: int,
)
    requires
        forall|k: int| 0 <= k < a.len() ==> text::is_space(#[trigger] a[k]),
        forall|k: int| 0 <= k < b.len() ==> text::is_space(#[trigger] b[k]),
        name.len() > 0,
        !text::is_space(name[0]) && !text::is_space(name.last()),
        text::is_alnum(name[0]) || name[0] == '-',
        text::is_alnum(name.last()) || name.last() == '-',
        name[0] != '_' && name.last() != '_',
        0 <= i < name.len(),
    ensures
        sanitized(a + name + b).len() == name.len(),
        text::is_alnum(name[i]) || name[i] == '-' || name[i] == '_' ==> sanitized(a + name + b)[i]
            == name[i],
        !(text::is_alnum(name[i]) || name[i] == '-' || name[i] == '_') ==> sanitized(
            a + name + b,
        )[i] == '_',
{
    let none = Seq::<char>::empty();
    text::law_trim_leaves_the_middle(a, name, b, Class::Space);
    let mapped = name.map_values(|c: char| skill_char(c));
    text::law_trim_leaves_the_middle(none, mapped, none, Class::Only('_'));
    assert(none + mapped + none =~= mapped);
}

} // verus!
