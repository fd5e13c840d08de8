//! Runtime per-room LLM profile overrides, kept as a JSON file.

use crate::json;
use crate::names::NameMap;
use crate::text;
use vstd::prelude::*;
use vstd::string::*;

verus! {

/// The map that a file holds: empty where the file is missing or invalid.
pub open spec fn stored_map(file: Option<Seq<char>>) -> Map<Seq<char>, Seq<char>> {
    match file {
        Some(t) => match json::string_map(t) {
            Some(m) => m,
            None => Map::empty(),
        },
        None => Map::empty(),
    }
}

/// The map that a file holds, or an empty one where the file is missing or invalid.
pub fn read_map(file: Option<&str>) -> (r: NameMap<String>)
    ensures
        json::text_map(r@) == stored_map(text::opt_str(file)),
{
    if let Some(t) = file {
        if let Some(pairs) = json::parse_string_map(t) {
            return NameMap::from_pairs(pairs.as_slice());
        }
    }
    let r: NameMap<String> = NameMap::new();
    assert(json::text_map(r@) == Map::<Seq<char>, Seq<char>>::empty());
    r
}

/// Persists runtime per-room LLM profile overrides (set via `/model`) to a single
/// JSON file so they survive restarts. Keyed by room id → profile name.
pub struct RoomProfileStore {
    path: String,
    file: Option<String>,
}

impl RoomProfileStore {
    /// The path of the file.
    pub closed spec fn path_view(self) -> Seq<char> {
        self.path@
    }

    /// The text of the file, where there is one.
    pub closed spec fn file_view(self) -> Option<Seq<char>> {
        match self.file {
            Some(t) => Some(t@),
            None => None,
        }
    }

    /// The store at `path`, with no file yet.
    pub fn new(path: String) -> (r: Self)
        ensures
            r.path_view() == path@,
            r.file_view() is None,
    {
        RoomProfileStore { path, file: None }
    }

    /// Where the file stands.
    pub fn path(&self) -> (r: &str)
        ensures
            r@ == self.path_view(),
    {
        self.path.as_str()
    }

    /// The text of the file, where there is one.
    pub fn file(&self) -> (r: Option<&str>)
        ensures
            text::opt_str(r) == self.file_view(),
    {
        match &self.file {
            Some(t) => Some(t.as_str()),
            None => None,
        }
    }

    /// Takes over the text of a file that is there already.
    pub fn restore(&mut self, content: String)
        ensures
            final(self).path_view() == old(self).path_view(),
            final(self).file_view() == Some(content@),
    {
        self.file = Some(content);
    }

    /// Load the persisted overrides, or an empty map if the file is missing/invalid.
    pub fn load(&self) -> (r: NameMap<String>)
        ensures
            json::text_map(r@) == stored_map(self.file_view()),
    {
        read_map(self.file())
    }

    /// Persist the full map, overwriting the file. A later load gives the map back.
    pub fn save(&mut self, map: &NameMap<String>)
        ensures
            final(self).path_view() == old(self).path_view(),
            final(self).file_view() == Some(json::string_map_json(json::text_map(map@))),
            stored_map(final(self).file_view()) == json::text_map(map@),
    {
        let pairs = map.pairs();
        let rendered = json::render_string_map(pairs.as_slice());
        self.file = Some(rendered);
    }
}

/// A file that holds a map gives that map; a missing or unreadable one gives none.
pub proof fn law_stored_map_is_what_the_file_holds(file: Seq<char>)
    ensures
        json::string_map(file) is Some ==> stored_map(Some(file)) == json::string_map(file)->Some_0,
        json::string_map(file) is None ==> stored_map(Some(file)) == Map::<
            Seq<char>,
            Seq<char>,
        >::empty(),
        stored_map(None) == Map::<Seq<char>, Seq<char>>::empty(),
{
}

} // verus!
