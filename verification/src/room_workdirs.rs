//! The working directory that each room's agentic backend runs in.

use crate::json;
use crate::names::NameMap;
use crate::paths;
use crate::room_profiles;
use crate::text;
use vstd::prelude::*;
use vstd::string::*;

verus! {

/// Per-room workdir selections (set via `set_workdir`), kept as a JSON file.
pub struct RoomWorkdirStore {
    path: String,
    dirs: NameMap<String>,
}

impl View for RoomWorkdirStore {
    type V = Map<Seq<char>, Seq<char>>;

    closed spec fn view(&self) -> Map<Seq<char>, Seq<char>> {
        json::text_map(self.dirs@)
    }
}

impl RoomWorkdirStore {
    /// The path of the file.
    pub closed spec fn path_view(self) -> Seq<char> {
        self.path@
    }

    /// The selections that the file at `path` holds: none where it is missing or invalid.
    pub fn load(path: String, file: Option<&str>) -> (r: Self)
        ensures
            r.path_view() == path@,
            r@ == room_profiles::stored_map(text::opt_str(file)),
    {
        RoomWorkdirStore { path, dirs: room_profiles::read_map(file) }
    }

    /// Where the file stands.
    pub fn path(&self) -> (r: &str)
        ensures
            r@ == self.path_view(),
    {
        self.path.as_str()
    }

    /// The workdir of a room.
    pub fn get(&self, room_id: &str) -> (r: Option<String>)
        ensures
            match r {
                Some(d) => self@.contains_key(room_id@) && d@ == self@[room_id@],
                None => !self@.contains_key(room_id@),
            },
    {
        match self.dirs.get(room_id) {
            Some(d) => Some(d.clone()),
            None => None,
        }
    }

    /// Selects the workdir of a room. Gives back the text of the file, which a later load reads
    /// as the selections.
    pub fn set(&mut self, room_id: &str, dir: &str) -> (r: String)
        ensures
            final(self).path_view() == old(self).path_view(),
            final(self)@ == old(self)@.insert(room_id@, dir@),
            r@ == json::string_map_json(final(self)@),
            room_profiles::stored_map(Some(r@)) == final(self)@,
    {
        self.dirs.insert(room_id.to_owned(), dir.to_owned());
        assert(self@ == old(self)@.insert(room_id@, dir@));
        let pairs = self.dirs.pairs();
        json::render_string_map(pairs.as_slice())
    }
}

/// The workdir of a turn: the room's selection, else the configured default with its `~` expanded.
pub open spec fn turn_workdir(
    dirs: Map<Seq<char>, Seq<char>>,
    room_id: Seq<char>,
    default_workdir: Option<Seq<char>>,
    home: Option<Seq<char>>,
) -> Option<Seq<char>> {
    if dirs.contains_key(room_id) {
        Some(dirs[room_id])
    } else {
        match default_workdir {
            Some(d) => Some(paths::expand_spec(home, d)),
            None => None,
        }
    }
}

/// Resolves the agentic workdir for a room: the `set_workdir` selection, else the configured
/// default.
pub fn resolve_workdir(
    dirs: &RoomWorkdirStore,
    room_id: &str,
    default_workdir: Option<&str>,
    home: Option<&str>,
) -> (r: Option<String>)
    ensures
        text::opt_string(r) == turn_workdir(
            dirs@,
            room_id@,
            text::opt_str(default_workdir),
            text::opt_str(home),
        ),
{
    match dirs.get(room_id) {
        Some(d) => Some(d),
        None => match default_workdir {
            Some(d) => Some(paths::expand_tilde(home, d)),
            None => None,
        },
    }
}

/// A room works where it was told to; else in the configured directory, a `~` in front of it read as
/// the home directory; else nowhere in particular.
pub proof fn law_rooms_work_where_they_were_told(
    dirs: Map<Seq<char>, Seq<char>>,
    room_id: Seq<char>,
    chosen: Seq<char>,
    rest: Seq<char>,
    other: Seq<char>,
    home: Seq<char>,
)
    requires
        home.len() > 0 && home.last() != '/',
        rest.len() > 0 && rest[0] != '/',
        other.len() > 0 && other[0] != '~',
    ensures
        turn_workdir(dirs.insert(room_id, chosen), room_id, Some(other), Some(home)) == Some(
            chosen,
        ),
        turn_workdir(dirs.remove(room_id), room_id, Some(other), Some(home)) == Some(other),
        turn_workdir(dirs.remove(room_id), room_id, Some("~/"@ + rest), Some(home)) == Some(
            home + seq!['/'] + rest,
        ),
        turn_workdir(dirs.remove(room_id), room_id, None, Some(home)) is None,
{
    paths::law_home_is_read(home, rest, other);
}

} // verus!
