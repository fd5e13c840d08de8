//! Config that can be swapped at runtime without restarting the bot, and how a room resolves to a
//! profile and a model.

use crate::config::{CommsConfig, CommsMode, CompactionConfig, Config, ProfileConfig, RoomConfig};
use crate::config;
use crate::llm::ProfileLlm;
use crate::names;
use crate::names::NameMap;
use crate::text;
use vstd::prelude::*;
use vstd::string::*;

verus! {

/// Config that can be swapped at runtime on SIGHUP without restarting the bot.
pub struct ReloadableState {
    /// LLM (primary + fallbacks) per profile name (e.g. "chat", "reason", "code").
    pub llms: NameMap<ProfileLlm>,
    pub system_prompt: String,
    pub room_configs: NameMap<RoomConfig>,
    /// Runtime per-room profile overrides set via `/model`, keyed by room id.
    pub room_profiles: NameMap<String>,
    /// Global comms budgets (sync_budget_ms, edit_debounce_ms, …).
    pub comms: CommsConfig,
    /// Per-profile comms mode (sync / async / auto), keyed by profile name.
    pub profile_comms: NameMap<CommsMode>,
    /// Global operating-instructions file, layered into every system prompt.
    pub operating_file: Option<String>,
    /// Whether durable-memory injection is enabled.
    pub memory_enabled: bool,
    /// Memory self-compaction caps (tokens).
    pub memory_max_global_tokens: usize,
    pub memory_max_room_tokens: usize,
    /// Size-triggered history compaction settings.
    pub compaction: CompactionConfig,
}

/// The profile that a room asks for: the override, else the room's setting, else `chat`.
pub open spec fn profile_name(
    overrides: Map<Seq<char>, String>,
    rooms: Map<Seq<char>, RoomConfig>,
    room_id: Seq<char>,
) -> Seq<char> {
    if overrides.contains_key(room_id) {
        overrides[room_id]@
    } else if rooms.contains_key(room_id) && rooms[room_id].profile is Some {
        rooms[room_id].profile->Some_0@
    } else {
        "chat"@
    }
}

/// The profile that a room gets: the one it asks for where that was built, else `chat`.
pub open spec fn resolved(asked: Seq<char>, llms: Map<Seq<char>, ProfileLlm>) -> Seq<char> {
    if llms.contains_key(asked) {
        asked
    } else {
        "chat"@
    }
}

/// `kept` holds the overrides that name a built profile, and no others.
pub open spec fn is_kept(
    kept: Map<Seq<char>, String>,
    overrides: Map<Seq<char>, String>,
    llms: Map<Seq<char>, ProfileLlm>,
) -> bool {
    &&& forall|k: Seq<char>| #[trigger]
        kept.contains_key(k) <==> overrides.contains_key(k) && llms.contains_key(overrides[k]@)
    &&& forall|k: Seq<char>| kept.contains_key(k) ==> #[trigger] kept[k] == overrides[k]
}

/// The overrides that name a profile which was built.
pub fn keep_built(overrides: &NameMap<String>, llms: &NameMap<ProfileLlm>) -> (r: NameMap<String>)
    ensures
        is_kept(r@, overrides@, llms@),
{
    let mut out: NameMap<String> = NameMap::new();
    let keys = overrides.keys();
    let ghost ks = text::views(keys@);
    let mut i: usize = 0;
    while i < keys.len()
        invariant
            i <= keys.len(),
            ks == text::views(keys@),
            names::lists_keys(ks, overrides@.dom()),
            forall|k: Seq<char>| #[trigger]
                out@.contains_key(k) <==> ks.take(i as int).contains(k) && llms@.contains_key(
                    overrides@[k]@,
                ),
            forall|k: Seq<char>| out@.contains_key(k) ==> #[trigger] out@[k] == overrides@[k],
        decreases keys.len() - i,
    {
        let key = &keys[i];
        let ghost then = out@;
        assert(ks[i as int] == key@);
        assert(ks.contains(key@));
        assert(overrides@.dom().contains(key@));
        assert(ks.take(i + 1) == ks.take(i as int).push(key@));
        proof {
            names::lemma_push_contains(ks.take(i as int), key@);
        }
        if let Some(profile) = overrides.get(key.as_str()) {
            if llms.contains_key(profile.as_str()) {
                out.insert(key.clone(), profile.clone());
            }
        }
        i += 1;
    }
    proof {
        assert(ks.take(ks.len() as int) == ks);
        assert forall|k: Seq<char>| #[trigger]
            out@.contains_key(k) <==> overrides@.contains_key(k) && llms@.contains_key(
                overrides@[k]@,
            ) by {
            assert(overrides@.dom().contains(k) <==> ks.contains(k));
        }
    }
    out
}

/// `modes` gives every profile its comms mode.
pub open spec fn is_modes(
    modes: Map<Seq<char>, CommsMode>,
    profiles: Map<Seq<char>, ProfileConfig>,
) -> bool {
    &&& forall|k: Seq<char>| #[trigger] modes.contains_key(k) <==> profiles.contains_key(k)
    &&& forall|k: Seq<char>| modes.contains_key(k) ==> #[trigger] modes[k] == profiles[k].comms
}

/// The comms mode of every profile.
pub fn modes_of(profiles: &NameMap<ProfileConfig>) -> (r: NameMap<CommsMode>)
    ensures
        is_modes(r@, profiles@),
{
    let mut out: NameMap<CommsMode> = NameMap::new();
    let keys = profiles.keys();
    let ghost ks = text::views(keys@);
    let mut i: usize = 0;
    while i < keys.len()
        invariant
            i <= keys.len(),
            ks == text::views(keys@),
            names::lists_keys(ks, profiles@.dom()),
            forall|k: Seq<char>| #[trigger] out@.contains_key(k) <==> ks.take(i as int).contains(k),
            forall|k: Seq<char>|
                out@.contains_key(k) ==> #[trigger] out@[k] == profiles@[k].comms,
        decreases keys.len() - i,
    {
        let key = &keys[i];
        assert(ks[i as int] == key@);
        assert(ks.contains(key@));
        assert(profiles@.dom().contains(key@));
        assert(ks.take(i + 1) == ks.take(i as int).push(key@));
        proof {
            names::lemma_push_contains(ks.take(i as int), key@);
        }
        if let Some(p) = profiles.get(key.as_str()) {
            out.insert(key.clone(), p.comms);
        }
        i += 1;
    }
    proof {
        assert(ks.take(ks.len() as int) == ks);
        assert forall|k: Seq<char>| #[trigger]
            out@.contains_key(k) <==> profiles@.contains_key(k) by {
            assert(profiles@.dom().contains(k) <==> ks.contains(k));
        }
    }
    out
}

/// `st` is what the config says, with the overrides that still name a built profile.
pub open spec fn is_loaded(
    st: ReloadableState,
    cfg: Config,
    llms: NameMap<ProfileLlm>,
    overrides: Map<Seq<char>, String>,
) -> bool {
    &&& st.llms == llms
    &&& st.system_prompt == cfg.system_prompt
    &&& st.room_configs == cfg.rooms
    &&& st.comms == cfg.comms
    &&& is_modes(st.profile_comms@, cfg.profiles@)
    &&& st.operating_file == cfg.context.operating_file
    &&& st.memory_enabled == cfg.memory.enabled
    &&& st.memory_max_global_tokens == cfg.memory.max_global_tokens
    &&& st.memory_max_room_tokens == cfg.memory.max_room_tokens
    &&& st.compaction == cfg.compaction
    &&& is_kept(st.room_profiles@, overrides, llms@)
}

/// Why a config was not taken over.
#[derive(Debug)]
pub enum ReloadError {
    /// It could not be read; what was wrong with it.
    Load(String),
    /// Its model chains could not be built; what was wrong with them.
    Build(String),
}

impl ReloadError {
    /// What is said of the failure.
    pub open spec fn text(self) -> Seq<char> {
        match self {
            ReloadError::Load(e) => "config reload failed (keeping current config): "@ + e@,
            ReloadError::Build(e) => "config reload failed building LLMs (keeping current config): "@
                + e@,
        }
    }

    /// What is said of the failure.
    pub fn message(&self) -> (r: String)
        ensures
            r@ == self.text(),
            self matches ReloadError::Load(e) ==> r@
                == "config reload failed (keeping current config): "@ + e@,
            self matches ReloadError::Build(e) ==> r@
                == "config reload failed building LLMs (keeping current config): "@ + e@,
    {
        match self {
            ReloadError::Load(e) => {
                let mut out = "config reload failed (keeping current config): ".to_owned();
                out.append(e.as_str());
                out
            },
            ReloadError::Build(e) => {
                let mut out = "config reload failed building LLMs (keeping current config): ".to_owned();
                out.append(e.as_str());
                out
            },
        }
    }
}

impl ReloadableState {
    /// The state that the config describes. Overrides for profiles that were not built are dropped.
    pub fn from_config(
        cfg: Config,
        llms: NameMap<ProfileLlm>,
        overrides: &NameMap<String>,
    ) -> (r: Self)
        ensures
            is_loaded(r, cfg, llms, overrides@),
    {
        let room_profiles = keep_built(overrides, &llms);
        let profile_comms = modes_of(&cfg.profiles);
        ReloadableState {
            llms,
            system_prompt: cfg.system_prompt,
            room_configs: cfg.rooms,
            room_profiles,
            comms: cfg.comms,
            profile_comms,
            operating_file: cfg.context.operating_file,
            memory_enabled: cfg.memory.enabled,
            memory_max_global_tokens: cfg.memory.max_global_tokens,
            memory_max_room_tokens: cfg.memory.max_room_tokens,
            compaction: cfg.compaction,
        }
    }

    /// Takes over a newly read config. Overrides for profiles that no longer build are dropped.
    pub fn reload(&mut self, cfg: Config, llms: NameMap<ProfileLlm>)
        ensures
            is_loaded(*final(self), cfg, llms, old(self).room_profiles@),
    {
        let next = ReloadableState::from_config(cfg, llms, &self.room_profiles);
        *self = next;
    }

    /// Takes over a config that was read anew, with the model chains that it describes. Fail-safe: a
    /// config that could not be read, or whose chains do not build, leaves the running one in place.
    pub fn reload_from(
        &mut self,
        loaded: Result<Config, String>,
        env: &NameMap<String>,
        home: Option<&str>,
    ) -> (r: Result<(), ReloadError>)
        ensures
            match r {
                Ok(_) => loaded matches Ok(cfg) && cfg.all_built(final(self).llms@, env, home)
                    && is_loaded(*final(self), cfg, final(self).llms, old(self).room_profiles@),
                Err(ReloadError::Load(e)) => loaded matches Err(f) && e@ == f@ && *final(self)
                    == *old(self),
                Err(ReloadError::Build(e)) => loaded matches Ok(cfg) && !cfg.builds("chat"@) && e@
                    == "the 'chat' profile is required but failed to build"@ && *final(self)
                    == *old(self),
            },
    {
        let cfg = match loaded {
            Ok(c) => c,
            Err(e) => {
                return Err(ReloadError::Load(e));
            },
        };
        match cfg.build_all_llms(env, home) {
            Ok(llms) => {
                self.reload(cfg, llms);
                Ok(())
            },
            Err(e) => Err(ReloadError::Build(e)),
        }
    }

    /// The configured profile name for a room: runtime `/model` override, else
    /// the room's `profile` config, else "chat".
    pub fn profile_name_for_room(&self, room_id: &str) -> (r: String)
        ensures
            r@ == profile_name(self.room_profiles@, self.room_configs@, room_id@),
    {
        if let Some(p) = self.room_profiles.get(room_id) {
            return p.clone();
        }
        if let Some(room) = self.room_configs.get(room_id) {
            if let Some(p) = &room.profile {
                return p.clone();
            }
        }
        "chat".to_owned()
    }

    /// Comms mode for a profile (sync / async / auto); defaults to sync for an
    /// unknown profile.
    pub fn comms_mode_for_profile(&self, profile: &str) -> (r: CommsMode)
        ensures
            r == (if self.profile_comms@.contains_key(profile@) {
                self.profile_comms@[profile@]
            } else {
                CommsMode::Sync
            }),
    {
        match self.profile_comms.get(profile) {
            Some(m) => *m,
            None => CommsMode::Sync,
        }
    }

    /// Resolve the LLM for a room. Returns the profile LLM and the profile name
    /// actually used (falls back to "chat" if the requested profile has no built
    /// client).
    pub fn llm_for_room(&self, room_id: &str) -> (r: (&ProfileLlm, String))
        requires
            self.llms@.contains_key("chat"@),
        ensures
            r.1@ == self.profile_in_use(room_id@),
            self.llms@.contains_key(r.1@),
            *r.0 == self.llms@[r.1@],
    {
        let requested = self.profile_name_for_room(room_id);
        match self.llms.get(requested.as_str()) {
            Some(c) => (c, requested),
            None => match self.llms.get("chat") {
                Some(c) => (c, "chat".to_owned()),
                None => {
                    assert(false);
                    vstd::pervasive::unreached()
                },
            },
        }
    }

    /// The profile that a room gets.
    pub open spec fn profile_in_use(self, room_id: Seq<char>) -> Seq<char> {
        resolved(profile_name(self.room_profiles@, self.room_configs@, room_id), self.llms@)
    }

    /// Whether the bot has to be mentioned in a room to answer: yes, unless the room says otherwise.
    pub fn mention_required(&self, room_id: &str) -> (r: bool)
        ensures
            r == (if self.room_configs@.contains_key(room_id@) {
                self.room_configs@[room_id@].require_mention
            } else {
                true
            }),
    {
        match self.room_configs.get(room_id) {
            Some(room) => room.require_mention,
            None => true,
        }
    }

    /// The persona of a room: its own system prompt, else the global one.
    pub fn base_prompt(&self, room_id: &str) -> (r: String)
        ensures
            r@ == (if self.room_configs@.contains_key(room_id@)
                && self.room_configs@[room_id@].system_prompt is Some {
                self.room_configs@[room_id@].system_prompt->Some_0@
            } else {
                self.system_prompt@
            }),
    {
        if let Some(room) = self.room_configs.get(room_id) {
            if let Some(p) = &room.system_prompt {
                return p.clone();
            }
        }
        self.system_prompt.clone()
    }

    /// The operating-instructions file of a room, where it has one of its own.
    pub fn room_operating_file(&self, room_id: &str) -> (r: Option<String>)
        ensures
            r == (if self.room_configs@.contains_key(room_id@) {
                self.room_configs@[room_id@].operating_file
            } else {
                None
            }),
    {
        match self.room_configs.get(room_id) {
            Some(room) => config::copy_option(&room.operating_file),
            None => None,
        }
    }
}

/// Whatever a room asks for, it gets a profile that was built, provided `chat` was; and after a
/// load every override that is left is one the room really gets.
pub proof fn law_rooms_get_a_built_profile(
    st: ReloadableState,
    cfg: Config,
    llms: NameMap<ProfileLlm>,
    overrides: Map<Seq<char>, String>,
    room_id: Seq<char>,
)
    requires
        is_loaded(st, cfg, llms, overrides),
        llms@.contains_key("chat"@),
    ensures
        st.llms@.contains_key(st.profile_in_use(room_id)),
        st.room_profiles@.contains_key(room_id) ==> st.profile_in_use(room_id)
            == st.room_profiles@[room_id]@,
{
}

/// An override decides which profile a room asks for; without one the room's own setting does, and
/// without that it is `chat`.
pub proof fn law_who_decides_the_profile(
    overrides: Map<Seq<char>, String>,
    rooms: Map<Seq<char>, RoomConfig>,
    room_id: Seq<char>,
    name: String,
    room: RoomConfig,
)
    ensures
        profile_name(overrides.insert(room_id, name), rooms, room_id) == name@,
        room.profile is Some ==> profile_name(
            overrides.remove(room_id),
            rooms.insert(room_id, room),
            room_id,
        ) == room.profile->Some_0@,
        room.profile is None ==> profile_name(
            overrides.remove(room_id),
            rooms.insert(room_id, room),
            room_id,
        ) == "chat"@,
        profile_name(overrides.remove(room_id), rooms.remove(room_id), room_id) == "chat"@,
{
}

/// A profile that was built is the one a room gets; in place of any other it gets `chat`.
pub proof fn law_unbuilt_profiles_fall_back(asked: Seq<char>, llms: Map<Seq<char>, ProfileLlm>)
    ensures
        llms.contains_key(asked) ==> resolved(asked, llms) == asked,
        !llms.contains_key(asked) ==> resolved(asked, llms) == "chat"@,
{
}

/// A loaded state is what the config says, in every part.
pub proof fn law_state_is_what_the_config_says(
    st: ReloadableState,
    cfg: Config,
    llms: NameMap<ProfileLlm>,
    overrides: Map<Seq<char>, String>,
    k: Seq<char>,
)
    requires
        is_loaded(st, cfg, llms, overrides),
    ensures
        st.llms@ == llms@,
        st.system_prompt@ == cfg.system_prompt@,
        st.room_configs@ == cfg.rooms@,
        st.comms == cfg.comms,
        st.operating_file == cfg.context.operating_file,
        st.memory_enabled == cfg.memory.enabled,
        st.memory_max_global_tokens == cfg.memory.max_global_tokens,
        st.memory_max_room_tokens == cfg.memory.max_room_tokens,
        st.compaction == cfg.compaction,
        cfg.profiles@.contains_key(k) ==> st.profile_comms@.contains_key(k) && st.profile_comms@[k]
            == cfg.profiles@[k].comms,
        !cfg.profiles@.contains_key(k) ==> !st.profile_comms@.contains_key(k),
        overrides.contains_key(k) && llms@.contains_key(overrides[k]@)
            ==> st.room_profiles@.contains_key(k) && st.room_profiles@[k] == overrides[k],
        overrides.contains_key(k) && !llms@.contains_key(overrides[k]@)
            ==> !st.room_profiles@.contains_key(k),
        !overrides.contains_key(k) ==> !st.room_profiles@.contains_key(k),
{
    let _ = st.profile_comms@.contains_key(k);
    let _ = st.room_profiles@.contains_key(k);
}

} // verus!
