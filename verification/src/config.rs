//! Configuration: profiles, backends, rooms, and the model chain that each profile builds.

use crate::llm::{Backend, LlmClient, ProfileLlm, SubprocessBackend, SubprocessKind};
use crate::names;
use crate::names::NameMap;
use crate::paths;
use crate::text;
use crate::text::Class;
use vstd::prelude::*;
use vstd::slice::slice_subrange;
use vstd::string::*;

verus! {

/// How a profile answers: inline, in the background, or inline until it takes too long.
#[derive(Debug, Clone, Copy, PartialEq, Eq, Structural)]
pub enum CommsMode {
    Sync,
    Async,
    Auto,
}

impl Default for CommsMode {
    fn default() -> (r: Self)
        ensures
            r == CommsMode::Auto,
    {
        CommsMode::Auto
    }
}

/// What a backend is: an OpenAI-compatible REST service, or a CLI coding agent.
#[derive(Debug, Clone, Copy, PartialEq, Eq, Structural)]
pub enum BackendKind {
    OpenAi,
    ClaudeCode,
    OpenCode,
}

impl Default for BackendKind {
    fn default() -> (r: Self)
        ensures
            r == BackendKind::OpenAi,
    {
        BackendKind::OpenAi
    }
}

/// An LLM profile.
#[derive(Debug)]
pub struct ProfileConfig {
    pub backend: String,
    /// Ordered fallback backend names, tried (in order) when the primary
    /// `backend` is unreachable or errors. Same profile params apply to each.
    pub fallback: Vec<String>,
    pub max_tokens: Option<u32>,
    /// Approximate context window (tokens) for this profile's model. Used to size
    /// the conversation-history budget. Defaults to 8192.
    pub context_tokens: Option<u32>,
    pub comms: CommsMode,
    pub idle_timeout_ms: Option<u64>,
    /// Subprocess backends only: `--permission-mode` (default "acceptEdits").
    pub permission_mode: Option<String>,
    /// Subprocess backends only: `--max-turns` cap.
    pub max_turns: Option<u32>,
}

/// A backend on this host. `api_key_env` names the environment variable that holds its key.
#[derive(Debug)]
pub struct BackendConfig {
    pub kind: BackendKind,
    pub base_url: String,
    pub model: String,
    pub api_key_env: String,
}

impl BackendConfig {
    /// The key of the backend, where `env` holds the variable that it names.
    pub open spec fn key_in(self, env: Map<Seq<char>, String>) -> Option<Seq<char>> {
        if self.api_key_env@.len() > 0 && env.contains_key(self.api_key_env@) {
            Some(env[self.api_key_env@]@)
        } else {
            None
        }
    }

    /// The key of the backend, where `env` holds the variable that it names.
    pub fn api_key(&self, env: &NameMap<String>) -> (r: Option<String>)
        ensures
            text::opt_string(r) == self.key_in(env@),
    {
        if text::chars_of(self.api_key_env.as_str()).len() == 0 {
            return None;
        }
        match env.get(self.api_key_env.as_str()) {
            Some(k) => Some(k.clone()),
            None => None,
        }
    }
}

/// Communication budgets.
#[derive(Debug)]
pub struct CommsConfig {
    pub sync_budget_ms: u64,
    pub idle_timeout_ms: u64,
    pub absolute_ceiling_ms: u64,
    pub soft_worker_cap: usize,
    pub max_concurrent_children: usize,
    pub edit_debounce_ms: u64,
    /// Fallback working directory for agentic subprocess backends when no workdir
    /// has been identified for the room. `~` is expanded.
    pub default_workdir: Option<String>,
}

/// The budgets where nothing is configured.
pub open spec fn default_comms() -> CommsConfig {
    CommsConfig {
        sync_budget_ms: 7000,
        idle_timeout_ms: 60000,
        absolute_ceiling_ms: 1800000,
        soft_worker_cap: 4,
        max_concurrent_children: 3,
        edit_debounce_ms: 600,
        default_workdir: None,
    }
}

impl Default for CommsConfig {
    fn default() -> (r: Self)
        ensures
            r == default_comms(),
            r.sync_budget_ms == 7000,
            r.idle_timeout_ms == 60000,
            r.absolute_ceiling_ms == 1800000,
            r.soft_worker_cap == 4,
            r.max_concurrent_children == 3,
            r.edit_debounce_ms == 600,
            r.default_workdir is None,
    {
        CommsConfig {
            sync_budget_ms: 7000,
            idle_timeout_ms: 60000,
            absolute_ceiling_ms: 1800000,
            soft_worker_cap: 4,
            max_concurrent_children: 3,
            edit_debounce_ms: 600,
            default_workdir: None,
        }
    }
}

/// The settings of a room.
#[derive(Debug)]
pub struct RoomConfig {
    pub name: String,
    /// If true (default), bot only responds when @-mentioned.
    /// Set to false for rooms where the bot should respond to every message.
    pub require_mention: bool,
    /// Optional per-room system prompt override. When set, replaces the global
    /// system prompt for this room. Supports the `{date}` placeholder.
    pub system_prompt: Option<String>,
    /// Optional LLM profile name for this room (e.g. "chat", "reason", "code").
    /// Defaults to "chat" when unset. Overridable at runtime via `/model`.
    pub profile: Option<String>,
    /// Optional per-room operating-instructions file, appended after the global
    /// `[context].operating_file`. `~` is expanded.
    pub operating_file: Option<String>,
}

impl Default for RoomConfig {
    fn default() -> (r: Self)
        ensures
            r.name@.len() == 0,
            r.require_mention,
            r.system_prompt is None,
            r.profile is None,
            r.operating_file is None,
    {
        RoomConfig {
            name: String::new(),
            require_mention: true,
            system_prompt: None,
            profile: None,
            operating_file: None,
        }
    }
}

/// Operating-instructions injection. The global file is layered into every room's
/// system prompt; a per-room override (`RoomConfig::operating_file`) is appended.
#[derive(Debug)]
pub struct ContextConfig {
    pub operating_file: Option<String>,
}

impl Default for ContextConfig {
    fn default() -> (r: Self)
        ensures
            r.operating_file is None,
    {
        ContextConfig { operating_file: None }
    }
}

/// Durable-memory injection. A global file (shared across rooms) and a per-room
/// file are read fresh each turn and layered into the system prompt.
#[derive(Debug)]
pub struct MemoryConfig {
    pub enabled: bool,
    /// Global memory file (`~` expanded). Defaults to `<state>/memory/global.md`
    /// (resolved by `MemoryStore`) when unset.
    pub global_file: Option<String>,
    /// Compaction re-summarizes a memory file when it exceeds these token caps.
    pub max_global_tokens: usize,
    pub max_room_tokens: usize,
}

/// The memory settings where nothing is configured.
pub open spec fn default_memory() -> MemoryConfig {
    MemoryConfig {
        enabled: true,
        global_file: None,
        max_global_tokens: 1500,
        max_room_tokens: 3000,
    }
}

impl Default for MemoryConfig {
    fn default() -> (r: Self)
        ensures
            r == default_memory(),
            r.enabled,
            r.global_file is None,
            r.max_global_tokens == 1500,
            r.max_room_tokens == 3000,
    {
        MemoryConfig {
            enabled: true,
            global_file: None,
            max_global_tokens: 1500,
            max_room_tokens: 3000,
        }
    }
}

/// Size-triggered conversation compaction: when a room's history exceeds
/// `trigger_tokens`, summarize the older turns and distill durable facts into
/// memory, keeping the most recent turns verbatim.
#[derive(Debug)]
pub struct CompactionConfig {
    pub enabled: bool,
    pub trigger_tokens: usize,
    pub keep_recent_turns: usize,
    /// LLM profile used to summarize + distill (a cheap/fast one).
    pub profile: String,
}

/// The compaction settings where nothing is configured.
pub open spec fn is_default_compaction(c: CompactionConfig) -> bool {
    &&& c.enabled
    &&& c.trigger_tokens == 6000
    &&& c.keep_recent_turns == 8
    &&& c.profile@ == "fast"@
}

impl Default for CompactionConfig {
    fn default() -> (r: Self)
        ensures
            is_default_compaction(r),
            r.enabled,
            r.trigger_tokens == 6000,
            r.keep_recent_turns == 8,
            r.profile@ == "fast"@,
    {
        CompactionConfig {
            enabled: true,
            trigger_tokens: 6000,
            keep_recent_turns: 8,
            profile: "fast".to_owned(),
        }
    }
}

/// `s` with its `{date}` placeholders replaced.
pub open spec fn dated(s: Seq<char>, date: Seq<char>) -> Seq<char> {
    text::replace_all(s, "{date}"@, date)
}

/// A decimal digit.
pub open spec fn is_digit(c: char) -> bool {
    '0' <= c <= '9'
}

/// A date as YYYY-MM-DD. A year outside of four digits has a sign.
pub open spec fn is_date(s: Seq<char>) -> bool {
    let n = s.len() as int;
    &&& n >= 10
    &&& is_digit(s[0]) || s[0] == '+' || s[0] == '-'
    &&& forall|i: int| 0 < i < n - 6 ==> is_digit(#[trigger] s[i])
    &&& s[n - 6] == '-' && is_digit(s[n - 5]) && is_digit(s[n - 4])
    &&& s[n - 3] == '-' && is_digit(s[n - 2]) && is_digit(s[n - 1])
}

/// `chrono::Local::now`, formatted with `%Y-%m-%d`: today's date in the machine's time zone. Which
/// day it is depends on the clock; that it is written as a date does not.
#[verifier::external_body]
fn today() -> (r: String)
    ensures
        is_date(r@),
{
    chrono::Local::now().format("%Y-%m-%d").to_string()
}

/// A text without a letter or a brace is no part of a placeholder.
proof fn lemma_no_placeholder(s: Seq<char>, date: Seq<char>)
    requires
        is_date(date),
    ensures
        !text::contains(dated(s, date), "{date}"@),
    decreases s.len(),
{
    reveal_strlit("{date}");
    let pat = "{date}"@;
    text::lemma_find_from(s, pat, 0);
    assert forall|k: int| 0 <= k < date.len() implies is_digit(date[k]) || date[k] == '-' || date[k]
        == '+' by {
        let n = date.len() as int;
        if 0 < k < n - 6 {
            assert(is_digit(date[k]));
        }
    }
    match text::find(s, pat) {
        Some(i) => {
            let rest = s.skip(i + pat.len());
            lemma_no_placeholder(rest, date);
            let tail = dated(rest, date);
            let r = s.take(i) + date + tail;
            assert(dated(s, date) == r);
            assert forall|p: int| !text::occurs_at(r, pat, p) by {
                if text::occurs_at(r, pat, p) {
                    let sub = r.subrange(p, p + pat.len());
                    assert(forall|k: int| 0 <= k < 6 ==> #[trigger] sub[k] == r[p + k]);
                    assert(sub[0] == '{' && sub[1] == 'd' && sub[2] == 'a' && sub[3] == 't'
                        && sub[4] == 'e' && sub[5] == '}');
                    let d = date.len() as int;
                    if p + 6 <= i {
                        assert(s.subrange(p, p + 6) =~= pat);
                        assert(text::occurs_at(s, pat, p));
                    } else if p < i + d {
                        let k = if p < i { i } else { p };
                        assert(r[k] == date[k - i]);
                        assert(sub[k - p] == r[k]);
                    } else {
                        assert(tail.subrange(p - i - d, p - i - d + 6) =~= pat);
                        assert(text::occurs_at(tail, pat, p - i - d));
                    }
                }
            }
        },
        None => {},
    }
}

/// Replaces the `{date}` placeholders of `s` by `date`.
pub fn inject(s: &str, date: &str) -> (r: String)
    ensures
        r@ == dated(s@, date@),
{
    proof {
        reveal_strlit("{date}");
    }
    text::replace_text(s, "{date}", date)
}

/// No placeholder is left once a date was put in.
pub proof fn law_no_placeholder_is_left(s: Seq<char>, date: Seq<char>)
    requires
        is_date(date),
    ensures
        !text::contains(dated(s, date), "{date}"@),
{
    lemma_no_placeholder(s, date);
}

/// Replace the `{date}` placeholder with today's date (YYYY-MM-DD).
pub fn inject_date(s: &str) -> (r: String)
    ensures
        exists|date: Seq<char>| #[trigger] is_date(date) && r@ == dated(s@, date),
        !text::contains(r@, "{date}"@),
{
    let date = today();
    proof {
        law_no_placeholder_is_left(s@, date@);
    }
    inject(s, date.as_str())
}

/// The rooms of an allowlist: its parts between commas, trimmed, without the empty ones.
pub fn parse_allowlist(list: &str) -> (r: Vec<String>)
    ensures
        text::views(r@) == text::kept(text::split_on(list@, ',')),
{
    text::kept_pieces(list, ',')
}

/// The local part of a user id: what stands between its `@` and its first `:`.
pub open spec fn localpart(user_id: Seq<char>) -> Seq<char> {
    text::split_on(text::trim_front(user_id, Class::Only('@')), ':')[0]
}

/// The local part of a user id.
pub fn localpart_of(user_id: &str) -> (r: String)
    ensures
        r@ == localpart(user_id@),
{
    let v = text::chars_of(user_id);
    let bare = text::skip_front(v.as_slice(), Class::Only('@'));
    let colon: [char; 1] = [':'];
    assert(colon@ == seq![':']);
    match text::position(bare, colon.as_slice()) {
        Some(i) => {
            assert(text::split_on(bare@, ':')[0] == bare@.take(i as int));
            text::string_of(slice_subrange(bare, 0, i))
        },
        None => text::string_of(bare),
    }
}

/// `s` without any number of `suffix` at its end.
pub open spec fn without_suffix(s: Seq<char>, suffix: Seq<char>) -> Seq<char>
    decreases s.len(),
{
    if suffix.len() > 0 && text::occurs_at(s, suffix, s.len() - suffix.len()) {
        without_suffix(s.take(s.len() - suffix.len()), suffix)
    } else {
        s
    }
}

/// `s` without any number of `suffix` at its end.
fn drop_suffix<'a>(s: &'a [char], suffix: &[char]) -> (r: &'a [char])
    requires
        suffix.len() > 0,
    ensures
        r@ == without_suffix(s@, suffix@),
{
    let mut n: usize = s.len();
    assert(s@.take(s@.len() as int) == s@);
    while n >= suffix.len() && text::matches_at(slice_subrange(s, 0, n), suffix, n - suffix.len())
        invariant
            n <= s.len(),
            suffix.len() > 0,
            without_suffix(s@, suffix@) == without_suffix(s@.take(n as int), suffix@),
        decreases n,
    {
        assert(s@.subrange(0, n as int) == s@.take(n as int));
        assert(s@.take(n as int).take(n - suffix@.len()) == s@.take(n - suffix@.len()));
        n = n - suffix.len();
    }
    assert(s@.subrange(0, n as int) == s@.take(n as int));
    slice_subrange(s, 0, n)
}

/// The REST address of a backend: its base without slashes and `/v1` at the end, and one `/v1`.
pub open spec fn rest_url(base_url: Seq<char>) -> Seq<char> {
    without_suffix(text::trim_back(base_url, Class::Only('/')), "/v1"@) + "/v1"@
}

/// The REST address of a backend.
fn rest_url_of(base_url: &str) -> (r: String)
    ensures
        r@ == rest_url(base_url@),
{
    proof {
        reveal_strlit("/v1");
    }
    let v = text::chars_of(base_url);
    let bare = text::skip_back(v.as_slice(), Class::Only('/'));
    let v1 = text::chars_of("/v1");
    let mut url = text::string_of(drop_suffix(bare, v1.as_slice()));
    url.append("/v1");
    url
}

/// What a backend is built from, beside its own settings and those of the profile.
pub struct Host<'a> {
    pub comms: &'a CommsConfig,
    /// The environment variables that hold keys.
    pub env: &'a NameMap<String>,
    pub home: Option<&'a str>,
}

/// A value where it is set, else a default.
pub open spec fn or_default<T>(value: Option<T>, default: T) -> T {
    match value {
        Some(v) => v,
        None => default,
    }
}

/// `b` is built from the backend `c` with the params of the profile `p`.
pub open spec fn is_built(b: Backend, c: BackendConfig, p: ProfileConfig, host: Host) -> bool {
    match b {
        Backend::Http(h) => {
            &&& c.kind == BackendKind::OpenAi
            &&& h.base_url@ == rest_url(c.base_url@)
            &&& h.model@ == c.model@
            &&& text::opt_string(h.api_key) == c.key_in(host.env@)
            &&& h.max_tokens == or_default(p.max_tokens, 1024)
            &&& h.context_tokens == or_default(p.context_tokens, 8192)
        },
        Backend::Subprocess(s) => {
            &&& c.kind == (match s.flavor {
                SubprocessKind::ClaudeCode => BackendKind::ClaudeCode,
                SubprocessKind::OpenCode => BackendKind::OpenCode,
            })
            &&& s.model@ == c.model@
            &&& s.base_url@ == text::trim_back(c.base_url@, Class::Only('/'))
            &&& text::opt_string(s.auth_token) == c.key_in(host.env@)
            &&& text::opt_string(s.workdir) == (match host.comms.default_workdir {
                Some(d) => Some(paths::expand_spec(text::opt_str(host.home), d@)),
                None => None,
            })
            &&& s.permission_mode@ == (match p.permission_mode {
                Some(m) => m@,
                None => "acceptEdits"@,
            })
            &&& s.idle_ms == or_default(p.idle_timeout_ms, host.comms.idle_timeout_ms)
            &&& s.ceiling_ms == host.comms.absolute_ceiling_ms
            &&& s.max_turns == p.max_turns
            &&& s.max_tokens == or_default(p.max_tokens, 1024)
            &&& s.context_tokens == or_default(p.context_tokens, 8192)
        },
    }
}

/// The names of the backends of a profile, primary first.
pub open spec fn backend_names(p: ProfileConfig) -> Seq<Seq<char>> {
    seq![p.backend@] + text::views(p.fallback@)
}

/// Those of the names that are backends on this host.
pub open spec fn usable(names: Seq<Seq<char>>, backends: Map<Seq<char>, BackendConfig>) -> Seq<
    Seq<char>,
>
    decreases names.len(),
{
    if names.len() == 0 {
        Seq::empty()
    } else if backends.contains_key(names.last()) {
        usable(names.drop_last(), backends).push(names.last())
    } else {
        usable(names.drop_last(), backends)
    }
}

/// `chain` is built from the backends `names`, in order, with the params of the profile `p`.
pub open spec fn is_chain(
    chain: Seq<Backend>,
    names: Seq<Seq<char>>,
    p: ProfileConfig,
    backends: Map<Seq<char>, BackendConfig>,
    host: Host,
) -> bool {
    chain.len() == names.len() && forall|i: int|
        0 <= i < chain.len() ==> is_built(#[trigger] chain[i], backends[names[i]], p, host)
}

/// Of names one after another the usable ones are taken in the same order, whatever stands around
/// them, and a single name is usable where it is configured.
pub proof fn law_usable_names_keep_their_order(
    a: Seq<Seq<char>>,
    b: Seq<Seq<char>>,
    name: Seq<char>,
    backends: Map<Seq<char>, BackendConfig>,
)
    ensures
        usable(a + b, backends) == usable(a, backends) + usable(b, backends),
        backends.contains_key(name) ==> usable(seq![name], backends) == seq![name],
        !backends.contains_key(name) ==> usable(seq![name], backends).len() == 0,
    decreases b.len(),
{
    assert(seq![name].drop_last() =~= Seq::<Seq<char>>::empty());
    assert(usable(seq![name].drop_last(), backends) =~= Seq::<Seq<char>>::empty());
    assert(Seq::<Seq<char>>::empty().push(name) =~= seq![name]);
    if b.len() == 0 {
        assert(a + b =~= a);
        assert(usable(a, backends) + usable(b, backends) =~= usable(a, backends));
    } else {
        law_usable_names_keep_their_order(a, b.drop_last(), name, backends);
        assert((a + b).drop_last() =~= a + b.drop_last());
        assert((a + b).last() == b.last());
        assert(usable(a, backends) + usable(b.drop_last(), backends).push(b.last()) =~= (usable(
            a,
            backends,
        ) + usable(b.drop_last(), backends)).push(b.last()));
    }
}

/// Names that are all configured are all usable.
proof fn lemma_all_usable(names: Seq<Seq<char>>, backends: Map<Seq<char>, BackendConfig>)
    requires
        forall|i: int| 0 <= i < names.len() ==> backends.contains_key(#[trigger] names[i]),
    ensures
        usable(names, backends) == names,
    decreases names.len(),
{
    if names.len() > 0 {
        let rest = names.drop_last();
        assert forall|i: int| 0 <= i < rest.len() implies backends.contains_key(
            #[trigger] rest[i],
        ) by {
            assert(rest[i] == names[i]);
        }
        lemma_all_usable(rest, backends);
        assert(names[names.len() - 1] == names.last());
        assert(rest.push(names.last()) =~= names);
    } else {
        assert(usable(names, backends) =~= names);
    }
}

/// The chain of a profile whose backends are all configured has one for the primary, and behind it
/// one for each fallback, in their order, each with the model of its backend.
#[verifier::rlimit(40)]
pub proof fn law_chain_has_every_backend(
    chain: Seq<Backend>,
    p: ProfileConfig,
    backends: Map<Seq<char>, BackendConfig>,
    host: Host,
)
    requires
        is_chain(chain, usable(backend_names(p), backends), p, backends, host),
        backends.contains_key(p.backend@),
        forall|i: int|
            0 <= i < p.fallback@.len() ==> backends.contains_key((#[trigger] p.fallback@[i])@),
    ensures
        chain.len() == 1 + p.fallback@.len(),
        is_built(chain[0], backends[p.backend@], p, host),
        chain[0].model_view() == backends[p.backend@].model@,
        forall|i: int|
            0 <= i < p.fallback@.len() ==> is_built(
                chain[i + 1],
                backends[(#[trigger] p.fallback@[i])@],
                p,
                host,
            ) && chain[i + 1].model_view() == backends[p.fallback@[i]@].model@,
{
    let names = backend_names(p);
    assert forall|i: int| 0 <= i < names.len() implies backends.contains_key(
        #[trigger] names[i],
    ) by {
        if i > 0 {
            assert(names[i] == p.fallback@[i - 1]@);
        }
    }
    lemma_all_usable(names, backends);
    assert(names[0] == p.backend@);
    assert(is_built(chain[0], backends[names[0]], p, host));
    assert forall|i: int| 0 <= i < p.fallback@.len() implies is_built(
        chain[i + 1],
        backends[(#[trigger] p.fallback@[i])@],
        p,
        host,
    ) && chain[i + 1].model_view() == backends[p.fallback@[i]@].model@ by {
        assert(names[i + 1] == p.fallback@[i]@);
        assert(is_built(chain[i + 1], backends[names[i + 1]], p, host));
    }
}

/// A configured backend of a profile is never left out of its chain: it stands there behind those of
/// the names before it, however many there are.
pub proof fn law_configured_backend_is_in_the_chain(
    chain: Seq<Backend>,
    p: ProfileConfig,
    backends: Map<Seq<char>, BackendConfig>,
    host: Host,
    i: int,
)
    requires
        is_chain(chain, usable(backend_names(p), backends), p, backends, host),
        0 <= i < 1 + p.fallback@.len(),
        backends.contains_key(if i == 0 {
            p.backend@
        } else {
            p.fallback@[i - 1]@
        }),
    ensures
        ({
            let name = if i == 0 {
                p.backend@
            } else {
                p.fallback@[i - 1]@
            };
            let k = usable(backend_names(p).take(i), backends).len() as int;
            k <= i && k < chain.len() && is_built(chain[k], backends[name], p, host)
        }),
{
    let names = backend_names(p);
    let name = names[i];
    let front = names.take(i);
    let back = names.skip(i + 1);
    assert(names =~= front + seq![name] + back);
    law_usable_names_keep_their_order(front + seq![name], back, name, backends);
    law_usable_names_keep_their_order(front, seq![name], name, backends);
    lemma_usable_len(front, backends);
    let k = usable(front, backends).len() as int;
    let all = usable(names, backends);
    assert(all[k] == name);
    assert(is_built(chain[k], backends[all[k]], p, host));
}

/// There are no more usable names than names.
proof fn lemma_usable_len(names: Seq<Seq<char>>, backends: Map<Seq<char>, BackendConfig>)
    ensures
        usable(names, backends).len() <= names.len(),
    decreases names.len(),
{
    if names.len() > 0 {
        lemma_usable_len(names.drop_last(), backends);
    }
}

/// The parsed profiles file.
pub struct ProfilesFile {
    pub profiles: NameMap<ProfileConfig>,
    pub comms: Option<CommsConfig>,
    pub context: Option<ContextConfig>,
    pub memory: Option<MemoryConfig>,
    pub compaction: Option<CompactionConfig>,
    pub rooms: NameMap<RoomConfig>,
    /// Known projects (name → path) the LLM can select via the `set_workdir` tool.
    pub projects: NameMap<String>,
}

/// The environment variables of the configuration, where they are set.
pub struct Environment {
    pub matrix_homeserver: Option<String>,
    pub matrix_user: Option<String>,
    pub matrix_password: Option<String>,
    pub room_allowlist: Option<String>,
    pub speaches_url: Option<String>,
    pub searxng_url: Option<String>,
}

/// The configuration of the process.
pub struct Config {
    pub profiles: NameMap<ProfileConfig>,
    pub backends: NameMap<BackendConfig>,
    pub comms: CommsConfig,
    pub context: ContextConfig,
    pub memory: MemoryConfig,
    pub compaction: CompactionConfig,
    pub rooms: NameMap<RoomConfig>,
    /// Known projects (name → path) selectable via the `set_workdir` tool.
    pub projects: NameMap<String>,
    pub matrix_homeserver: String,
    pub matrix_user: String,
    pub matrix_password: String,
    pub room_allowlist: Vec<String>,
    /// URL for the Whisper-compatible transcription service (e.g. speaches)
    pub speaches_url: Option<String>,
    /// System prompt injected as the first message in every LLM call
    pub system_prompt: String,
    /// Base URL for the SearXNG instance used by the web_search tool
    pub searxng_url: Option<String>,
}

/// A copy of an optional string.
pub fn copy_option(s: &Option<String>) -> (r: Option<String>)
    ensures
        r == *s,
{
    match s {
        Some(t) => Some(t.clone()),
        None => None,
    }
}

/// `after` is `before` with the date put into its system prompt.
pub open spec fn room_dated(before: RoomConfig, after: RoomConfig, date: Seq<char>) -> bool {
    &&& after.name == before.name
    &&& after.require_mention == before.require_mention
    &&& after.profile == before.profile
    &&& after.operating_file == before.operating_file
    &&& text::opt_string(after.system_prompt) == (match before.system_prompt {
        Some(p) => Some(dated(p@, date)),
        None => None,
    })
}

/// `after` holds the rooms of `before`, the date put into their system prompts.
pub open spec fn rooms_dated(
    before: Map<Seq<char>, RoomConfig>,
    after: Map<Seq<char>, RoomConfig>,
    date: Seq<char>,
) -> bool {
    &&& after.dom() == before.dom()
    &&& forall|k: Seq<char>|
        before.contains_key(k) ==> room_dated(before[k], #[trigger] after[k], date)
}

/// Puts the date into the system prompts of the rooms.
fn date_rooms(rooms: &NameMap<RoomConfig>, date: &str) -> (r: NameMap<RoomConfig>)
    ensures
        rooms_dated(rooms@, r@, date@),
{
    let mut out: NameMap<RoomConfig> = NameMap::new();
    let keys = rooms.keys();
    let ghost ks = text::views(keys@);
    let mut i: usize = 0;
    while i < keys.len()
        invariant
            i <= keys.len(),
            ks == text::views(keys@),
            names::lists_keys(ks, rooms@.dom()),
            forall|k: Seq<char>| #[trigger] out@.contains_key(k) <==> ks.take(i as int).contains(k),
            forall|k: Seq<char>|
                ks.take(i as int).contains(k) ==> room_dated(rooms@[k], #[trigger] out@[k], date@),
        decreases keys.len() - i,
    {
        let key = &keys[i];
        let ghost then = out@;
        assert(ks[i as int] == key@);
        assert(ks.contains(key@));
        assert(rooms@.dom().contains(key@));
        assert(ks.take(i + 1) == ks.take(i as int).push(key@));
        if let Some(room) = rooms.get(key.as_str()) {
            let prompt = match &room.system_prompt {
                Some(p) => Some(inject(p.as_str(), date)),
                None => None,
            };
            out.insert(
                key.clone(),
                RoomConfig {
                    name: room.name.clone(),
                    require_mention: room.require_mention,
                    system_prompt: prompt,
                    profile: copy_option(&room.profile),
                    operating_file: copy_option(&room.operating_file),
                },
            );
        }
        proof {
            names::lemma_push_contains(ks.take(i as int), key@);
            assert forall|k: Seq<char>| ks.take(i + 1).contains(k) implies room_dated(
                rooms@[k],
                #[trigger] out@[k],
                date@,
            ) by {
                if k != key@ {
                    assert(out@[k] == then[k]);
                }
            }
        }
        i += 1;
    }
    proof {
        assert(ks.take(ks.len() as int) == ks);
        assert(out@.dom() =~= rooms@.dom()) by {
            assert forall|k: Seq<char>| #[trigger]
                out@.dom().contains(k) == rooms@.dom().contains(k) by {
                assert(out@.contains_key(k) == ks.contains(k));
            }
        }
        assert forall|k: Seq<char>| rooms@.contains_key(k) implies room_dated(
            rooms@[k],
            #[trigger] out@[k],
            date@,
        ) by {
            assert(rooms@.dom().contains(k));
            assert(ks.contains(k));
        }
    }
    out
}

/// `after` holds the projects of `before`, a leading `~` of their paths read against `home`.
pub open spec fn projects_expanded(
    before: Map<Seq<char>, String>,
    after: Map<Seq<char>, String>,
    home: Option<Seq<char>>,
) -> bool {
    &&& after.dom() == before.dom()
    &&& forall|k: Seq<char>|
        before.contains_key(k) ==> (#[trigger] after[k])@ == paths::expand_spec(home, before[k]@)
}

/// Known projects (name → expanded path) selectable via set_workdir.
pub fn expand_projects(projects: &NameMap<String>, home: Option<&str>) -> (r: NameMap<String>)
    ensures
        projects_expanded(projects@, r@, text::opt_str(home)),
{
    let mut out: NameMap<String> = NameMap::new();
    let keys = projects.keys();
    let ghost ks = text::views(keys@);
    let ghost h = text::opt_str(home);
    let mut i: usize = 0;
    while i < keys.len()
        invariant
            i <= keys.len(),
            ks == text::views(keys@),
            h == text::opt_str(home),
            names::lists_keys(ks, projects@.dom()),
            forall|k: Seq<char>| #[trigger] out@.contains_key(k) <==> ks.take(i as int).contains(k),
            forall|k: Seq<char>|
                ks.take(i as int).contains(k) ==> (#[trigger] out@[k])@ == paths::expand_spec(
                    h,
                    projects@[k]@,
                ),
        decreases keys.len() - i,
    {
        let key = &keys[i];
        let ghost then = out@;
        assert(ks[i as int] == key@);
        assert(ks.contains(key@));
        assert(projects@.dom().contains(key@));
        assert(ks.take(i + 1) == ks.take(i as int).push(key@));
        proof {
            names::lemma_push_contains(ks.take(i as int), key@);
        }
        if let Some(path) = projects.get(key.as_str()) {
            out.insert(key.clone(), paths::expand_tilde(home, path.as_str()));
        }
        i += 1;
    }
    proof {
        assert(ks.take(ks.len() as int) == ks);
        assert(out@.dom() =~= projects@.dom()) by {
            assert forall|k: Seq<char>| #[trigger]
                out@.dom().contains(k) == projects@.dom().contains(k) by {
                assert(out@.contains_key(k) == ks.contains(k));
            }
        }
        assert forall|k: Seq<char>| projects@.contains_key(k) implies (#[trigger] out@[k])@
            == paths::expand_spec(h, projects@[k]@) by {
            assert(projects@.dom().contains(k));
            assert(ks.contains(k));
        }
    }
    out
}

/// The first of the required variables that is not set.
pub open spec fn missing_variable(env: Environment) -> Option<Seq<char>> {
    if env.matrix_homeserver is None {
        Some("MATRIX_HOMESERVER not set"@)
    } else if env.matrix_user is None {
        Some("MATRIX_USER not set"@)
    } else if env.matrix_password is None {
        Some("MATRIX_PASSWORD not set"@)
    } else {
        None
    }
}

/// `cfg` is put together from the files, the environment and the date.
pub open spec fn is_assembled(
    cfg: Config,
    file: ProfilesFile,
    backends: Map<Seq<char>, BackendConfig>,
    env: Environment,
    prompt: Option<Seq<char>>,
    date: Seq<char>,
) -> bool {
    &&& cfg.profiles == file.profiles
    &&& cfg.backends@ == backends
    &&& match file.comms {
        Some(c) => cfg.comms == c,
        None => cfg.comms == default_comms(),
    }
    &&& match file.context {
        Some(c) => cfg.context == c,
        None => cfg.context.operating_file is None,
    }
    &&& match file.memory {
        Some(m) => cfg.memory == m,
        None => cfg.memory == default_memory(),
    }
    &&& match file.compaction {
        Some(c) => cfg.compaction == c,
        None => is_default_compaction(cfg.compaction),
    }
    &&& rooms_dated(file.rooms@, cfg.rooms@, date)
    &&& cfg.projects == file.projects
    &&& env.matrix_homeserver == Some(cfg.matrix_homeserver)
    &&& env.matrix_user == Some(cfg.matrix_user)
    &&& env.matrix_password == Some(cfg.matrix_password)
    &&& text::views(cfg.room_allowlist@) == text::kept(
        text::split_on(
            match env.room_allowlist {
                Some(l) => l@,
                None => ""@,
            },
            ',',
        ),
    )
    &&& cfg.speaches_url == env.speaches_url
    &&& cfg.searxng_url == env.searxng_url
    &&& cfg.system_prompt@ == dated(
        match prompt {
            Some(p) => p,
            None => "You are Roger, a helpful Matrix-native AI assistant."@,
        },
        date,
    )
}

impl Config {
    /// Puts the configuration together; `date` goes into the system prompts. Fails where a required
    /// variable is not set.
    pub fn assemble_on(
        file: ProfilesFile,
        backends: NameMap<BackendConfig>,
        env: Environment,
        prompt: Option<&str>,
        date: &str,
    ) -> (r: Result<Config, String>)
        ensures
            match r {
                Ok(cfg) => missing_variable(env) is None && is_assembled(
                    cfg,
                    file,
                    backends@,
                    env,
                    text::opt_str(prompt),
                    date@,
                ),
                Err(e) => missing_variable(env) == Some(e@),
            },
    {
        let matrix_homeserver = match env.matrix_homeserver {
            Some(v) => v,
            None => {
                return Err("MATRIX_HOMESERVER not set".to_owned());
            },
        };
        let matrix_user = match env.matrix_user {
            Some(v) => v,
            None => {
                return Err("MATRIX_USER not set".to_owned());
            },
        };
        let matrix_password = match env.matrix_password {
            Some(v) => v,
            None => {
                return Err("MATRIX_PASSWORD not set".to_owned());
            },
        };
        let room_allowlist = match &env.room_allowlist {
            Some(l) => parse_allowlist(l.as_str()),
            None => parse_allowlist(""),
        };
        let system_prompt = match prompt {
            Some(p) => inject(p, date),
            None => inject("You are Roger, a helpful Matrix-native AI assistant.", date),
        };
        let rooms = date_rooms(&file.rooms, date);
        Ok(
            Config {
                profiles: file.profiles,
                backends,
                comms: match file.comms {
                    Some(c) => c,
                    None => CommsConfig::default(),
                },
                context: match file.context {
                    Some(c) => c,
                    None => ContextConfig::default(),
                },
                memory: match file.memory {
                    Some(m) => m,
                    None => MemoryConfig::default(),
                },
                compaction: match file.compaction {
                    Some(c) => c,
                    None => CompactionConfig::default(),
                },
                rooms,
                projects: file.projects,
                matrix_homeserver,
                matrix_user,
                matrix_password,
                room_allowlist,
                speaches_url: env.speaches_url,
                system_prompt,
                searxng_url: env.searxng_url,
            },
        )
    }

    /// Puts the configuration together, with today's date in the system prompts.
    pub fn assemble(
        file: ProfilesFile,
        backends: NameMap<BackendConfig>,
        env: Environment,
        prompt: Option<&str>,
    ) -> (r: Result<Config, String>)
        ensures
            match r {
                Ok(cfg) => missing_variable(env) is None && exists|date: Seq<char>| #[trigger]
                    is_date(date) && is_assembled(
                        cfg,
                        file,
                        backends@,
                        env,
                        text::opt_str(prompt),
                        date,
                    ),
                Err(e) => missing_variable(env) == Some(e@),
            },
    {
        let date = today();
        Config::assemble_on(file, backends, env, prompt, date.as_str())
    }

    /// Build one backend for a named backend config, applying the given profile's
    /// params. Dispatches on `kind`: OpenAI-compatible HTTP, or a CLI coding agent that is run
    /// as an agentic subprocess.
    pub fn build_client(
        &self,
        backend_name: &str,
        profile: &ProfileConfig,
        env: &NameMap<String>,
        home: Option<&str>,
    ) -> (r: Result<Backend, String>)
        ensures
            match r {
                Ok(b) => self.backends@.contains_key(backend_name@) && is_built(
                    b,
                    self.backends@[backend_name@],
                    *profile,
                    (Host { comms: &self.comms, env, home }),
                ),
                Err(e) => !self.backends@.contains_key(backend_name@) && e@ == "unknown backend '"@
                    + backend_name@ + "'"@,
            },
    {
        let backend = match self.backends.get(backend_name) {
            Some(b) => b,
            None => {
                let mut e = "unknown backend '".to_owned();
                e.append(backend_name);
                e.append("'");
                return Err(e);
            },
        };
        let max_tokens: u32 = match profile.max_tokens {
            Some(n) => n,
            None => 1024,
        };
        let context_tokens: u32 = match profile.context_tokens {
            Some(n) => n,
            None => 8192,
        };
        let flavor = match backend.kind {
            BackendKind::OpenAi => {
                return Ok(
                    Backend::Http(
                        LlmClient::new(
                            rest_url_of(backend.base_url.as_str()),
                            backend.model.clone(),
                            backend.api_key(env),
                            max_tokens,
                            context_tokens,
                        ),
                    ),
                );
            },
            BackendKind::ClaudeCode => SubprocessKind::ClaudeCode,
            BackendKind::OpenCode => SubprocessKind::OpenCode,
        };
        // ANTHROPIC_BASE_URL is the gateway host (no /v1 suffix).
        let v = text::chars_of(backend.base_url.as_str());
        let base_url = text::string_of(text::skip_back(v.as_slice(), Class::Only('/')));
        let workdir = match &self.comms.default_workdir {
            Some(d) => Some(paths::expand_tilde(home, d.as_str())),
            None => None,
        };
        let permission_mode = match &profile.permission_mode {
            Some(m) => m.clone(),
            None => "acceptEdits".to_owned(),
        };
        Ok(
            Backend::Subprocess(
                SubprocessBackend {
                    flavor,
                    model: backend.model.clone(),
                    base_url,
                    auth_token: backend.api_key(env),
                    workdir,
                    permission_mode,
                    idle_ms: match profile.idle_timeout_ms {
                        Some(n) => n,
                        None => self.comms.idle_timeout_ms,
                    },
                    ceiling_ms: self.comms.absolute_ceiling_ms,
                    max_turns: profile.max_turns,
                    max_tokens,
                    context_tokens,
                },
            ),
        )
    }

    /// Build the `ProfileLlm` for a named profile: its primary backend followed by
    /// any `fallback` backends, in order. Backends that don't exist on this host
    /// are skipped; the profile fails only if none are usable.
    pub fn build_profile_llm(
        &self,
        profile_name: &str,
        env: &NameMap<String>,
        home: Option<&str>,
    ) -> (r: Result<ProfileLlm, String>)
        ensures
            match r {
                Ok(p) => {
                    &&& self.profiles@.contains_key(profile_name@)
                    &&& usable(
                        backend_names(self.profiles@[profile_name@]),
                        self.backends@,
                    ).len() > 0
                    &&& is_chain(
                        p@,
                        usable(backend_names(self.profiles@[profile_name@]), self.backends@),
                        self.profiles@[profile_name@],
                        self.backends@,
                        (Host { comms: &self.comms, env, home }),
                    )
                },
                Err(e) => if self.profiles@.contains_key(profile_name@) {
                    &&& usable(
                        backend_names(self.profiles@[profile_name@]),
                        self.backends@,
                    ).len() == 0
                    &&& e@ == "profile '"@ + profile_name@ + "' has no usable backend"@
                } else {
                    e@ == "unknown profile: "@ + profile_name@
                },
            },
    {
        let profile = match self.profiles.get(profile_name) {
            Some(p) => p,
            None => {
                let mut e = "unknown profile: ".to_owned();
                e.append(profile_name);
                return Err(e);
            },
        };
        let mut listed: Vec<String> = Vec::new();
        listed.push(profile.backend.clone());
        let ghost all = backend_names(*profile);
        let mut j: usize = 0;
        assert(text::views(listed@) =~= all.take(1));
        while j < profile.fallback.len()
            invariant
                j <= profile.fallback.len(),
                all == backend_names(*profile),
                text::views(listed@) == all.take(j + 1),
            decreases profile.fallback.len() - j,
        {
            let ghost before = listed@;
            listed.push(profile.fallback[j].clone());
            proof {
                assert(all[j + 1] == profile.fallback@[j as int]@);
                assert(text::views(listed@) =~= text::views(before).push(all[j + 1]));
                assert(all.take(j + 2) =~= all.take(j + 1).push(all[j + 1]));
            }
            j += 1;
        }
        assert(all.take(all.len() as int) =~= all);
        assert(text::views(listed@) == all);
        let ghost host = Host { comms: &self.comms, env, home };
        let mut clients: Vec<Backend> = Vec::new();
        let mut i: usize = 0;
        while i < listed.len()
            invariant
                i <= listed.len(),
                all == text::views(listed@),
                host == (Host { comms: &self.comms, env, home }),
                is_chain(
                    clients@,
                    usable(all.take(i as int), self.backends@),
                    *profile,
                    self.backends@,
                    host,
                ),
            decreases listed.len() - i,
        {
            assert(all.take(i + 1).drop_last() == all.take(i as int));
            assert(all.take(i + 1).last() == listed@[i as int]@);
            match self.build_client(listed[i].as_str(), profile, env, home) {
                Ok(c) => {
                    clients.push(c);
                },
                Err(_) => {},
            }
            i += 1;
        }
        assert(all.take(all.len() as int) =~= all);
        if clients.len() == 0 {
            let mut e = "profile '".to_owned();
            e.append(profile_name);
            e.append("' has no usable backend");
            return Err(e);
        }
        Ok(ProfileLlm::new(clients))
    }

    /// Whether a profile has a backend on this host.
    pub open spec fn builds(self, profile_name: Seq<char>) -> bool {
        &&& self.profiles@.contains_key(profile_name)
        &&& usable(backend_names(self.profiles@[profile_name]), self.backends@).len() > 0
    }

    /// `m` holds the chain of every profile that has a backend on this host, and no other; "chat" is
    /// one of them.
    pub open spec fn all_built(
        self,
        m: Map<Seq<char>, ProfileLlm>,
        env: &NameMap<String>,
        home: Option<&str>,
    ) -> bool {
        &&& self.builds("chat"@)
        &&& forall|k: Seq<char>| #[trigger] m.contains_key(k) <==> self.builds(k)
        &&& forall|k: Seq<char>|
            m.contains_key(k) ==> is_chain(
                (#[trigger] m[k])@,
                usable(backend_names(self.profiles@[k]), self.backends@),
                self.profiles@[k],
                self.backends@,
                (Host { comms: &self.comms, env, home }),
            )
    }

    /// Build a `ProfileLlm` for every defined profile. Profiles with no usable
    /// backend are skipped rather than aborting startup. The "chat"
    /// profile is required. Shared by startup and config hot-reload.
    pub fn build_all_llms(&self, env: &NameMap<String>, home: Option<&str>) -> (r: Result<
        NameMap<ProfileLlm>,
        String,
    >)
        ensures
            match r {
                Ok(m) => self.all_built(m@, env, home),
                Err(e) => !self.builds("chat"@) && e@
                    == "the 'chat' profile is required but failed to build"@,
            },
    {
        let mut out: NameMap<ProfileLlm> = NameMap::new();
        let keys = self.profiles.keys();
        let ghost ks = text::views(keys@);
        let ghost host = Host { comms: &self.comms, env, home };
        let mut i: usize = 0;
        while i < keys.len()
            invariant
                i <= keys.len(),
                ks == text::views(keys@),
                names::lists_keys(ks, self.profiles@.dom()),
                host == (Host { comms: &self.comms, env, home }),
                forall|k: Seq<char>| #[trigger]
                    out@.contains_key(k) <==> self.builds(k) && ks.take(i as int).contains(k),
                forall|k: Seq<char>|
                    out@.contains_key(k) ==> is_chain(
                        (#[trigger] out@[k])@,
                        usable(backend_names(self.profiles@[k]), self.backends@),
                        self.profiles@[k],
                        self.backends@,
                        host,
                    ),
            decreases keys.len() - i,
        {
            let key = &keys[i];
            let ghost then = out@;
            assert(ks[i as int] == key@);
            assert(ks.contains(key@));
            assert(self.profiles@.dom().contains(key@));
            assert(ks.take(i + 1) == ks.take(i as int).push(key@));
            match self.build_profile_llm(key.as_str(), env, home) {
                Ok(p) => {
                    out.insert(key.clone(), p);
                },
                Err(_) => {},
            }
            proof {
                names::lemma_push_contains(ks.take(i as int), key@);
                assert forall|k: Seq<char>| out@.contains_key(k) implies is_chain(
                    (#[trigger] out@[k])@,
                    usable(backend_names(self.profiles@[k]), self.backends@),
                    self.profiles@[k],
                    self.backends@,
                    host,
                ) by {
                    if k != key@ {
                        assert(then.contains_key(k));
                        assert(out@[k] == then[k]);
                    }
                }
            }
            i += 1;
        }
        proof {
            assert(ks.take(ks.len() as int) == ks);
            assert forall|k: Seq<char>| #[trigger] out@.contains_key(k) <==> self.builds(k) by {
                if self.builds(k) {
                    assert(self.profiles@.dom().contains(k));
                    assert(ks.contains(k));
                }
            }
        }
        if !out.contains_key("chat") {
            return Err("the 'chat' profile is required but failed to build".to_owned());
        }
        Ok(out)
    }
}

/// A backend is built as it is configured: its address, its model and its key, with the limits of the
/// profile, or 1024 and 8192 tokens where it has none.
pub proof fn law_http_backends_are_as_configured(
    h: LlmClient,
    c: BackendConfig,
    p: ProfileConfig,
    host: Host,
)
    requires
        is_built(Backend::Http(h), c, p, host),
    ensures
        c.kind == BackendKind::OpenAi,
        h.base_url@ == rest_url(c.base_url@),
        h.model@ == c.model@,
        c.api_key_env@.len() > 0 && host.env@.contains_key(c.api_key_env@) ==> h.api_key is Some
            && h.api_key->Some_0@ == host.env@[c.api_key_env@]@,
        c.api_key_env@.len() == 0 || !host.env@.contains_key(c.api_key_env@) ==> h.api_key is None,
        p.max_tokens is Some ==> h.max_tokens == p.max_tokens->Some_0,
        p.max_tokens is None ==> h.max_tokens == 1024,
        p.context_tokens is Some ==> h.context_tokens == p.context_tokens->Some_0,
        p.context_tokens is None ==> h.context_tokens == 8192,
{
}

/// An agent is built as it is configured, with the limits of the profile, or those of the host.
pub proof fn law_agents_are_as_configured(
    s: SubprocessBackend,
    c: BackendConfig,
    p: ProfileConfig,
    host: Host,
)
    requires
        is_built(Backend::Subprocess(s), c, p, host),
    ensures
        c.kind == BackendKind::ClaudeCode ==> s.flavor == SubprocessKind::ClaudeCode,
        c.kind == BackendKind::OpenCode ==> s.flavor == SubprocessKind::OpenCode,
        c.kind != BackendKind::OpenAi,
        s.model@ == c.model@,
        c.base_url@.len() > 0 && c.base_url@.last() != '/' ==> s.base_url@ == c.base_url@,
        c.api_key_env@.len() > 0 && host.env@.contains_key(c.api_key_env@) ==> s.auth_token is Some
            && s.auth_token->Some_0@ == host.env@[c.api_key_env@]@,
        c.api_key_env@.len() == 0 || !host.env@.contains_key(c.api_key_env@)
            ==> s.auth_token is None,
        host.comms.default_workdir is None ==> s.workdir is None,
        host.comms.default_workdir is Some ==> s.workdir is Some && s.workdir->Some_0@
            == paths::expand_spec(
            text::opt_str(host.home),
            host.comms.default_workdir->Some_0@,
        ),
        p.permission_mode is Some ==> s.permission_mode@ == p.permission_mode->Some_0@,
        p.permission_mode is None ==> s.permission_mode@ == "acceptEdits"@,
        p.idle_timeout_ms is Some ==> s.idle_ms == p.idle_timeout_ms->Some_0,
        p.idle_timeout_ms is None ==> s.idle_ms == host.comms.idle_timeout_ms,
        s.ceiling_ms == host.comms.absolute_ceiling_ms,
        s.max_turns == p.max_turns,
        p.max_tokens is Some ==> s.max_tokens == p.max_tokens->Some_0,
        p.max_tokens is None ==> s.max_tokens == 1024,
        p.context_tokens is Some ==> s.context_tokens == p.context_tokens->Some_0,
        p.context_tokens is None ==> s.context_tokens == 8192,
{
}

/// A profile names its primary first, and behind it its fallbacks in their order.
pub proof fn law_primary_comes_first(p: ProfileConfig, i: int)
    requires
        0 <= i < p.fallback@.len(),
    ensures
        backend_names(p).len() == 1 + p.fallback@.len(),
        backend_names(p)[0] == p.backend@,
        backend_names(p)[i + 1] == p.fallback@[i]@,
{
}

/// However many slashes and `/v1` stand behind it, an address gets exactly one `/v1`.
pub proof fn law_addresses_end_in_one_v1(base: Seq<char>, slashes: Seq<char>)
    requires
        base.len() > 0,
        base.last() != '/',
        !text::occurs_at(base, "/v1"@, base.len() - 3),
        forall|i: int| 0 <= i < slashes.len() ==> #[trigger] slashes[i] == '/',
    ensures
        rest_url(base + slashes) == base + "/v1"@,
        rest_url(base + "/v1"@ + slashes) == base + "/v1"@,
        rest_url(base + "/v1/v1"@ + slashes) == base + "/v1"@,
{
    reveal_strlit("/v1");
    reveal_strlit("/v1/v1");
    let v1 = "/v1"@;
    assert("/v1/v1"@ =~= v1 + v1);
    let one = base + v1;
    let two = base + v1 + v1;
    text::lemma_back_taken(base, slashes, Class::Only('/'));
    text::lemma_back_taken(one, slashes, Class::Only('/'));
    text::lemma_back_taken(two, slashes, Class::Only('/'));
    assert(base + "/v1/v1"@ + slashes =~= two + slashes);
    assert(without_suffix(base, v1) == base);
    assert(one.subrange(one.len() - 3, one.len() as int) =~= v1);
    assert(one.take(one.len() - 3) =~= base);
    assert(without_suffix(one, v1) == base);
    assert(two.subrange(two.len() - 3, two.len() as int) =~= v1);
    assert(two.take(two.len() - 3) =~= one);
    assert(without_suffix(two, v1) == base);
}

/// The local part of a user id stands between its `@` and its first `:`.
pub proof fn law_localpart_is_the_name(name: Seq<char>, server: Seq<char>)
    requires
        !name.contains(':'),
        name.len() > 0 && name[0] != '@',
    ensures
        localpart(seq!['@'] + name + seq![':'] + server) == name,
        localpart(name) == name,
{
    let sep = seq![':'];
    let rest = name + sep + server;
    assert(seq!['@'] + rest =~= seq!['@'] + name + sep + server);
    text::lemma_find_behind_char(name, ':', server);
    assert(text::trim_front(rest, Class::Only('@')) == rest);
    assert((seq!['@'] + rest).drop_first() =~= rest);
    assert(text::trim_front(seq!['@'] + rest, Class::Only('@')) == rest);
    assert(rest.take(name.len() as int) =~= name);
    assert(text::split_on(rest, ':')[0] == name);
    assert(text::trim_front(name, Class::Only('@')) == name);
    assert(text::split_on(name, ':')[0] == name);
}

/// The date stands in every place that is kept for it, and everything else stays.
pub proof fn law_date_stands_in_every_place(parts: Seq<Seq<char>>, date: Seq<char>)
    requires
        parts.len() > 0,
        forall|i: int| 0 <= i < parts.len() ==> !(#[trigger] parts[i]).contains('{'),
    ensures
        dated(text::join(parts, "{date}"@), date) == text::join(parts, date),
{
    reveal_strlit("{date}");
    let pat = "{date}"@;
    assert forall|i: int| 0 <= i < parts.len() - 1 implies text::ends_first(
        #[trigger] parts[i],
        pat,
    ) by {
        let a = parts[i];
        assert forall|j: int| 0 <= j < a.len() implies !text::occurs_at(a + pat, pat, j) by {
            if text::occurs_at(a + pat, pat, j) {
                assert((a + pat).subrange(j, j + 6)[0] == a[j]);
                assert(a.contains('{'));
            }
        }
    }
    let l = parts.last();
    assert(parts[parts.len() - 1] == l);
    assert forall|j: int| !text::occurs_at(l, pat, j) by {
        if text::occurs_at(l, pat, j) {
            assert(l.subrange(j, j + 6)[0] == l[j]);
            assert(l.contains('{'));
        }
    }
    text::law_replacing_rejoins(parts, pat, date);
}

/// A configuration is what the files and the environment say, in every part; what the files leave out
/// has its default.
pub proof fn law_config_is_what_the_files_say(
    cfg: Config,
    file: ProfilesFile,
    backends: Map<Seq<char>, BackendConfig>,
    env: Environment,
    prompt: Option<Seq<char>>,
    date: Seq<char>,
    room_id: Seq<char>,
)
    requires
        is_assembled(cfg, file, backends, env, prompt, date),
    ensures
        cfg.profiles@ == file.profiles@,
        cfg.backends@ == backends,
        cfg.projects@ == file.projects@,
        file.comms is Some ==> cfg.comms == file.comms->Some_0,
        file.memory is Some ==> cfg.memory == file.memory->Some_0,
        file.compaction is Some ==> cfg.compaction == file.compaction->Some_0,
        file.context is Some ==> cfg.context == file.context->Some_0,
        file.context is None ==> cfg.context.operating_file is None,
        file.memory is None ==> cfg.memory.enabled && cfg.memory.global_file is None
            && cfg.memory.max_global_tokens == 1500 && cfg.memory.max_room_tokens == 3000,
        file.compaction is None ==> cfg.compaction.enabled && cfg.compaction.trigger_tokens == 6000
            && cfg.compaction.keep_recent_turns == 8 && cfg.compaction.profile@ == "fast"@,
        file.comms is None ==> cfg.comms.sync_budget_ms == 7000 && cfg.comms.idle_timeout_ms
            == 60000 && cfg.comms.absolute_ceiling_ms == 1800000 && cfg.comms.soft_worker_cap == 4
            && cfg.comms.max_concurrent_children == 3 && cfg.comms.edit_debounce_ms == 600
            && cfg.comms.default_workdir is None,
        file.rooms@.contains_key(room_id) == cfg.rooms@.contains_key(room_id),
        file.rooms@.contains_key(room_id) ==> {
            &&& cfg.rooms@[room_id].name@ == file.rooms@[room_id].name@
            &&& cfg.rooms@[room_id].require_mention == file.rooms@[room_id].require_mention
            &&& cfg.rooms@[room_id].profile == file.rooms@[room_id].profile
            &&& cfg.rooms@[room_id].operating_file == file.rooms@[room_id].operating_file
            &&& file.rooms@[room_id].system_prompt is Some ==> cfg.rooms@[room_id].system_prompt
                is Some && cfg.rooms@[room_id].system_prompt->Some_0@ == dated(
                file.rooms@[room_id].system_prompt->Some_0@,
                date,
            )
            &&& file.rooms@[room_id].system_prompt is None
                ==> cfg.rooms@[room_id].system_prompt is None
        },
        env.matrix_homeserver is Some && cfg.matrix_homeserver == env.matrix_homeserver->Some_0,
        env.matrix_user is Some && cfg.matrix_user == env.matrix_user->Some_0,
        env.matrix_password is Some && cfg.matrix_password == env.matrix_password->Some_0,
        cfg.speaches_url == env.speaches_url,
        cfg.searxng_url == env.searxng_url,
        prompt is Some ==> cfg.system_prompt@ == dated(prompt->Some_0, date),
        prompt is None ==> cfg.system_prompt@ == dated(
            "You are Roger, a helpful Matrix-native AI assistant."@,
            date,
        ),
        env.room_allowlist is Some ==> text::views(cfg.room_allowlist@) == text::kept(
            text::split_on(env.room_allowlist->Some_0@, ','),
        ),
{
    let _ = cfg.rooms@[room_id];
    assert(file.rooms@.dom().contains(room_id) == cfg.rooms@.dom().contains(room_id));
}

/// An allowlist names all of its rooms, whatever white space stands around them, in their order.
pub proof fn law_allowlist_names_every_room(rooms: Seq<Seq<char>>)
    requires
        rooms.len() > 0,
        forall|i: int|
            0 <= i < rooms.len() ==> !(#[trigger] rooms[i]).contains(',') && text::trim(
                rooms[i],
            ).len() > 0,
    ensures
        text::kept(text::split_on(text::join(rooms, seq![',']), ',')) == rooms.map_values(
            |r: Seq<char>| text::trim(r),
        ),
{
    text::law_splitting_undoes_joining(rooms, ',');
    lemma_all_kept(rooms);
}

proof fn lemma_all_kept(rooms: Seq<Seq<char>>)
    requires
        forall|i: int| 0 <= i < rooms.len() ==> text::trim(#[trigger] rooms[i]).len() > 0,
    ensures
        text::kept(rooms) == rooms.map_values(|r: Seq<char>| text::trim(r)),
    decreases rooms.len(),
{
    let all = rooms.map_values(|r: Seq<char>| text::trim(r));
    if rooms.len() > 0 {
        let rest = rooms.drop_last();
        assert forall|i: int| 0 <= i < rest.len() implies text::trim(#[trigger] rest[i]).len()
            > 0 by {
            assert(rest[i] == rooms[i]);
        }
        lemma_all_kept(rest);
        assert(rooms[rooms.len() - 1] == rooms.last());
        assert(rest.map_values(|r: Seq<char>| text::trim(r)).push(text::trim(rooms.last())) =~= all);
    } else {
        assert(text::kept(rooms) =~= all);
    }
}

/// The first variable that is missing is the one that is told.
pub proof fn law_missing_variables_are_told(env: Environment)
    ensures
        env.matrix_homeserver is None ==> missing_variable(env) == Some("MATRIX_HOMESERVER not set"@),
        env.matrix_homeserver is Some && env.matrix_user is None ==> missing_variable(env) == Some(
            "MATRIX_USER not set"@,
        ),
        env.matrix_homeserver is Some && env.matrix_user is Some && env.matrix_password is None
            ==> missing_variable(env) == Some("MATRIX_PASSWORD not set"@),
        env.matrix_homeserver is Some && env.matrix_user is Some && env.matrix_password is Some
            ==> missing_variable(env) is None,
{
}

/// Every project keeps its name; a `~` in front of its path is read as the home directory.
pub proof fn law_projects_keep_their_names(
    before: Map<Seq<char>, String>,
    after: Map<Seq<char>, String>,
    home: Option<Seq<char>>,
    name: Seq<char>,
)
    requires
        projects_expanded(before, after, home),
    ensures
        before.contains_key(name) == after.contains_key(name),
        before.contains_key(name) ==> after[name]@ == paths::expand_spec(home, before[name]@),
{
    let _ = after[name];
    assert(before.dom().contains(name) == after.dom().contains(name));
}

/// All profiles with a backend on this host are built, and no others: one of its backends is
/// configured.
pub proof fn law_profiles_with_a_backend_are_built(cfg: Config, name: Seq<char>, i: int)
    requires
        cfg.profiles@.contains_key(name),
        0 <= i < backend_names(cfg.profiles@[name]).len(),
        cfg.backends@.contains_key(backend_names(cfg.profiles@[name])[i]),
    ensures
        cfg.builds(name),
{
    let names = backend_names(cfg.profiles@[name]);
    let front = names.take(i);
    let back = names.skip(i + 1);
    assert(names =~= front + seq![names[i]] + back);
    law_usable_names_keep_their_order(front + seq![names[i]], back, names[i], cfg.backends@);
    law_usable_names_keep_their_order(front, seq![names[i]], names[i], cfg.backends@);
}

/// A backend has the key that the environment holds under the name it gives, and none where it gives
/// no name or the environment does not have it.
pub proof fn law_keys_come_from_the_environment(b: BackendConfig, env: Map<Seq<char>, String>)
    ensures
        b.api_key_env@.len() == 0 ==> b.key_in(env) is None,
        !env.contains_key(b.api_key_env@) ==> b.key_in(env) is None,
        b.api_key_env@.len() > 0 && env.contains_key(b.api_key_env@) ==> b.key_in(env) == Some(
            env[b.api_key_env@]@,
        ),
{
}

/// The chains that are built are those of the profiles with a configured backend, "chat" among them,
/// and each has a client for every configured backend of its profile.
pub proof fn law_every_profile_is_built(
    cfg: Config,
    m: Map<Seq<char>, ProfileLlm>,
    env: &NameMap<String>,
    home: Option<&str>,
    name: Seq<char>,
    i: int,
)
    requires
        cfg.all_built(m, env, home),
    ensures
        m.contains_key("chat"@),
        m.contains_key(name) ==> cfg.profiles@.contains_key(name) && m[name]@.len() > 0
            && m[name]@.len() == usable(backend_names(cfg.profiles@[name]), cfg.backends@).len(),
        cfg.profiles@.contains_key(name) && 0 <= i < backend_names(cfg.profiles@[name]).len()
            && cfg.backends@.contains_key(backend_names(cfg.profiles@[name])[i])
            ==> m.contains_key(name),
{
    assert(cfg.builds("chat"@));
    if cfg.profiles@.contains_key(name) && 0 <= i < backend_names(cfg.profiles@[name]).len()
        && cfg.backends@.contains_key(backend_names(cfg.profiles@[name])[i]) {
        law_profiles_with_a_backend_are_built(cfg, name, i);
        assert(cfg.builds(name));
    }
    if m.contains_key(name) {
        assert(cfg.builds(name));
        let _ = m[name];
    }
}

} // verus!
