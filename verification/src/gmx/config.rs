//! gmx configuration (remotes and defaults) and the session registry.
use vstd::prelude::*;

use crate::ghostty_lib::remote::{RemoteConfig, RemoteView, copy_opt, opt_view};
use crate::config::{join_path, path_joined};
use crate::strmap::StrMap;

verus! {

/// gmx config: remotes and defaults.
pub struct GmxConfig {
    pub default_split_direction: String,
    pub remotes: StrMap<RemoteConfig>,
}

/// The split direction used when none is configured.
pub fn default_split_direction() -> (r: String)
    ensures
        r@ == "right"@,
{
    String::from_str("right")
}

/// The models of the configured remotes, by name.
pub open spec fn remotes_view(m: Map<Seq<char>, RemoteConfig>) -> Map<Seq<char>, RemoteView> {
    m.map_values(|r: RemoteConfig| r@)
}

impl GmxConfig {
    /// The gmx configuration directory, under the system's configuration
    /// directory `base`.
    pub fn config_dir(base: &str) -> (r: String)
        ensures
            r@ == path_joined(base@, "gmx"@),
    {
        join_path(base, "gmx")
    }

    /// The gmx configuration file, under the system's configuration directory `base`.
    pub fn config_path(base: &str) -> (r: String)
        ensures
            r@ == path_joined(path_joined(base@, "gmx"@), "config.json"@),
    {
        join_path(GmxConfig::config_dir(base).as_str(), "config.json")
    }

    /// The remotes by name.
    pub open spec fn remote_map(&self) -> Map<Seq<char>, RemoteView> {
        remotes_view(self.remotes@)
    }

    /// The configured remote with this name.
    pub fn get_remote(&self, name: &str) -> (r: Option<&RemoteConfig>)
        ensures
            match r {
                Some(rc) => self.remotes@.contains_key(name@) && *rc == self.remotes@[name@],
                None => !self.remotes@.contains_key(name@),
            },
    {
        self.remotes.get(name)
    }

    /// Adds or replaces the remote `name`.
    pub fn set_remote(&mut self, name: String, remote: RemoteConfig)
        ensures
            final(self).remotes@ == old(self).remotes@.insert(name@, remote),
            final(self).default_split_direction@ == old(self).default_split_direction@,
    {
        self.remotes.insert(name, remote);
    }
}

impl Default for GmxConfig {
    fn default() -> (c: Self)
        ensures
            c.default_split_direction@ == "right"@,
            c.remotes@ == Map::<Seq<char>, RemoteConfig>::empty(),
    {
        GmxConfig { default_split_direction: default_split_direction(), remotes: StrMap::new() }
    }
}

/// What the registry records of a session.
pub struct SessionEntry {
    pub remote: Option<String>,
    pub dir: String,
}

/// The model of a [`SessionEntry`].
pub struct EntryView {
    pub remote: Option<Seq<char>>,
    pub dir: Seq<char>,
}

impl View for SessionEntry {
    type V = EntryView;

    open spec fn view(&self) -> EntryView {
        EntryView { remote: opt_view(self.remote), dir: self.dir@ }
    }
}

impl SessionEntry {
    /// A copy with the same contents.
    pub fn duplicate(&self) -> (r: SessionEntry)
        ensures
            r@ == self@,
    {
        SessionEntry { remote: copy_opt(&self.remote), dir: self.dir.clone() }
    }
}

/// The entry that `register` records for a remote name and directory.
pub open spec fn entry_of(remote: Option<Seq<char>>, dir: Seq<char>) -> EntryView {
    EntryView { remote, dir }
}

/// The characters of an optional string slice.
pub open spec fn opt_str(o: Option<&str>) -> Option<Seq<char>> {
    match o {
        Some(s) => Some(s@),
        None => None,
    }
}

/// Session registry: maps session name -> metadata (remote, dir).
/// This stores only what can't be derived from zmx.
pub struct SessionRegistry {
    pub sessions: StrMap<SessionEntry>,
}

impl SessionRegistry {
    /// The session registry file, under the system's configuration directory `base`.
    pub fn registry_path(base: &str) -> (r: String)
        ensures
            r@ == path_joined(path_joined(base@, "gmx"@), "sessions.json"@),
    {
        join_path(GmxConfig::config_dir(base).as_str(), "sessions.json")
    }

    /// The entries by session name.
    pub open spec fn entries(&self) -> Map<Seq<char>, EntryView> {
        self.sessions@.map_values(|e: SessionEntry| e@)
    }

    /// An empty registry.
    pub fn new() -> (r: Self)
        ensures
            r.entries() == Map::<Seq<char>, EntryView>::empty(),
    {
        let r = SessionRegistry { sessions: StrMap::new() };
        assert(r.entries() =~= Map::<Seq<char>, EntryView>::empty());
        r
    }

    /// Records (or replaces) the remote and directory of session `name`.
    pub fn register(&mut self, name: &str, remote: Option<&str>, dir: &str)
        ensures
            final(self).entries() == old(self).entries().insert(name@, entry_of(opt_str(remote), dir@)),
    {
        let entry = SessionEntry {
            remote: match remote {
                Some(s) => Some(String::from_str(s)),
                None => None,
            },
            dir: String::from_str(dir),
        };
        self.sessions.insert(String::from_str(name), entry);
        assert(self.entries() =~= old(self).entries().insert(name@, entry_of(opt_str(remote), dir@)));
    }

    /// Records `entry` under `name`, replacing what was there.
    pub fn insert(&mut self, name: &str, entry: SessionEntry)
        ensures
            final(self).entries() == old(self).entries().insert(name@, entry@),
    {
        let ghost e = entry@;
        self.sessions.insert(String::from_str(name), entry);
        assert(self.entries() =~= old(self).entries().insert(name@, e));
    }

    /// The entry of session `name`.
    pub fn get(&self, name: &str) -> (r: Option<&SessionEntry>)
        ensures
            match r {
                Some(e) => self.entries().contains_key(name@) && e@ == self.entries()[name@],
                None => !self.entries().contains_key(name@),
            },
    {
        self.sessions.get(name)
    }

    /// Forgets session `name`.
    pub fn remove(&mut self, name: &str)
        ensures
            final(self).entries() == old(self).entries().remove(name@),
    {
        self.sessions.remove(name);
        assert(self.entries() =~= old(self).entries().remove(name@));
    }
}

impl Default for SessionRegistry {
    fn default() -> (r: Self)
        ensures
            r.entries() == Map::<Seq<char>, EntryView>::empty(),
    {
        SessionRegistry::new()
    }
}

/// After `register(name, remote, dir)`, looking up `name` gives that remote
/// and directory, and every other name keeps the entry it had.
pub proof fn law_register_then_get(
    before: Map<Seq<char>, EntryView>,
    name: Seq<char>,
    remote: Option<Seq<char>>,
    dir: Seq<char>,
    other: Seq<char>,
)
    requires
        other != name,
    ensures
        before.insert(name, entry_of(remote, dir)).contains_key(name),
        before.insert(name, entry_of(remote, dir))[name] == entry_of(remote, dir),
        before.insert(name, entry_of(remote, dir)).contains_key(other) == before.contains_key(other),
        before.contains_key(other) ==> before.insert(name, entry_of(remote, dir))[other] == before[other],
{
}

/// Registering a name twice keeps only the second remote and directory.
pub proof fn law_register_overwrites(
    before: Map<Seq<char>, EntryView>,
    name: Seq<char>,
    first: EntryView,
    second: EntryView,
)
    ensures
        before.insert(name, first).insert(name, second) == before.insert(name, second),
{
    assert(before.insert(name, first).insert(name, second) =~= before.insert(name, second));
}

/// After `remove(name)` the name has no entry, and every other name keeps its entry.
pub proof fn law_remove_then_get(before: Map<Seq<char>, EntryView>, name: Seq<char>, other: Seq<char>)
    requires
        other != name,
    ensures
        !before.remove(name).contains_key(name),
        before.remove(name).contains_key(other) == before.contains_key(other),
        before.contains_key(other) ==> before.remove(name)[other] == before[other],
{
}

} // verus!
