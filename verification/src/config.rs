//! ghostreelite configuration: managed repos, scan directories and the remote.
use vstd::prelude::*;

pub use crate::ghostty_lib::remote::RemoteConfig;
use crate::ghostty_lib::remote::{RemoteView, copy_opt, copy_strings, opt_view};
use crate::text::{chars_of, split_chars, split_on, str_views, string_of, trim, trim_chars, views};

verus! {

/// A repo to manage, on this machine or on a remote.
pub struct RepoConfig {
    pub path: String,
    pub remote: Option<RemoteConfig>,
}

/// The model of a [`RepoConfig`].
pub struct RepoView {
    pub path: Seq<char>,
    pub remote: Option<RemoteView>,
}

/// The model of an optional remote.
pub open spec fn opt_remote(r: Option<RemoteConfig>) -> Option<RemoteView> {
    match r {
        Some(rc) => Some(rc@),
        None => None,
    }
}

impl View for RepoConfig {
    type V = RepoView;

    open spec fn view(&self) -> RepoView {
        RepoView { path: self.path@, remote: opt_remote(self.remote) }
    }
}

/// A copy of an optional remote.
pub fn copy_remote(r: &Option<RemoteConfig>) -> (c: Option<RemoteConfig>)
    ensures
        opt_remote(c) == opt_remote(*r),
{
    match r {
        Some(rc) => Some(rc.duplicate()),
        None => None,
    }
}

impl RepoConfig {
    /// A copy with the same contents.
    pub fn duplicate(&self) -> (r: RepoConfig)
        ensures
            r@ == self@,
    {
        RepoConfig { path: self.path.clone(), remote: copy_remote(&self.remote) }
    }
}

/// The models of a list of repos.
pub open spec fn repo_views(v: Seq<RepoConfig>) -> Seq<RepoView> {
    v.map_values(|r: RepoConfig| r@)
}

/// The configuration.
pub struct Config {
    /// Explicit repos to manage
    pub repos: Vec<RepoConfig>,
    /// Directories to scan for git repos with worktrees (e.g., ["~/Code"])
    pub scan_dirs: Vec<String>,
    pub default_agent: Option<String>,
    pub default_shell: Option<String>,
    pub remote: Option<RemoteConfig>,
    pub split_direction: String,
}

/// The model of a [`Config`].
pub struct ConfigView {
    pub repos: Seq<RepoView>,
    pub scan_dirs: Seq<Seq<char>>,
    pub default_agent: Option<Seq<char>>,
    pub default_shell: Option<Seq<char>>,
    pub remote: Option<RemoteView>,
    pub split_direction: Seq<char>,
}

impl View for Config {
    type V = ConfigView;

    open spec fn view(&self) -> ConfigView {
        ConfigView {
            repos: repo_views(self.repos@),
            scan_dirs: str_views(self.scan_dirs@),
            default_agent: opt_view(self.default_agent),
            default_shell: opt_view(self.default_shell),
            remote: opt_remote(self.remote),
            split_direction: self.split_direction@,
        }
    }
}

impl Default for Config {
    /// No repos, no scan directories, no remote, and every text field empty.
    fn default() -> (c: Self)
        ensures
            c@ == (ConfigView {
                repos: Seq::empty(),
                scan_dirs: Seq::empty(),
                default_agent: None,
                default_shell: None,
                remote: None,
                split_direction: Seq::empty(),
            }),
    {
        let c = Config {
            repos: Vec::new(),
            scan_dirs: Vec::new(),
            default_agent: None,
            default_shell: None,
            remote: None,
            split_direction: String::new(),
        };
        assert(c@.repos =~= Seq::<RepoView>::empty());
        assert(c@.scan_dirs =~= Seq::<Seq<char>>::empty());
        c
    }
}

/// The remote a repo is reached through: its own, else the global one.
pub open spec fn effective_remote_of(c: ConfigView, repo: RepoView) -> Option<RemoteView> {
    match repo.remote {
        Some(r) => Some(r),
        None => c.remote,
    }
}

impl Config {
    /// Get the effective remote for a repo (repo-level overrides global)
    pub fn effective_remote<'a>(&'a self, repo: &'a RepoConfig) -> (r: Option<&'a RemoteConfig>)
        ensures
            match r {
                Some(rc) => effective_remote_of(self@, repo@) == Some(rc@),
                None => effective_remote_of(self@, repo@) is None,
            },
    {
        match &repo.remote {
            Some(r) => Some(r),
            None => match &self.remote {
                Some(r) => Some(r),
                None => None,
            },
        }
    }

    /// The configuration directory, under the system's configuration
    /// directory `base`.
    pub fn config_dir(base: &str) -> (r: String)
        ensures
            r@ == path_joined(base@, "ghostreelite"@),
    {
        join_path(base, "ghostreelite")
    }

    /// The configuration file, under the system's configuration directory `base`.
    pub fn config_path(base: &str) -> (r: String)
        ensures
            r@ == path_joined(path_joined(base@, "ghostreelite"@), "config.json"@),
    {
        let dir = Config::config_dir(base);
        join_path(dir.as_str(), "config.json")
    }
}

/// `Path::join` with a relative name: the name alone under an empty base, else
/// the base and the name with one `/` between them.
pub open spec fn path_joined(base: Seq<char>, name: Seq<char>) -> Seq<char> {
    if base.len() == 0 {
        name
    } else if base.last() == '/' {
        base + name
    } else {
        base + "/"@ + name
    }
}

/// `Path::join` of a relative name.
pub fn join_path(base: &str, name: &str) -> (r: String)
    ensures
        r@ == path_joined(base@, name@),
{
    let b = chars_of(base);
    let mut r = String::from_str(base);
    if b.len() > 0 && b[b.len() - 1] != '/' {
        r.append("/");
    }
    r.append(name);
    r
}

/// A comma-separated list: the pieces trimmed, empty ones dropped.
pub open spec fn comma_list(value: Seq<char>) -> Seq<Seq<char>> {
    split_on(value, ',').map_values(|p: Seq<char>| trim(p)).filter(|p: Seq<char>| p.len() > 0)
}

/// Splits a comma-separated list, trimming each piece and dropping empty ones.
pub fn parse_comma_list(value: &str) -> (r: Vec<String>)
    ensures
        str_views(r@) == comma_list(value@),
{
    let pieces = split_chars(&chars_of(value), ',');
    let ghost trimmed = views(pieces@).map_values(|p: Seq<char>| trim(p));
    let ghost pred = |p: Seq<char>| p.len() > 0;
    let mut r: Vec<String> = Vec::new();
    let mut i: usize = 0;
    proof {
        reveal(Seq::filter);
        assert(trimmed.take(0) =~= Seq::<Seq<char>>::empty());
        assert(str_views(r@) =~= trimmed.take(0).filter(pred));
    }
    while i < pieces.len()
        invariant
            i <= pieces@.len(),
            trimmed == views(pieces@).map_values(|p: Seq<char>| trim(p)),
            pred == (|p: Seq<char>| p.len() > 0),
            str_views(r@) == trimmed.take(i as int).filter(pred),
        decreases pieces.len() - i,
    {
        proof {
            crate::sort::lemma_filter_push(trimmed.take(i as int), trimmed[i as int], pred);
            assert(trimmed.take(i + 1) =~= trimmed.take(i as int).push(trimmed[i as int]));
        }
        let t = trim_chars(&pieces[i]);
        if t.len() > 0 {
            let ghost before = str_views(r@);
            r.push(string_of(&t));
            assert(str_views(r@) =~= before.push(trimmed[i as int]));
        }
        i = i + 1;
    }
    assert(trimmed.take(i as int) =~= trimmed);
    r
}

/// A remote with no host, no user, no scan directories, over ssh: what a
/// setting of the remote starts from when none is configured.
pub open spec fn blank_remote() -> RemoteView {
    RemoteView { host: Seq::empty(), user: None, scan_dirs: Seq::empty(), transport: "ssh"@ }
}

/// The configured remote, or a blank one.
pub open spec fn remote_or_blank(c: ConfigView) -> RemoteView {
    match c.remote {
        Some(r) => r,
        None => blank_remote(),
    }
}

/// The configuration after `config set <key> <value>`; `None` for an unknown key.
pub open spec fn with_setting(c: ConfigView, key: Seq<char>, value: Seq<char>) -> Option<ConfigView> {
    let r = remote_or_blank(c);
    if key == "remote.host"@ {
        Some(ConfigView { remote: Some(RemoteView { host: value, ..r }), ..c })
    } else if key == "remote.user"@ {
        Some(ConfigView { remote: Some(RemoteView { user: Some(value), ..r }), ..c })
    } else if key == "remote.transport"@ {
        Some(ConfigView { remote: Some(RemoteView { transport: value, ..r }), ..c })
    } else if key == "remote.scan_dirs"@ {
        Some(ConfigView { remote: Some(RemoteView { scan_dirs: comma_list(value), ..r }), ..c })
    } else if key == "split_direction"@ {
        Some(ConfigView { split_direction: value, ..c })
    } else if key == "default_agent"@ {
        Some(ConfigView { default_agent: Some(value), ..c })
    } else if key == "default_shell"@ {
        Some(ConfigView { default_shell: Some(value), ..c })
    } else if key == "scan_dirs"@ {
        Some(ConfigView { scan_dirs: comma_list(value), ..c })
    } else {
        None
    }
}

/// The remote to change: the configured one, created blank when missing.
fn remote_mut(config: &mut Config)
    ensures
        final(config).remote is Some,
        final(config)@.remote == Some(remote_or_blank(old(config)@)),
        final(config)@ == (ConfigView { remote: final(config)@.remote, ..old(config)@ }),
{
    if config.remote.is_none() {
        let r = RemoteConfig::with_host(String::new());
        config.remote = Some(r);
        assert(config@.remote->0 == blank_remote());
    }
    assert(config@ == (ConfigView { remote: config@.remote, ..old(config)@ }));
}

impl Config {
    /// Sets a config value (`config set <key> <value>`); an unknown key is an
    /// error and changes nothing.
    pub fn apply_setting(&mut self, key: &str, value: &str) -> (r: Result<(), String>)
        ensures
            match with_setting(old(self)@, key@, value@) {
                Some(c) => r is Ok && final(self)@ == c,
                None => r is Err && r->Err_0@ == "unknown config key: "@ + key@ && final(self)@ == old(self)@,
            },
    {
        if crate::text::str_eq(key, "remote.host") {
            remote_mut(self);
            let mut r = self.remote.take().unwrap();
            r.host = String::from_str(value);
            self.remote = Some(r);
        } else if crate::text::str_eq(key, "remote.user") {
            remote_mut(self);
            let mut r = self.remote.take().unwrap();
            r.user = Some(String::from_str(value));
            self.remote = Some(r);
        } else if crate::text::str_eq(key, "remote.transport") {
            remote_mut(self);
            let mut r = self.remote.take().unwrap();
            r.transport = String::from_str(value);
            self.remote = Some(r);
        } else if crate::text::str_eq(key, "remote.scan_dirs") {
            remote_mut(self);
            let mut r = self.remote.take().unwrap();
            r.scan_dirs = parse_comma_list(value);
            self.remote = Some(r);
        } else if crate::text::str_eq(key, "split_direction") {
            self.split_direction = String::from_str(value);
        } else if crate::text::str_eq(key, "default_agent") {
            self.default_agent = Some(String::from_str(value));
        } else if crate::text::str_eq(key, "default_shell") {
            self.default_shell = Some(String::from_str(value));
        } else if crate::text::str_eq(key, "scan_dirs") {
            self.scan_dirs = parse_comma_list(value);
        } else {
            let mut e = String::from_str("unknown config key: ");
            e.append(key);
            return Err(e);
        }
        Ok(())
    }

    /// Starts tracking the repo at `path` (on remote `remote_host` when
    /// given); `false`, with nothing changed, when a repo with that path is
    /// already tracked.
    pub fn add_repo(&mut self, path: String, remote_host: Option<String>) -> (added: bool)
        ensures
            added == !old(self)@.repos.map_values(|r: RepoView| r.path).contains(path@),
            added ==> final(self)@ == (ConfigView {
                repos: old(self)@.repos.push(
                    RepoView {
                        path: path@,
                        remote: match remote_host {
                            Some(h) => Some(
                                RemoteView {
                                    host: h@,
                                    user: None,
                                    scan_dirs: Seq::empty(),
                                    transport: "ssh"@,
                                },
                            ),
                            None => None,
                        },
                    },
                ),
                ..old(self)@
            }),
            !added ==> final(self)@ == old(self)@,
    {
        let mut i: usize = 0;
        while i < self.repos.len()
            invariant
                i <= self.repos@.len(),
                forall|j: int| 0 <= j < i ==> (#[trigger] self.repos@[j]).path@ != path@,
            decreases self.repos.len() - i,
        {
            if crate::text::str_eq(self.repos[i].path.as_str(), path.as_str()) {
                assert(self@.repos.map_values(|r: RepoView| r.path)[i as int] == path@);
                return false;
            }
            i = i + 1;
        }
        proof {
            let ps = self@.repos.map_values(|r: RepoView| r.path);
            if ps.contains(path@) {
                let j = choose|j: int| 0 <= j < ps.len() && #[trigger] ps[j] == path@;
                assert(self.repos@[j].path@ == path@);
            }
        }
        let remote = match remote_host {
            Some(h) => Some(RemoteConfig::with_host(h)),
            None => None,
        };
        let ghost old_repos = repo_views(self.repos@);
        let repo = RepoConfig { path, remote };
        let ghost rv = repo@;
        self.repos.push(repo);
        assert(repo_views(self.repos@) =~= old_repos.push(rv));
        true
    }

    /// Stops tracking every repo with path `path`; `false` when none was tracked.
    pub fn remove_repo(&mut self, path: &str) -> (removed: bool)
        ensures
            final(self)@ == (ConfigView {
                repos: old(self)@.repos.filter(|r: RepoView| r.path != path@),
                ..old(self)@
            }),
            removed == (final(self)@.repos.len() != old(self)@.repos.len()),
            removed == old(self)@.repos.map_values(|r: RepoView| r.path).contains(path@),
    {
        let ghost pred = |r: RepoView| r.path != path@;
        let ghost ov = repo_views(self.repos@);
        let mut kept: Vec<RepoConfig> = Vec::new();
        let mut old_repos: Vec<RepoConfig> = Vec::new();
        std::mem::swap(&mut old_repos, &mut self.repos);
        assert(repo_views(old_repos@) == ov);
        let before_len = old_repos.len();
        proof {
            reveal(Seq::filter);
            assert(ov.take(0) =~= Seq::<RepoView>::empty());
            assert(repo_views(kept@) =~= ov.take(0).filter(pred));
        }
        let ghost mut n: int = 0;
        let ghost orig = old_repos@;
        assert(orig.skip(0) =~= orig);
        while old_repos.len() > 0
            invariant
                0 <= n <= orig.len(),
                before_len == orig.len(),
                old_repos@ == orig.skip(n),
                ov == repo_views(orig),
                pred == (|r: RepoView| r.path != path@),
                repo_views(kept@) == ov.take(n).filter(pred),
            decreases old_repos.len(),
        {
            let repo = old_repos.remove(0);
            assert(repo == orig[n]);
            assert(old_repos@ =~= orig.skip(n + 1));
            proof {
                crate::sort::lemma_filter_push(ov.take(n), ov[n], pred);
                assert(ov.take(n + 1) =~= ov.take(n).push(ov[n]));
            }
            if !crate::text::str_eq(repo.path.as_str(), path) {
                let ghost before = repo_views(kept@);
                kept.push(repo);
                assert(repo_views(kept@) =~= before.push(ov[n]));
            }
            proof {
                n = n + 1;
            }
        }
        assert(ov.take(n) =~= ov);
        let removed = kept.len() != before_len;
        self.repos = kept;
        proof {
            lemma_filter_len_contains(ov, path@);
        }
        removed
    }
}

/// Filtering out the repos with path `p` shortens the list exactly when one has it.
pub proof fn lemma_filter_len_contains(s: Seq<RepoView>, p: Seq<char>)
    ensures
        (s.filter(|r: RepoView| r.path != p).len() != s.len()) == s.map_values(|r: RepoView| r.path).contains(p),
    decreases s.len(),
{
    reveal(Seq::filter);
    let pred = |r: RepoView| r.path != p;
    if s.len() > 0 {
        lemma_filter_len_contains(s.drop_last(), p);
        s.drop_last().lemma_filter_len(pred);
        let ps = s.map_values(|r: RepoView| r.path);
        let pd = s.drop_last().map_values(|r: RepoView| r.path);
        assert(ps.drop_last() =~= pd);
        assert(s.filter(pred) == (if pred(s.last()) {
            s.drop_last().filter(pred).push(s.last())
        } else {
            s.drop_last().filter(pred)
        }));
        assert(ps.last() == s.last().path);
        if pd.contains(p) {
            let j = choose|j: int| 0 <= j < pd.len() && #[trigger] pd[j] == p;
            assert(ps[j] == p);
        }
        if ps.contains(p) && !pd.contains(p) {
            let j = choose|j: int| 0 <= j < ps.len() && #[trigger] ps[j] == p;
            if j < pd.len() {
                assert(pd[j] == p);
            }
        }
    } else {
        assert(s.map_values(|r: RepoView| r.path) =~= Seq::<Seq<char>>::empty());
    }
}

// ---------------------------------------------------------------------------
// Reading settings back
// ---------------------------------------------------------------------------

/// The keys that `config set` takes.
pub open spec fn is_setting_key(k: Seq<char>) -> bool {
    ||| k == "remote.host"@
    ||| k == "remote.user"@
    ||| k == "remote.transport"@
    ||| k == "remote.scan_dirs"@
    ||| k == "split_direction"@
    ||| k == "default_agent"@
    ||| k == "default_shell"@
    ||| k == "scan_dirs"@
}

/// The keys that name a field of the remote.
pub open spec fn is_remote_key(k: Seq<char>) -> bool {
    k == "remote.host"@ || k == "remote.user"@ || k == "remote.transport"@ || k == "remote.scan_dirs"@
}

/// The keys whose value is kept as the text given.
pub open spec fn is_text_key(k: Seq<char>) -> bool {
    is_setting_key(k) && k != "remote.scan_dirs"@ && k != "scan_dirs"@
}

/// The text a text-valued setting holds, if any.
pub open spec fn setting_of(c: ConfigView, k: Seq<char>) -> Option<Seq<char>> {
    if k == "remote.host"@ {
        match c.remote {
            Some(r) => Some(r.host),
            None => None,
        }
    } else if k == "remote.user"@ {
        match c.remote {
            Some(r) => r.user,
            None => None,
        }
    } else if k == "remote.transport"@ {
        match c.remote {
            Some(r) => Some(r.transport),
            None => None,
        }
    } else if k == "split_direction"@ {
        Some(c.split_direction)
    } else if k == "default_agent"@ {
        c.default_agent
    } else if k == "default_shell"@ {
        c.default_shell
    } else {
        None
    }
}

/// The scan directories a list-valued setting holds.
pub open spec fn dirs_of(c: ConfigView, k: Seq<char>) -> Seq<Seq<char>> {
    if k == "scan_dirs"@ {
        c.scan_dirs
    } else {
        match c.remote {
            Some(r) => r.scan_dirs,
            None => Seq::empty(),
        }
    }
}

/// `config set k v` succeeds exactly for the known keys; after it, a text
/// setting `k` reads back as `v` and a list setting as the trimmed,
/// non-empty comma-separated pieces of `v`; the tracked repos and every
/// other setting are left as they were (the other remote fields too, when a
/// remote was configured; without one, the remote starts out blank).
pub proof fn law_setting_reads_back(c: ConfigView, k: Seq<char>, v: Seq<char>, other: Seq<char>)
    ensures
        with_setting(c, k, v) is Some <==> is_setting_key(k),
        with_setting(c, k, v) matches Some(c2) ==> {
            &&& c2.repos == c.repos
            &&& (is_text_key(k) ==> setting_of(c2, k) == Some(v))
            &&& (k == "scan_dirs"@ || k == "remote.scan_dirs"@) ==> dirs_of(c2, k) == comma_list(v)
            &&& (other != k && !(is_remote_key(k) && is_remote_key(other) && c.remote is None))
                ==> setting_of(c2, other) == setting_of(c, other)
            &&& (other != k && (other == "scan_dirs"@ || c.remote is Some) && (other == "scan_dirs"@
                || other == "remote.scan_dirs"@)) ==> dirs_of(c2, other) == dirs_of(c, other)
            &&& (is_remote_key(k) && c.remote is None) ==> ({
                let r = c2.remote->0;
                &&& k != "remote.host"@ ==> r.host == Seq::<char>::empty()
                &&& k != "remote.user"@ ==> r.user is None
                &&& k != "remote.transport"@ ==> r.transport == "ssh"@
                &&& k != "remote.scan_dirs"@ ==> r.scan_dirs == Seq::<Seq<char>>::empty()
            })
        },
{
    reveal_strlit("remote.host");
    reveal_strlit("remote.user");
    reveal_strlit("remote.transport");
    reveal_strlit("remote.scan_dirs");
    reveal_strlit("split_direction");
    reveal_strlit("default_agent");
    reveal_strlit("default_shell");
    reveal_strlit("scan_dirs");
    assert("remote.host"@ != "remote.user"@) by {
        assert("remote.host"@[7] != "remote.user"@[7]);
    }
    assert("default_agent"@ != "default_shell"@) by {
        assert("default_agent"@[8] != "default_shell"@[8]);
    }
    assert("remote.transport"@ != "remote.scan_dirs"@) by {
        assert("remote.transport"@[7] != "remote.scan_dirs"@[7]);
    }
    assert("remote.host"@.len() == 11 && "remote.user"@.len() == 11);
    assert("remote.transport"@.len() == 16 && "remote.scan_dirs"@.len() == 16);
    assert("split_direction"@.len() == 15 && "scan_dirs"@.len() == 9);
    assert("default_agent"@.len() == 13 && "default_shell"@.len() == 13);
}

} // verus!
