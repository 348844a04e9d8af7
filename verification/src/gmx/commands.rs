//! The decisions behind the gmx commands: which remote and directory a
//! session uses, which sessions exist, and the scripts that open its panes.
use vstd::prelude::*;

use crate::ghostty_lib::ghostty::{
    config_block_of, create_tab_with_config, env_views, interactive_command, opt_str_view,
    remote_view, split_with_config, split_with_config_script, tab_with_config_script,
};
use crate::ghostty_lib::remote::{RemoteConfig, RemoteView};
use crate::ghostty_lib::zmx::{ZmxSession, file_name, path_file_name};
use crate::gmx::config::{EntryView, GmxConfig, SessionEntry, SessionRegistry};
use crate::gmx::session::{build_zmx_command, discover_sessions, group_names_of, group_of, has_group, member_of};
use crate::sort::{lex_lt, stable_sort_str};
use crate::text::{chars_of, chars_strip_prefix, dec, dec_string, str_views, string_of, strip_prefix};

verus! {

// ---------------------------------------------------------------------------
// Remotes
// ---------------------------------------------------------------------------

/// The error for a remote that is not configured.
pub open spec fn missing_remote_msg(name: Seq<char>) -> Seq<char> {
    "remote '"@ + name + "' not found in gmx config. Add it with: gmx config remote "@ + name
        + " <host>"@
}

/// Looks up the remote `name` (none asked for: none used); an unknown name
/// is an error that says how to add it.
pub fn resolve_remote(config: &GmxConfig, name: Option<&str>) -> (r: Result<Option<RemoteConfig>, String>)
    ensures
        match r {
            Ok(Some(rc)) => name is Some && config.remotes@.contains_key(name->0@) && rc@
                == config.remote_map()[name->0@],
            Ok(None) => name is None,
            Err(e) => name is Some && !config.remotes@.contains_key(name->0@) && e@ == missing_remote_msg(
                name->0@,
            ),
        },
{
    match name {
        Some(n) => match config.get_remote(n) {
            Some(rc) => Ok(Some(rc.duplicate())),
            None => {
                let mut e = String::from_str("remote '");
                e.append(n);
                e.append("' not found in gmx config. Add it with: gmx config remote ");
                e.append(n);
                e.append(" <host>");
                Err(e)
            },
        },
        None => Ok(None),
    }
}

/// The remote of a registered session: the one its entry names, if any.
pub fn entry_remote(config: &GmxConfig, entry: &SessionEntry) -> (r: Result<Option<RemoteConfig>, String>)
    ensures
        match r {
            Ok(Some(rc)) => entry@.remote is Some && config.remotes@.contains_key(entry@.remote->0) && rc@
                == config.remote_map()[entry@.remote->0],
            Ok(None) => entry@.remote is None,
            Err(e) => entry@.remote is Some && !config.remotes@.contains_key(entry@.remote->0) && e@
                == missing_remote_msg(entry@.remote->0),
        },
{
    match &entry.remote {
        Some(n) => resolve_remote(config, Some(n.as_str())),
        None => Ok(None),
    }
}

/// Adds or updates a remote from `gmx config remote <name> <host>`.
pub fn configure_remote(config: &mut GmxConfig, name: String, host: String, user: Option<String>, transport: String)
    ensures
        final(config).remote_map() == old(config).remote_map().insert(
            name@,
            RemoteView {
                host: host@,
                user: crate::ghostty_lib::remote::opt_view(user),
                scan_dirs: Seq::empty(),
                transport: transport@,
            },
        ),
        final(config).default_split_direction@ == old(config).default_split_direction@,
{
    let ghost (n, h, u, t) = (name@, host@, crate::ghostty_lib::remote::opt_view(user), transport@);
    let remote = RemoteConfig { host, user, scan_dirs: Vec::new(), transport };
    assert(remote@.scan_dirs =~= Seq::<Seq<char>>::empty());
    config.set_remote(name, remote);
    assert(config.remote_map() =~= old(config).remote_map().insert(
        n,
        RemoteView { host: h, user: u, scan_dirs: Seq::empty(), transport: t },
    ));
}

// ---------------------------------------------------------------------------
// Names and directories
// ---------------------------------------------------------------------------

/// The session name used when none is given: the name of the current
/// directory, or `gmx` when it has none.
pub open spec fn auto_name(cwd: Option<Seq<char>>) -> Seq<char> {
    match cwd {
        Some(c) => match file_name(c) {
            Some(f) => f,
            None => "gmx"@,
        },
        None => "gmx"@,
    }
}

/// Use current directory name as session name, like tmux uses window names.
pub fn auto_session_name(cwd: Option<&str>) -> (r: String)
    ensures
        r@ == auto_name(opt_str_view(cwd)),
{
    match cwd {
        Some(c) => match path_file_name(c) {
            Some(f) => f,
            None => String::from_str("gmx"),
        },
        None => String::from_str("gmx"),
    }
}

/// The working directory of a new session: the one given; else the current
/// directory, which a remote session cannot use.
pub open spec fn working_dir_of(dir: Option<Seq<char>>, remote: bool, cwd: Option<Seq<char>>) -> Result<
    Seq<char>,
    Seq<char>,
> {
    match dir {
        Some(d) => Ok(d),
        None => if remote {
            Err("--dir is required for remote sessions"@)
        } else {
            match cwd {
                Some(c) => Ok(c),
                None => Err("failed to get current directory"@),
            }
        },
    }
}

/// Default working directory: current directory for local, or require --dir for remote.
pub fn session_working_dir(dir: Option<&str>, remote: bool, cwd: Option<&str>) -> (r: Result<String, String>)
    ensures
        match r {
            Ok(d) => working_dir_of(opt_str_view(dir), remote, opt_str_view(cwd)) == Ok::<
                Seq<char>,
                Seq<char>,
            >(d@),
            Err(e) => working_dir_of(opt_str_view(dir), remote, opt_str_view(cwd)) == Err::<
                Seq<char>,
                Seq<char>,
            >(e@),
        },
{
    match dir {
        Some(d) => Ok(String::from_str(d)),
        None => {
            if remote {
                Err(String::from_str("--dir is required for remote sessions"))
            } else {
                match cwd {
                    Some(c) => Ok(String::from_str(c)),
                    None => Err(String::from_str("failed to get current directory")),
                }
            }
        },
    }
}

/// The error for a session that already has live zmx sessions.
pub open spec fn exists_msg(name: Seq<char>, count: nat) -> Seq<char> {
    "session '"@ + name + "' already exists ("@ + dec(count) + " zmx session(s)). Use 'gmx attach "@
        + name + "' to reattach."@
}

/// A new session must not have live zmx sessions yet.
pub fn check_new_session(name: &str, existing: &Vec<ZmxSession>) -> (r: Result<(), String>)
    ensures
        existing@.len() == 0 <==> r is Ok,
        r is Err ==> r->Err_0@ == exists_msg(name@, existing@.len()),
{
    if existing.len() == 0 {
        return Ok(());
    }
    let mut e = String::from_str("session '");
    e.append(name);
    e.append("' already exists (");
    e.append(dec_string(existing.len() as u128).as_str());
    e.append(" zmx session(s)). Use 'gmx attach ");
    e.append(name);
    e.append("' to reattach.");
    Err(e)
}

/// The zmx session of pane `idx` of session `name`: `name.idx`.
pub open spec fn pane_name_of(name: Seq<char>, idx: nat) -> Seq<char> {
    name + "."@ + dec(idx)
}

/// The zmx session name of pane `idx` of a gmx session.
pub fn pane_name(name: &str, idx: u64) -> (r: String)
    ensures
        r@ == pane_name_of(name@, idx as nat),
{
    let mut r = String::from_str(name);
    r.append(".");
    r.append(dec_string(idx as u128).as_str());
    r
}

/// The last `c` of `x + y`, when `x` ends with `c` and `y` holds none, is
/// the end of `x`.
proof fn lemma_find_last_at_join(x: Seq<char>, y: Seq<char>, c: char)
    requires
        x.len() > 0,
        x.last() == c,
        forall|i: int| 0 <= i < y.len() ==> y[i] != c,
    ensures
        crate::text::find_last(x + y, c) == Some(x.len() - 1),
    decreases y.len(),
{
    if y.len() == 0 {
        assert(x + y =~= x);
    } else {
        assert((x + y).drop_last() =~= x + y.drop_last());
        assert((x + y).last() == y.last());
        lemma_find_last_at_join(x, y.drop_last(), c);
    }
}

/// The zmx session of pane `i` of gmx session `name` belongs to that
/// session, and `gmx split` reads the pane's index back from its name.
pub proof fn law_pane_name_round_trip(name: Seq<char>, i: nat)
    ensures
        group_of(pane_name_of(name, i)) == name,
        pane_index_of(pane_name_of(name, i), name) == dec(i),
{
    reveal_strlit(".");
    crate::text::lemma_dec_digits(i);
    let d = dec(i);
    assert forall|k: int| 0 <= k < d.len() implies d[k] != '.' by {
        assert(crate::text::is_digit(d[k]));
    }
    let x = name + "."@;
    assert(pane_name_of(name, i) == x + d);
    lemma_find_last_at_join(x, d, '.');
    assert((x + d).skip(x.len() as int) =~= d);
    assert((x + d).take(name.len() as int) =~= name);
    assert((x + d).take(x.len() as int) =~= x);
}

/// The environment of a pane: `GMX_SESSION` and `GMX_IDX`.
pub open spec fn pane_env(name: Seq<char>, idx: Seq<char>) -> Seq<(Seq<char>, Seq<char>)> {
    seq![("GMX_SESSION"@, name), ("GMX_IDX"@, idx)]
}

/// The environment variables that tell a pane its session and index.
pub fn session_env(name: &str, idx: &str) -> (r: Vec<(String, String)>)
    ensures
        env_views(r@) == pane_env(name@, idx@),
{
    let mut v: Vec<(String, String)> = Vec::new();
    v.push((String::from_str("GMX_SESSION"), String::from_str(name)));
    v.push((String::from_str("GMX_IDX"), String::from_str(idx)));
    assert(env_views(v@) =~= pane_env(name@, idx@));
    v
}

/// The working directory a pane is opened in: the session's directory for a
/// local session; none for a remote one (the command changes directory there).
pub open spec fn local_dir_of(dir: Seq<char>, remote: Option<RemoteView>) -> Option<Seq<char>> {
    match remote {
        Some(_) => None,
        None => Some(dir),
    }
}

/// The script that opens a new session's first pane (`name.1`) in a new tab.
pub open spec fn new_tab_script_of(name: Seq<char>, dir: Seq<char>, remote: Option<RemoteView>) -> Seq<char> {
    tab_with_config_script(
        interactive_command(pane_name_of(name, 1), dir, remote),
        config_block_of(local_dir_of(dir, remote), pane_env(name, "1"@)),
    )
}

/// The AppleScript that opens a new session in a new Ghostty tab.
pub fn new_session_tab_script(name: &str, working_dir: &str, remote: Option<&RemoteConfig>) -> (r: String)
    ensures
        r@ == new_tab_script_of(name@, working_dir@, remote_view(remote)),
{
    let zmx_name = pane_name(name, 1);
    let command = build_zmx_command(zmx_name.as_str(), working_dir, remote);
    let env = session_env(name, "1");
    let local_wd = match remote {
        Some(_) => None,
        None => Some(working_dir),
    };
    proof {
        reveal_strlit("1");
        assert(dec(1) =~= "1"@);
    }
    create_tab_with_config(command.as_str(), local_wd, &env)
}

// ---------------------------------------------------------------------------
// Attaching
// ---------------------------------------------------------------------------

/// The error for a session missing from the registry, when attaching.
pub open spec fn unregistered_msg(name: Seq<char>) -> Seq<char> {
    "session '"@ + name + "' not found in registry. Create it with: gmx new "@ + name
}

/// The registry entry of a session to attach to.
pub fn attach_entry<'a>(registry: &'a SessionRegistry, name: &str) -> (r: Result<&'a SessionEntry, String>)
    ensures
        match r {
            Ok(e) => registry.entries().contains_key(name@) && e@ == registry.entries()[name@],
            Err(m) => !registry.entries().contains_key(name@) && m@ == unregistered_msg(name@),
        },
{
    match registry.get(name) {
        Some(e) => Ok(e),
        None => {
            let mut m = String::from_str("session '");
            m.append(name);
            m.append("' not found in registry. Create it with: gmx new ");
            m.append(name);
            Err(m)
        },
    }
}

/// The error for a session without live zmx sessions, when attaching.
pub open spec fn no_live_msg(name: Seq<char>) -> Seq<char> {
    "no live zmx sessions for '"@ + name + "'. Create with: gmx new "@ + name
}

/// Attaching needs at least one live zmx session.
pub fn check_live(name: &str, sessions: &Vec<ZmxSession>) -> (r: Result<(), String>)
    ensures
        sessions@.len() > 0 <==> r is Ok,
        r is Err ==> r->Err_0@ == no_live_msg(name@),
{
    if sessions.len() > 0 {
        return Ok(());
    }
    let mut m = String::from_str("no live zmx sessions for '");
    m.append(name);
    m.append("'. Create with: gmx new ");
    m.append(name);
    Err(m)
}

/// The script that opens pane `i` (counted from 0) of a session: a split of
/// the previous pane's terminal `prev` in `split_dir`, or a new tab when
/// there is no previous pane; either attaches to zmx session `zmx_name`
/// with `GMX_IDX` set to `i + 1`.
pub open spec fn pane_script_of(
    name: Seq<char>,
    dir: Seq<char>,
    remote: Option<RemoteView>,
    zmx_name: Seq<char>,
    split_dir: Seq<char>,
    i: nat,
    prev: Option<Seq<char>>,
) -> Seq<char> {
    let command = interactive_command(zmx_name, dir, remote);
    let config = config_block_of(local_dir_of(dir, remote), pane_env(name, dec(i + 1)));
    match prev {
        Some(p) => split_with_config_script(p, split_dir, command, config),
        None => tab_with_config_script(command, config),
    }
}

/// One step of recreating a session's layout: the AppleScript that opens
/// the pane of `sessions[i]`, next to the terminal `prev` opened before it
/// (or in a new tab for the first pane). Running it gives the new
/// terminal's id, which is `prev` for the next step.
pub fn attach_pane_script(
    name: &str,
    dir: &str,
    remote: Option<&RemoteConfig>,
    sessions: &Vec<ZmxSession>,
    split_dir: &str,
    i: usize,
    prev: Option<&str>,
) -> (r: String)
    requires
        i < sessions@.len(),
    ensures
        r@ == pane_script_of(
            name@,
            dir@,
            remote_view(remote),
            sessions@[i as int].name@,
            split_dir@,
            i as nat,
            opt_str_view(prev),
        ),
{
    let command = build_zmx_command(sessions[i].name.as_str(), dir, remote);
    let idx = dec_string(i as u128 + 1);
    let env = session_env(name, idx.as_str());
    let local_wd = match remote {
        Some(_) => None,
        None => Some(dir),
    };
    match prev {
        Some(p) => split_with_config(p, split_dir, command.as_str(), local_wd, &env),
        None => create_tab_with_config(command.as_str(), local_wd, &env),
    }
}

// ---------------------------------------------------------------------------
// Killing, splitting, renaming
// ---------------------------------------------------------------------------

/// The session to kill: the one named, else the current one (`GMX_SESSION`).
pub fn kill_target(name: Option<&str>, env_session: Option<&str>) -> (r: Result<String, String>)
    ensures
        match r {
            Ok(n) => n@ == (match name {
                Some(x) => x@,
                None => env_session->0@,
            }) && (name is Some || env_session is Some),
            Err(e) => name is None && env_session is None && e@
                == "no session name given and not inside a gmx session (GMX_SESSION not set)"@,
        },
{
    match name {
        Some(n) => Ok(String::from_str(n)),
        None => match env_session {
            Some(s) => Ok(String::from_str(s)),
            None => Err(
                String::from_str("no session name given and not inside a gmx session (GMX_SESSION not set)"),
            ),
        },
    }
}

/// The remote of a session to kill: the one its registry entry names; a
/// session missing from the registry is local.
pub fn registered_remote(config: &GmxConfig, registry: &SessionRegistry, name: &str) -> (r: Result<
    Option<RemoteConfig>,
    String,
>)
    ensures
        !registry.entries().contains_key(name@) ==> r is Ok && r->Ok_0 is None,
        registry.entries().contains_key(name@) ==> match r {
            Ok(Some(rc)) => registry.entries()[name@].remote is Some && config.remotes@.contains_key(
                registry.entries()[name@].remote->0,
            ) && rc@ == config.remote_map()[registry.entries()[name@].remote->0],
            Ok(None) => registry.entries()[name@].remote is None,
            Err(e) => registry.entries()[name@].remote is Some && !config.remotes@.contains_key(
                registry.entries()[name@].remote->0,
            ) && e@ == missing_remote_msg(registry.entries()[name@].remote->0),
        },
{
    match registry.get(name) {
        Some(entry) => entry_remote(config, entry),
        None => Ok(None),
    }
}

/// The session `gmx split` works in: `GMX_SESSION`, which only a gmx
/// session sets.
pub fn current_session(env_session: Option<&str>) -> (r: Result<String, String>)
    ensures
        match r {
            Ok(s) => env_session is Some && s@ == env_session->0@,
            Err(e) => env_session is None && e@
                == "not inside a gmx session (GMX_SESSION not set). Use 'gmx new' to create a session first."@,
        },
{
    match env_session {
        Some(s) => Ok(String::from_str(s)),
        None => Err(
            String::from_str(
                "not inside a gmx session (GMX_SESSION not set). Use 'gmx new' to create a session first.",
            ),
        ),
    }
}

/// The registry entry of the current session, when splitting.
pub fn split_entry<'a>(registry: &'a SessionRegistry, name: &str) -> (r: Result<&'a SessionEntry, String>)
    ensures
        match r {
            Ok(e) => registry.entries().contains_key(name@) && e@ == registry.entries()[name@],
            Err(m) => !registry.entries().contains_key(name@) && m@ == "session '"@ + name@
                + "' not found in registry"@,
        },
{
    match registry.get(name) {
        Some(e) => Ok(e),
        None => {
            let mut m = String::from_str("session '");
            m.append(name);
            m.append("' not found in registry");
            Err(m)
        },
    }
}

/// The pane index of zmx session `zmx_name` in session `session_name`: what
/// follows `session_name.`, or `1`.
pub open spec fn pane_index_of(zmx_name: Seq<char>, session_name: Seq<char>) -> Seq<char> {
    match strip_prefix(zmx_name, session_name + "."@) {
        Some(rest) => rest,
        None => "1"@,
    }
}

/// Extract index from zmx_name for env var.
pub fn pane_index(zmx_name: &str, session_name: &str) -> (r: String)
    ensures
        r@ == pane_index_of(zmx_name@, session_name@),
{
    let mut prefix = String::from_str(session_name);
    prefix.append(".");
    match chars_strip_prefix(&chars_of(zmx_name), &chars_of(prefix.as_str())) {
        Some(rest) => string_of(&rest),
        None => String::from_str("1"),
    }
}

/// The script that splits terminal `terminal_id` in `direction` with a new
/// pane attached to zmx session `zmx_name` of session `session_name`.
pub open spec fn split_pane_script_of(
    terminal_id: Seq<char>,
    direction: Seq<char>,
    session_name: Seq<char>,
    zmx_name: Seq<char>,
    dir: Seq<char>,
    remote: Option<RemoteView>,
) -> Seq<char> {
    split_with_config_script(
        terminal_id,
        direction,
        interactive_command(zmx_name, dir, remote),
        config_block_of(
            local_dir_of(dir, remote),
            pane_env(session_name, pane_index_of(zmx_name, session_name)),
        ),
    )
}

/// The AppleScript that adds a split to the current session.
pub fn split_pane_script(
    terminal_id: &str,
    direction: &str,
    session_name: &str,
    zmx_name: &str,
    dir: &str,
    remote: Option<&RemoteConfig>,
) -> (r: String)
    ensures
        r@ == split_pane_script_of(terminal_id@, direction@, session_name@, zmx_name@, dir@, remote_view(remote)),
{
    let command = build_zmx_command(zmx_name, dir, remote);
    let idx = pane_index(zmx_name, session_name);
    let env = session_env(session_name, idx.as_str());
    let local_wd = match remote {
        Some(_) => None,
        None => Some(dir),
    };
    split_with_config(terminal_id, direction, command.as_str(), local_wd, &env)
}

impl SessionRegistry {
    /// Moves the entry of `from` to `to`; `false` (and no change) when
    /// `from` is not registered.
    pub fn rename(&mut self, from: &str, to: &str) -> (found: bool)
        ensures
            found == old(self).entries().contains_key(from@),
            found ==> final(self).entries() == old(self).entries().remove(from@).insert(
                to@,
                old(self).entries()[from@],
            ),
            !found ==> final(self).entries() == old(self).entries(),
    {
        let entry = match self.get(from) {
            Some(e) => e.duplicate(),
            None => {
                return false;
            },
        };
        self.remove(from);
        self.insert(to, entry);
        true
    }
}

/// The error when renaming a session that is not registered.
pub fn rename_missing_msg(old: &str) -> (r: String)
    ensures
        r@ == "session '"@ + old@ + "' not found"@,
{
    let mut m = String::from_str("session '");
    m.append(old);
    m.append("' not found");
    m
}

// ---------------------------------------------------------------------------
// Listing
// ---------------------------------------------------------------------------

/// The names of a list of counts.
pub open spec fn count_names(c: Seq<(String, usize)>) -> Seq<Seq<char>> {
    c.map_values(|p: (String, usize)| p.0@)
}

/// How many zmx sessions each gmx session has, by session name in
/// increasing order: every group of `all` once, with the number of its
/// zmx sessions.
pub fn group_counts(all: Vec<ZmxSession>) -> (r: Vec<(String, usize)>)
    ensures
        forall|i: int, j: int| 0 <= i < j < r@.len() ==> lex_lt(#[trigger] r@[i].0@, #[trigger] r@[j].0@),
        forall|i: int| 0 <= i < r@.len() ==> has_group(all@, #[trigger] r@[i].0@),
        forall|k: int| 0 <= k < all@.len() ==> #[trigger] count_names(r@).contains(group_of(all@[k].name@)),
        forall|i: int|
            0 <= i < r@.len() ==> (#[trigger] r@[i]).1 == all@.filter(member_of(r@[i].0@)).len(),
{
    let ghost orig = all@;
    let groups = discover_sessions(all);
    let mut r: Vec<(String, usize)> = Vec::new();
    let mut i: usize = 0;
    while i < groups.len()
        invariant
            i <= groups@.len(),
            r@.len() == i,
            forall|j: int| 0 <= j < i ==> (#[trigger] r@[j]).0@ == groups@[j].0@ && r@[j].1 == groups@[j].1@.len(),
        decreases groups.len() - i,
    {
        r.push((groups[i].0.clone(), groups[i].1.len()));
        i = i + 1;
    }
    proof {
        assert forall|a: int, b: int| 0 <= a < b < r@.len() implies lex_lt(#[trigger] r@[a].0@, #[trigger] r@[b].0@) by {
            assert(lex_lt(groups@[a].0@, groups@[b].0@));
        }
        assert forall|a: int| 0 <= a < r@.len() implies has_group(orig, #[trigger] r@[a].0@) by {
            assert(has_group(orig, groups@[a].0@));
        }
        assert forall|k: int| 0 <= k < orig.len() implies #[trigger] count_names(r@).contains(
            group_of(orig[k].name@),
        ) by {
            assert(group_names_of(groups@).contains(group_of(orig[k].name@)));
            let a = choose|a: int| 0 <= a < group_names_of(groups@).len() && group_names_of(groups@)[a] == group_of(
                orig[k].name@,
            );
            assert(count_names(r@)[a] == group_of(orig[k].name@));
        }
        assert forall|a: int| 0 <= a < r@.len() implies (#[trigger] r@[a]).1 == orig.filter(
            member_of(r@[a].0@),
        ).len() by {
            assert(groups@[a].1@.len() == orig.filter(member_of(groups@[a].0@)).len());
        }
    }
    r
}

/// The counts of `counts` followed by those of `extra` whose name is new.
pub open spec fn merged_of(counts: Seq<(String, usize)>, extra: Seq<(String, usize)>) -> Seq<(String, usize)>
    decreases extra.len(),
{
    if extra.len() == 0 {
        counts
    } else {
        let m = merged_of(counts, extra.drop_last());
        if count_names(m).contains(extra.last().0@) {
            m
        } else {
            m.push(extra.last())
        }
    }
}

/// Whether `name` is the name of one of the counts.
fn has_count_name(c: &Vec<(String, usize)>, name: &str) -> (b: bool)
    ensures
        b == count_names(c@).contains(name@),
{
    let mut i: usize = 0;
    while i < c.len()
        invariant
            i <= c@.len(),
            forall|j: int| 0 <= j < i ==> (#[trigger] c@[j]).0@ != name@,
        decreases c.len() - i,
    {
        if crate::text::str_eq(c[i].0.as_str(), name) {
            assert(count_names(c@)[i as int] == name@);
            return true;
        }
        i = i + 1;
    }
    proof {
        if count_names(c@).contains(name@) {
            let j = choose|j: int| 0 <= j < count_names(c@).len() && count_names(c@)[j] == name@;
            assert(c@[j].0@ == name@);
        }
    }
    false
}

/// The listing counts: the discovered sessions merged with registered
/// sessions that were not discovered (a name already listed is kept as it
/// is), sorted by name.
pub fn merge_counts(counts: Vec<(String, usize)>, extra: Vec<(String, usize)>) -> (r: Vec<(String, usize)>)
    ensures
        stable_sort_str(r@, merged_of(counts@, extra@), |p: (String, usize)| p.0@),
{
    let mut m = counts;
    let mut i: usize = 0;
    assert(extra@.take(0) =~= Seq::<(String, usize)>::empty());
    while i < extra.len()
        invariant
            i <= extra@.len(),
            m@ == merged_of(counts@, extra@.take(i as int)),
        decreases extra.len() - i,
    {
        assert(extra@.take(i + 1).drop_last() =~= extra@.take(i as int));
        assert(extra@.take(i + 1).last() == extra@[i as int]);
        if !has_count_name(&m, extra[i].0.as_str()) {
            m.push((extra[i].0.clone(), extra[i].1));
        }
        i = i + 1;
    }
    assert(extra@.take(i as int) =~= extra@);
    let mut keys: Vec<Vec<char>> = Vec::new();
    let mut k: usize = 0;
    while k < m.len()
        invariant
            k <= m@.len(),
            keys@.len() == k,
            forall|j: int| 0 <= j < k ==> (#[trigger] keys@[j])@ == m@[j].0@,
        decreases m.len() - k,
    {
        keys.push(chars_of(m[k].0.as_str()));
        k = k + 1;
    }
    crate::sort::sort_by_str_key(m, keys, Ghost(|p: (String, usize)| p.0@))
}

/// The registered sessions whose names are not among the listed counts, in
/// registry order: the ones whose pane count `gmx ls` has to find otherwise.
pub fn undiscovered_sessions(registry: &SessionRegistry, counts: &Vec<(String, usize)>) -> (r: Vec<String>)
    ensures
        crate::text::str_views(r@) == registry.sessions.pairs().map_values(|e: (Seq<char>, SessionEntry)| e.0).filter(
            |k: Seq<char>| !count_names(counts@).contains(k),
        ),
{
    let ghost keys = registry.sessions.pairs().map_values(|e: (Seq<char>, SessionEntry)| e.0);
    let ghost pred = |k: Seq<char>| !count_names(counts@).contains(k);
    let mut r: Vec<String> = Vec::new();
    let mut i: usize = 0;
    proof {
        reveal(Seq::filter);
        assert(keys.take(0) =~= Seq::<Seq<char>>::empty());
        assert(crate::text::str_views(r@) =~= keys.take(0).filter(pred));
    }
    while i < registry.sessions.len()
        invariant
            i <= keys.len(),
            keys.len() == registry.sessions.pairs().len(),
            keys == registry.sessions.pairs().map_values(|e: (Seq<char>, SessionEntry)| e.0),
            pred == (|k: Seq<char>| !count_names(counts@).contains(k)),
            crate::text::str_views(r@) == keys.take(i as int).filter(pred),
        decreases keys.len() - i,
    {
        let name = registry.sessions.key_at(i);
        proof {
            crate::sort::lemma_filter_push(keys.take(i as int), keys[i as int], pred);
            assert(keys.take(i + 1) =~= keys.take(i as int).push(keys[i as int]));
        }
        if !has_count_name(counts, name.as_str()) {
            let ghost before = crate::text::str_views(r@);
            r.push(name.clone());
            assert(crate::text::str_views(r@) =~= before.push(keys[i as int]));
        }
        i = i + 1;
    }
    assert(keys.take(i as int) =~= keys);
    r
}

/// One row of `gmx ls`.
pub struct LsRow {
    pub name: String,
    /// The remote's name, or `local`.
    pub remote: String,
    /// The number of panes, or `dead` when there are none.
    pub panes: String,
    /// The session's directory, or `-` when it is not registered.
    pub dir: String,
}

/// The remote label of a listed session.
pub open spec fn remote_label(entries: Map<Seq<char>, EntryView>, name: Seq<char>) -> Seq<char> {
    if entries.contains_key(name) && entries[name].remote is Some {
        entries[name].remote->0
    } else {
        "local"@
    }
}

/// The directory of a listed session.
pub open spec fn dir_label(entries: Map<Seq<char>, EntryView>, name: Seq<char>) -> Seq<char> {
    if entries.contains_key(name) {
        entries[name].dir
    } else {
        "-"@
    }
}

/// The pane count of a listed session.
pub open spec fn panes_label(count: nat) -> Seq<char> {
    if count > 0 {
        dec(count)
    } else {
        "dead"@
    }
}

/// The row of `gmx ls` for a session with `count` live panes.
pub fn ls_row(name: &str, count: usize, registry: &SessionRegistry) -> (r: LsRow)
    ensures
        r.name@ == name@,
        r.remote@ == remote_label(registry.entries(), name@),
        r.dir@ == dir_label(registry.entries(), name@),
        r.panes@ == panes_label(count as nat),
{
    let (remote, dir) = match registry.get(name) {
        Some(e) => (
            match &e.remote {
                Some(r) => r.clone(),
                None => String::from_str("local"),
            },
            e.dir.clone(),
        ),
        None => (String::from_str("local"), String::from_str("-")),
    };
    let panes = if count > 0 {
        dec_string(count as u128)
    } else {
        String::from_str("dead")
    };
    LsRow { name: String::from_str(name), remote, panes, dir }
}

} // verus!
