//! The decisions behind the ghostreelite commands and the picker: which
//! repos and worktrees are meant, in which order worktrees are listed, and
//! what reopening a worktree's sessions does.
use vstd::prelude::*;

use crate::config::{Config, ConfigView, RepoConfig, RepoView, effective_remote_of};
use crate::ghostty_lib::remote::ssh_target_of;
use crate::paint::{dimmed, esc_free, green, lemma_dec_plain, lemma_no_reset, lemma_shows_concat, lemma_shows_painted, lemma_shows_plain, shows, yellow};
use crate::text::{dec, dec_string};
use crate::ghostreelite::discovery::{DiscoveredRepo, DiscoveredView, discovered_views};
use crate::ghostty_lib::worktree::{RepoWorktrees, Worktree, WorktreeView, copy_worktrees, repo_map_view, worktree_views};
use crate::ghostty_lib::zmx::{
    ZmxSession, copy_sessions, find_worktree_sessions, first_named, in_group, is_new_session_name, next_session_name,
    repo_name_from_path, repo_name_of, session_name, session_name_of,
};
use crate::ghostreelite::logic::find_session_for_worktree;
use crate::sort::{sort_by_num_key, stable_sort_num, stable_sort_str, str_class, str_key_is};
use crate::text::{chars_of, has_prefix, join, join_strings, str_eq, str_views, trim, trim_chars, string_of};

verus! {

// ---------------------------------------------------------------------------
// Gathering
// ---------------------------------------------------------------------------

/// The repos with a remote, or those without one, keeping their order.
pub fn split_by_location(discovered: Vec<DiscoveredRepo>, remote: bool) -> (r: Vec<DiscoveredRepo>)
    ensures
        discovered_views(r@) == discovered_views(discovered@).filter(
            |d: DiscoveredView| (d.remote is Some) == remote,
        ),
{
    let ghost pred = |d: DiscoveredView| (d.remote is Some) == remote;
    let ghost orig = discovered@;
    let ghost ov = discovered_views(orig);
    let mut rest = discovered;
    let mut r: Vec<DiscoveredRepo> = Vec::new();
    let ghost mut n: int = 0;
    assert(orig.skip(0) =~= orig);
    proof {
        reveal(Seq::filter);
        assert(ov.take(0) =~= Seq::<DiscoveredView>::empty());
        assert(discovered_views(r@) =~= ov.take(0).filter(pred));
    }
    while rest.len() > 0
        invariant
            0 <= n <= orig.len(),
            rest@ == orig.skip(n),
            ov == discovered_views(orig),
            pred == (|d: DiscoveredView| (d.remote is Some) == remote),
            discovered_views(r@) == ov.take(n).filter(pred),
        decreases rest.len(),
    {
        let d = rest.remove(0);
        assert(d == orig[n]);
        assert(rest@ =~= orig.skip(n + 1));
        proof {
            crate::sort::lemma_filter_push(ov.take(n), ov[n], pred);
            assert(ov.take(n + 1) =~= ov.take(n).push(ov[n]));
        }
        if d.remote.is_some() == remote {
            let ghost before = discovered_views(r@);
            r.push(d);
            assert(discovered_views(r@) =~= before.push(ov[n]));
        }
        proof {
            n = n + 1;
        }
    }
    assert(ov.take(n) =~= ov);
    r
}

/// The paths of the repos, in order.
pub fn repo_paths(repos: &Vec<DiscoveredRepo>) -> (r: Vec<String>)
    ensures
        str_views(r@) == discovered_views(repos@).map_values(|d: DiscoveredView| d.config.path),
{
    let mut r: Vec<String> = Vec::new();
    let mut i: usize = 0;
    while i < repos.len()
        invariant
            i <= repos@.len(),
            str_views(r@) == discovered_views(repos@).take(i as int).map_values(
                |d: DiscoveredView| d.config.path,
            ),
        decreases repos.len() - i,
    {
        let ghost before = str_views(r@);
        r.push(repos[i].config.path.clone());
        assert(str_views(r@) =~= before.push(discovered_views(repos@)[i as int].config.path));
        assert(discovered_views(repos@).take(i + 1).map_values(|d: DiscoveredView| d.config.path)
            =~= discovered_views(repos@).take(i as int).map_values(|d: DiscoveredView| d.config.path).push(
            discovered_views(repos@)[i as int].config.path,
        ));
        i = i + 1;
    }
    assert(discovered_views(repos@).take(i as int) =~= discovered_views(repos@));
    r
}

/// A repo with its name and its worktrees.
pub type GatheredRepo = (DiscoveredRepo, String, Vec<Worktree>);

/// The model of a gathered repo.
pub open spec fn gathered_view(g: GatheredRepo) -> (DiscoveredView, Seq<char>, Seq<WorktreeView>) {
    (g.0@, g.1@, worktree_views(g.2@))
}

/// The models of a list of gathered repos.
pub open spec fn gathered_views(v: Seq<GatheredRepo>) -> Seq<(DiscoveredView, Seq<char>, Seq<WorktreeView>)> {
    v.map_values(|g: GatheredRepo| gathered_view(g))
}

/// The repos that the batch listing gave worktrees for, in order, each with
/// its name (from its path) and its worktrees.
pub open spec fn with_listing(
    repos: Seq<DiscoveredView>,
    listing: Map<Seq<char>, Seq<WorktreeView>>,
) -> Seq<(DiscoveredView, Seq<char>, Seq<WorktreeView>)>
    decreases repos.len(),
{
    if repos.len() == 0 {
        Seq::empty()
    } else {
        let rest = with_listing(repos.drop_last(), listing);
        let d = repos.last();
        if listing.contains_key(d.config.path) {
            rest.push((d, repo_name_of(d.config.path), listing[d.config.path]))
        } else {
            rest
        }
    }
}

/// Pairs each repo with its worktrees from a batch listing; repos the
/// listing does not hold are left out.
pub fn with_worktrees(repos: Vec<DiscoveredRepo>, listing: &RepoWorktrees) -> (r: Vec<GatheredRepo>)
    ensures
        gathered_views(r@) == with_listing(discovered_views(repos@), repo_map_view(listing@)),
{
    let ghost orig = repos@;
    let ghost ov = discovered_views(orig);
    let mut rest = repos;
    let mut r: Vec<GatheredRepo> = Vec::new();
    let ghost mut n: int = 0;
    assert(orig.skip(0) =~= orig);
    assert(ov.take(0) =~= Seq::<DiscoveredView>::empty());
    assert(gathered_views(r@) =~= Seq::<(DiscoveredView, Seq<char>, Seq<WorktreeView>)>::empty());
    while rest.len() > 0
        invariant
            0 <= n <= orig.len(),
            rest@ == orig.skip(n),
            ov == discovered_views(orig),
            gathered_views(r@) == with_listing(ov.take(n), repo_map_view(listing@)),
        decreases rest.len(),
    {
        let d = rest.remove(0);
        assert(d == orig[n]);
        assert(rest@ =~= orig.skip(n + 1));
        assert(ov.take(n + 1).drop_last() =~= ov.take(n));
        assert(ov.take(n + 1).last() == d@);
        match listing.get(d.config.path.as_str()) {
            Some(wts) => {
                let name = repo_name_from_path(d.config.path.as_str());
                let ws = copy_worktrees(wts);
                let ghost before = gathered_views(r@);
                let ghost item = (d@, name@, worktree_views(ws@));
                r.push((d, name, ws));
                assert(gathered_views(r@) =~= before.push(item));
            },
            None => {},
        }
        proof {
            n = n + 1;
        }
    }
    assert(ov.take(n) =~= ov);
    r
}

/// Everything the list and the picker show: repos with their worktrees,
/// and the zmx sessions here and on the remote.
pub struct GatheredState {
    /// (discovered_repo, repo_name, worktrees)
    pub repos: Vec<GatheredRepo>,
    /// Local zmx sessions
    pub local_sessions: Vec<ZmxSession>,
    /// Remote zmx sessions (if remote configured)
    pub remote_sessions: Vec<ZmxSession>,
}

/// The sessions of a place: the local ones for `local`, else the remote ones.
pub open spec fn sessions_of_env(st: GatheredState, env_name: Seq<char>) -> Seq<ZmxSession> {
    if env_name == "local"@ {
        st.local_sessions@
    } else {
        st.remote_sessions@
    }
}

impl GatheredState {
    /// The sessions to look in for a repo in place `env_name`.
    pub fn sessions_for_env(&self, env_name: &str) -> (r: &Vec<ZmxSession>)
        ensures
            r@ == sessions_of_env(*self, env_name@),
    {
        if str_eq(env_name, "local") {
            &self.local_sessions
        } else {
            &self.remote_sessions
        }
    }
}

// ---------------------------------------------------------------------------
// Worktree rows, in list and picker order
// ---------------------------------------------------------------------------

/// A worktree of a gathered repo with its primary session.
pub struct WorktreeRow {
    /// The position of the repo among the gathered repos.
    pub repo_index: usize,
    pub worktree: Worktree,
    pub session: Option<ZmxSession>,
}

/// The rows of the gathered repo at `i`.
pub open spec fn repo_rows(st: GatheredState, i: int) -> Seq<WorktreeRow> {
    let g = st.repos@[i];
    g.2@.map_values(
        |w: Worktree| WorktreeRow {
            repo_index: i as usize,
            worktree: w,
            session: first_named(sessions_of_env(st, g.0.env_name@), session_name_of(g.1@, w.branch@)),
        },
    )
}

/// The rows of the first `n` gathered repos, repo by repo.
pub open spec fn rows_upto(st: GatheredState, n: int) -> Seq<WorktreeRow>
    decreases n,
{
    if n <= 0 {
        Seq::empty()
    } else {
        rows_upto(st, n - 1) + repo_rows(st, n - 1)
    }
}

/// The order of a row: attached sessions first, then detached ones, then
/// none; within each, the most recent commit first.
pub open spec fn row_key(r: WorktreeRow) -> u128 {
    let rank: u128 = match r.session {
        Some(s) => if s.clients > 0 {
            0
        } else {
            1
        },
        None => 2,
    };
    let ts: u64 = match r.worktree.commit {
        Some(c) => c.timestamp,
        None => 0,
    };
    (rank * 0x1_0000_0000_0000_0000 + (u64::MAX - ts)) as u128
}

/// The key of a row, computed.
fn row_key_exec(r: &WorktreeRow) -> (k: u128)
    ensures
        k == row_key(*r),
{
    let rank: u128 = match &r.session {
        Some(s) => if s.clients > 0 {
            0
        } else {
            1
        },
        None => 2,
    };
    let ts: u64 = match &r.worktree.commit {
        Some(c) => c.timestamp,
        None => 0,
    };
    rank * 0x1_0000_0000_0000_0000 + (u64::MAX - ts) as u128
}

/// Every worktree of the gathered repos with its primary session (the one
/// named `repo.branch` among the sessions of the repo's place), ordered as
/// the list and the picker show them: by session state, then most recent
/// commit first, ties kept in gathering order.
pub fn worktree_rows(st: &GatheredState) -> (r: Vec<WorktreeRow>)
    ensures
        stable_sort_num(r@, rows_upto(*st, st.repos@.len() as int), |w: WorktreeRow| row_key(w)),
{
    let mut rows: Vec<WorktreeRow> = Vec::new();
    let mut i: usize = 0;
    while i < st.repos.len()
        invariant
            i <= st.repos@.len(),
            rows@ == rows_upto(*st, i as int),
        decreases st.repos.len() - i,
    {
        let g = &st.repos[i];
        let sessions = st.sessions_for_env(g.0.env_name.as_str());
        let ghost base = rows@;
        let mut j: usize = 0;
        while j < g.2.len()
            invariant
                j <= g.2@.len(),
                i < st.repos@.len(),
                *g == st.repos@[i as int],
                sessions@ == sessions_of_env(*st, g.0.env_name@),
                rows@ == base + repo_rows(*st, i as int).take(j as int),
            decreases g.2.len() - j,
        {
            let w = &g.2[j];
            let session = match find_session_for_worktree(sessions, g.1.as_str(), w.branch.as_str()) {
                Some(s) => Some(s.duplicate()),
                None => None,
            };
            let row = WorktreeRow { repo_index: i, worktree: w.duplicate(), session };
            assert(row == repo_rows(*st, i as int)[j as int]);
            rows.push(row);
            assert(repo_rows(*st, i as int).take(j + 1) =~= repo_rows(*st, i as int).take(j as int).push(row));
            j = j + 1;
        }
        assert(repo_rows(*st, i as int).take(j as int) =~= repo_rows(*st, i as int));
        i = i + 1;
    }
    let mut keys: Vec<u128> = Vec::new();
    let mut k: usize = 0;
    while k < rows.len()
        invariant
            k <= rows@.len(),
            keys@.len() == k,
            forall|q: int| 0 <= q < k ==> keys@[q] == row_key(#[trigger] rows@[q]),
        decreases rows.len() - k,
    {
        keys.push(row_key_exec(&rows[k]));
        k = k + 1;
    }
    sort_by_num_key(rows, keys, Ghost(|w: WorktreeRow| row_key(w)))
}

// ---------------------------------------------------------------------------
// Choosing a repo or a worktree
// ---------------------------------------------------------------------------

/// `path` ends with `suffix`.
pub open spec fn has_suffix(path: Seq<char>, suffix: Seq<char>) -> bool {
    suffix.len() <= path.len() && path.skip(path.len() - suffix.len()) == suffix
}

/// Whether `path` ends with `suffix`.
fn ends_with(path: &str, suffix: &str) -> (b: bool)
    ensures
        b == has_suffix(path@, suffix@),
{
    let p = chars_of(path);
    let s = chars_of(suffix);
    if s.len() > p.len() {
        return false;
    }
    let tail = crate::text::chars_skip(&p, p.len() - s.len());
    crate::text::chars_eq(&tail, &s)
}

/// A repo filter given on the command line names a repo by its full path or
/// by an ending of it.
pub open spec fn matches_filter(path: Seq<char>, filter: Seq<char>) -> bool {
    path == filter || has_suffix(path, filter)
}

/// Whether the repo at `path` is the one a filter names.
pub fn repo_matches(path: &str, filter: &str) -> (b: bool)
    ensures
        b == matches_filter(path@, filter@),
{
    str_eq(path, filter) || ends_with(path, filter)
}

/// The repos in which `resolve_worktree` looks for a branch, in order: all
/// of them, or those the filter names.
pub fn worktree_search_order(discovered: Vec<DiscoveredRepo>, filter: Option<&str>) -> (r: Vec<DiscoveredRepo>)
    ensures
        discovered_views(r@) == match filter {
            Some(f) => discovered_views(discovered@).filter(|d: DiscoveredView| matches_filter(d.config.path, f@)),
            None => discovered_views(discovered@),
        },
{
    match filter {
        None => discovered,
        Some(f) => {
            let ghost pred = |d: DiscoveredView| matches_filter(d.config.path, f@);
            let ghost orig = discovered@;
            let ghost ov = discovered_views(orig);
            let mut rest = discovered;
            let mut r: Vec<DiscoveredRepo> = Vec::new();
            let ghost mut n: int = 0;
            assert(orig.skip(0) =~= orig);
            proof {
                reveal(Seq::filter);
                assert(ov.take(0) =~= Seq::<DiscoveredView>::empty());
                assert(discovered_views(r@) =~= ov.take(0).filter(pred));
            }
            while rest.len() > 0
                invariant
                    0 <= n <= orig.len(),
                    rest@ == orig.skip(n),
                    ov == discovered_views(orig),
                    pred == (|d: DiscoveredView| matches_filter(d.config.path, f@)),
                    discovered_views(r@) == ov.take(n).filter(pred),
                decreases rest.len(),
            {
                let d = rest.remove(0);
                assert(d == orig[n]);
                assert(rest@ =~= orig.skip(n + 1));
                proof {
                    crate::sort::lemma_filter_push(ov.take(n), ov[n], pred);
                    assert(ov.take(n + 1) =~= ov.take(n).push(ov[n]));
                }
                if repo_matches(d.config.path.as_str(), f) {
                    let ghost before = discovered_views(r@);
                    r.push(d);
                    assert(discovered_views(r@) =~= before.push(ov[n]));
                }
                proof {
                    n = n + 1;
                }
            }
            assert(ov.take(n) =~= ov);
            r
        },
    }
}

/// The error when no repo holds the branch.
pub fn worktree_not_found_msg(branch: &str) -> (r: String)
    ensures
        r@ == "worktree '"@ + branch@ + "' not found in any configured repo"@,
{
    let mut m = String::from_str("worktree '");
    m.append(branch);
    m.append("' not found in any configured repo");
    m
}

/// The first repo of `ds` that the filter names.
pub open spec fn first_matching(ds: Seq<DiscoveredView>, filter: Seq<char>) -> Option<DiscoveredView>
    decreases ds.len(),
{
    if ds.len() == 0 {
        None
    } else if matches_filter(ds[0].config.path, filter) {
        Some(ds[0])
    } else {
        first_matching(ds.drop_first(), filter)
    }
}

/// The repo a command works in: the one the filter names; with no filter,
/// the only repo there is.
pub open spec fn resolved_repo(ds: Seq<DiscoveredView>, filter: Option<Seq<char>>) -> Result<
    DiscoveredView,
    Seq<char>,
> {
    match filter {
        Some(f) => match first_matching(ds, f) {
            Some(d) => Ok(d),
            None => Err("repo not found: "@ + f),
        },
        None => if ds.len() == 1 {
            Ok(ds[0])
        } else if ds.len() == 0 {
            Err("no repos configured. Set scan_dirs or add repos explicitly."@)
        } else {
            Err(
                "multiple repos found, specify with --repo. Repos: "@ + join(
                    ds.map_values(|d: DiscoveredView| d.config.path),
                    ", "@,
                ),
            )
        },
    }
}

/// Pick the repo to work in among the discovered ones.
pub fn resolve_repo(discovered: Vec<DiscoveredRepo>, filter: Option<&str>) -> (r: Result<DiscoveredRepo, String>)
    ensures
        match r {
            Ok(d) => resolved_repo(
                discovered_views(discovered@),
                match filter {
                    Some(f) => Some(f@),
                    None => None,
                },
            ) == Ok::<DiscoveredView, Seq<char>>(d@),
            Err(e) => resolved_repo(
                discovered_views(discovered@),
                match filter {
                    Some(f) => Some(f@),
                    None => None,
                },
            ) == Err::<DiscoveredView, Seq<char>>(e@),
        },
{
    let ghost dv = discovered_views(discovered@);
    match filter {
        Some(f) => {
            let mut rest = discovered;
            let ghost mut n: int = 0;
            assert(dv.skip(0) =~= dv);
            while rest.len() > 0
                invariant
                    0 <= n <= dv.len(),
                    dv == discovered_views(discovered@),
                    filter == Some(f),
                    discovered_views(rest@) == dv.skip(n),
                    first_matching(dv.skip(n), f@) == first_matching(dv, f@),
                decreases rest.len(),
            {
                let ghost before = discovered_views(rest@);
                let d = rest.remove(0);
                assert(before[0] == d@);
                assert(before.drop_first() =~= discovered_views(rest@));
                if repo_matches(d.config.path.as_str(), f) {
                    assert(first_matching(before, f@) == Some(d@));
                    return Ok(d);
                }
                proof {
                    n = n + 1;
                    assert(dv.skip(n) =~= before.drop_first());
                }
            }
            let mut e = String::from_str("repo not found: ");
            e.append(f);
            Err(e)
        },
        None => {
            if discovered.len() == 1 {
                let mut all = discovered;
                let d = all.remove(0);
                Ok(d)
            } else if discovered.len() == 0 {
                Err(String::from_str("no repos configured. Set scan_dirs or add repos explicitly."))
            } else {
                let paths = repo_paths(&discovered);
                let mut e = String::from_str("multiple repos found, specify with --repo. Repos: ");
                e.append(join_strings(&paths, ", ").as_str());
                Err(e)
            }
        },
    }
}

// ---------------------------------------------------------------------------
// Reopening a worktree's sessions
// ---------------------------------------------------------------------------

/// What reopening does for one session of a worktree.
pub enum ReopenStep {
    /// Focus the session's live terminal, which has this id.
    Focus(String),
    /// Open the session in a new tab.
    Tab(String),
    /// Open the session as a split to the right.
    SplitRight(String),
}

/// The model of a [`ReopenStep`]: which of the three, and its text.
pub open spec fn step_view(s: ReopenStep) -> (int, Seq<char>) {
    match s {
        ReopenStep::Focus(id) => (0, id@),
        ReopenStep::Tab(n) => (1, n@),
        ReopenStep::SplitRight(n) => (2, n@),
    }
}

/// The steps for the sessions `names`, whose live terminals are `live`
/// (`None` for a session without one), given whether a session was opened
/// already: a session with a live terminal is focused; the first one
/// without is opened in a tab, the others as splits to the right.
pub open spec fn reopen_steps(names: Seq<Seq<char>>, live: Seq<Option<Seq<char>>>) -> (Seq<(int, Seq<char>)>, bool)
    decreases names.len(),
{
    if names.len() == 0 {
        (Seq::empty(), true)
    } else {
        let (prev, first) = reopen_steps(names.drop_last(), live);
        let i = names.len() - 1;
        if i < live.len() && live[i] is Some {
            (prev.push((0, live[i]->0)), first)
        } else if first {
            (prev.push((1, names[i])), false)
        } else {
            (prev.push((2, names[i])), false)
        }
    }
}

/// How many steps open a new tab.
pub open spec fn tab_count(steps: Seq<(int, Seq<char>)>) -> nat
    decreases steps.len(),
{
    if steps.len() == 0 {
        0
    } else {
        tab_count(steps.drop_last()) + (if steps.last().0 == 1 {
            1nat
        } else {
            0nat
        })
    }
}

/// Some session among the first `n` has no live terminal.
pub open spec fn some_without_live(live: Seq<Option<Seq<char>>>, n: int) -> bool {
    exists|i: int| 0 <= i < n && !(i < live.len() && #[trigger] live[i] is Some)
}

/// Reopening a worktree opens at most one new tab, and opens one exactly
/// when some session has no live terminal; every session gets one step.
pub proof fn law_reopen_one_tab(names: Seq<Seq<char>>, live: Seq<Option<Seq<char>>>)
    ensures
        reopen_steps(names, live).0.len() == names.len(),
        tab_count(reopen_steps(names, live).0) == (if some_without_live(live, names.len() as int) {
            1nat
        } else {
            0nat
        }),
        reopen_steps(names, live).1 == !some_without_live(live, names.len() as int),
    decreases names.len(),
{
    if names.len() > 0 {
        let pre = names.drop_last();
        law_reopen_one_tab(pre, live);
        let i = names.len() - 1;
        let (prev, first) = reopen_steps(pre, live);
        let steps = reopen_steps(names, live).0;
        assert(steps.drop_last() =~= prev);
        if !(i < live.len() && live[i] is Some) {
            assert(some_without_live(live, names.len() as int));
        }
        if some_without_live(live, pre.len() as int) {
            let j = choose|j: int| 0 <= j < pre.len() && !(j < live.len() && #[trigger] live[j] is Some);
            assert(some_without_live(live, names.len() as int));
        }
        if some_without_live(live, names.len() as int) && !some_without_live(live, pre.len() as int) {
            let j = choose|j: int| 0 <= j < names.len() && !(j < live.len() && #[trigger] live[j] is Some);
            assert(j == i);
        }
    }
}

/// For each existing session of a worktree, whether to focus its live
/// terminal or open it (a tab for the first one, splits to the right after).
/// `live[i]` is the first live terminal of `names[i]`, if any.
pub fn reopen_plan(names: &Vec<String>, live: &Vec<Option<String>>) -> (r: Vec<ReopenStep>)
    ensures
        r@.map_values(|s: ReopenStep| step_view(s)) == reopen_steps(
            str_views(names@),
            live@.map_values(|o: Option<String>| crate::ghostty_lib::remote::opt_view(o)),
        ).0,
{
    let ghost lv = live@.map_values(|o: Option<String>| crate::ghostty_lib::remote::opt_view(o));
    let mut r: Vec<ReopenStep> = Vec::new();
    let mut first = true;
    let mut i: usize = 0;
    assert(str_views(names@).take(0) =~= Seq::<Seq<char>>::empty());
    assert(r@.map_values(|s: ReopenStep| step_view(s)) =~= Seq::<(int, Seq<char>)>::empty());
    while i < names.len()
        invariant
            i <= names@.len(),
            lv == live@.map_values(|o: Option<String>| crate::ghostty_lib::remote::opt_view(o)),
            (r@.map_values(|s: ReopenStep| step_view(s)), first) == reopen_steps(str_views(names@).take(i as int), lv),
        decreases names.len() - i,
    {
        let ghost pre = str_views(names@).take(i + 1);
        assert(pre.drop_last() =~= str_views(names@).take(i as int));
        assert(pre[i as int] == names@[i as int]@);
        let ghost before = r@.map_values(|s: ReopenStep| step_view(s));
        let step = if i < live.len() && live[i].is_some() {
            let id = match &live[i] {
                Some(id) => id.clone(),
                None => String::new(),
            };
            ReopenStep::Focus(id)
        } else if first {
            first = false;
            ReopenStep::Tab(names[i].clone())
        } else {
            ReopenStep::SplitRight(names[i].clone())
        };
        let ghost sv = step_view(step);
        r.push(step);
        assert(r@.map_values(|s: ReopenStep| step_view(s)) =~= before.push(sv));
        i = i + 1;
    }
    assert(str_views(names@).take(i as int) =~= str_views(names@));
    r
}

/// The first terminal of `ids` whose check in `alive` (same positions)
/// found it alive.
pub fn first_live(ids: &Vec<String>, alive: &Vec<bool>) -> (r: Option<String>)
    ensures
        match r {
            Some(id) => exists|i: int|
                0 <= i < ids@.len() && i < alive@.len() && alive@[i] && #[trigger] ids@[i]@ == id@ && forall|j: int|
                    0 <= j < i ==> !(j < alive@.len() && alive@[j]),
            None => forall|i: int| 0 <= i < ids@.len() ==> !(i < alive@.len() && #[trigger] alive@[i]),
        },
{
    let mut i: usize = 0;
    while i < ids.len()
        invariant
            i <= ids@.len(),
            forall|j: int| 0 <= j < i ==> !(j < alive@.len() && alive@[j]),
        decreases ids.len() - i,
    {
        if i < alive.len() && alive[i] {
            let id = ids[i].clone();
            assert(ids@[i as int]@ == id@);
            return Some(id);
        }
        i = i + 1;
    }
    None
}

// ---------------------------------------------------------------------------
// Dialogs
// ---------------------------------------------------------------------------

/// What the remove dialog was asked to do.
#[derive(Debug, Clone, Copy, PartialEq, Eq, Structural)]
pub enum RemoveChoice {
    /// Kill the worktree's sessions only.
    KillSessions,
    /// Kill the sessions and remove the worktree.
    KillAndRemove,
    /// Remove the worktree (it has no sessions).
    RemoveWorktree,
    /// Do nothing.
    Cancel,
}

/// The choice an answer makes: with sessions, empty or `1` kills them and
/// `2` also removes the worktree; without, empty or `1` removes the
/// worktree; anything else cancels. The answer is trimmed first.
pub open spec fn remove_choice_of(has_sessions: bool, answer: Seq<char>) -> RemoveChoice {
    let a = trim(answer);
    if has_sessions {
        if a.len() == 0 || a == "1"@ {
            RemoveChoice::KillSessions
        } else if a == "2"@ {
            RemoveChoice::KillAndRemove
        } else {
            RemoveChoice::Cancel
        }
    } else if a.len() == 0 || a == "1"@ {
        RemoveChoice::RemoveWorktree
    } else {
        RemoveChoice::Cancel
    }
}

/// Reads the answer to the remove dialog.
pub fn remove_choice(has_sessions: bool, answer: &str) -> (r: RemoveChoice)
    ensures
        r == remove_choice_of(has_sessions, answer@),
{
    let a = string_of(&trim_chars(&chars_of(answer)));
    let empty = a.as_str().unicode_len() == 0;
    let one = str_eq(a.as_str(), "1");
    if has_sessions {
        if empty || one {
            RemoveChoice::KillSessions
        } else if str_eq(a.as_str(), "2") {
            RemoveChoice::KillAndRemove
        } else {
            RemoveChoice::Cancel
        }
    } else if empty || one {
        RemoveChoice::RemoveWorktree
    } else {
        RemoveChoice::Cancel
    }
}

/// A typed answer, trimmed; `None` when nothing was typed (the prompt's
/// default).
pub fn read_answer(input: &str) -> (r: Option<String>)
    ensures
        match r {
            Some(a) => a@ == trim(input@) && a@.len() > 0,
            None => trim(input@).len() == 0,
        },
{
    let t = trim_chars(&chars_of(input));
    if t.len() == 0 {
        None
    } else {
        Some(string_of(&t))
    }
}

/// The line that shows a gathered repo in the repo picker: `place: name (path)`.
pub open spec fn repo_choice_text(g: (DiscoveredView, Seq<char>, Seq<WorktreeView>)) -> Seq<char> {
    g.0.env_name + ": "@ + g.1 + " ("@ + g.0.config.path + ")"@
}

/// The lines of the repo picker, one per gathered repo.
pub fn repo_choice_lines(repos: &Vec<GatheredRepo>) -> (r: Vec<String>)
    ensures
        str_views(r@) == gathered_views(repos@).map_values(
            |g: (DiscoveredView, Seq<char>, Seq<WorktreeView>)| repo_choice_text(g),
        ),
{
    let mut r: Vec<String> = Vec::new();
    let mut i: usize = 0;
    while i < repos.len()
        invariant
            i <= repos@.len(),
            str_views(r@) == gathered_views(repos@).take(i as int).map_values(
                |g: (DiscoveredView, Seq<char>, Seq<WorktreeView>)| repo_choice_text(g),
            ),
        decreases repos.len() - i,
    {
        let g = &repos[i];
        let mut line = g.0.env_name.clone();
        line.append(": ");
        line.append(g.1.as_str());
        line.append(" (");
        line.append(g.0.config.path.as_str());
        line.append(")");
        let ghost before = str_views(r@);
        let ghost gv = gathered_views(repos@)[i as int];
        assert(line@ == repo_choice_text(gv));
        r.push(line);
        assert(str_views(r@) =~= before.push(repo_choice_text(gv)));
        assert(gathered_views(repos@).take(i + 1).map_values(
            |g: (DiscoveredView, Seq<char>, Seq<WorktreeView>)| repo_choice_text(g),
        ) =~= gathered_views(repos@).take(i as int).map_values(
            |g: (DiscoveredView, Seq<char>, Seq<WorktreeView>)| repo_choice_text(g),
        ).push(repo_choice_text(gv)));
        i = i + 1;
    }
    assert(gathered_views(repos@).take(i as int) =~= gathered_views(repos@));
    r
}

// ---------------------------------------------------------------------------
// Session and repo labels
// ---------------------------------------------------------------------------

/// The place label of the remote's sessions: the remote's host, or `remote`.
pub fn remote_env_label(config: &Config) -> (r: String)
    ensures
        r@ == match config@.remote {
            Some(rm) => rm.host,
            None => "remote"@,
        },
{
    match &config.remote {
        Some(r) => r.host.clone(),
        None => String::from_str("remote"),
    }
}

/// The mark of a session's clients: `●` (green) when attached, `◌` (yellow)
/// otherwise, then the number of clients.
pub open spec fn client_status_text(s: ZmxSession) -> Seq<char> {
    (if s.clients > 0 {
        "●"@
    } else {
        "◌"@
    }) + " "@ + dec(s.clients as nat)
}

/// The client status of a session in the session list, coloured; without
/// its colours it reads as `client_status_text`.
pub fn client_status(s: &ZmxSession) -> (r: String)
    ensures
        shows(r@, client_status_text(*s)),
{
    proof {
        reveal_strlit("●");
        reveal_strlit("◌");
        reveal_strlit(" ");
        reveal_strlit("32");
        reveal_strlit("33");
        lemma_no_reset("●"@);
        lemma_no_reset("◌"@);
        lemma_dec_plain(s.clients as nat);
        lemma_shows_plain(" "@ + dec(s.clients as nat));
    }
    let mut r = if s.is_attached() {
        let m = green("●");
        proof {
            lemma_shows_painted("●"@, "32"@, m@);
            lemma_shows_concat(m@, "●"@, " "@ + dec(s.clients as nat), " "@ + dec(s.clients as nat));
        }
        m
    } else {
        let m = yellow("◌");
        proof {
            lemma_shows_painted("◌"@, "33"@, m@);
            lemma_shows_concat(m@, "◌"@, " "@ + dec(s.clients as nat), " "@ + dec(s.clients as nat));
        }
        m
    };
    let ghost mark = r@;
    r.append(" ");
    r.append(dec_string(s.clients as u128).as_str());
    assert(r@ == mark + (" "@ + dec(s.clients as nat)));
    assert(client_status_text(*s) =~= (if s.clients > 0 {
        "●"@
    } else {
        "◌"@
    }) + (" "@ + dec(s.clients as nat)));
    r
}

/// The label of a repo in the repo list: ` (<ssh target>)` with the target
/// dimmed when it is reached through a remote, else ` (local)` dimmed.
pub open spec fn repo_label_text(c: ConfigView, repo: RepoView) -> Seq<char> {
    match effective_remote_of(c, repo) {
        Some(r) => " ("@ + ssh_target_of(r) + ")"@,
        None => " (local)"@,
    }
}

/// The remote label of a repo in the repo list; without its colours it
/// reads as `repo_label_text` (for a target without escape characters).
pub fn repo_remote_label(config: &Config, repo: &RepoConfig) -> (r: String)
    ensures
        esc_free(repo_label_text(config@, repo@)) ==> shows(r@, repo_label_text(config@, repo@)),
{
    proof {
        reveal_strlit(" (");
        reveal_strlit(")");
        reveal_strlit(" (local)");
        reveal_strlit("2");
        crate::text::lemma_dec_digits(2);
        lemma_shows_plain(" ("@);
        lemma_shows_plain(")"@);
        lemma_no_reset(" (local)"@);
    }
    match config.effective_remote(repo) {
        Some(rm) => {
            let target = rm.ssh_target();
            let ghost t = target@;
            let d = dimmed(target.as_str());
            proof {
                let label = " ("@ + t + ")"@;
                if esc_free(label) {
                    assert forall|i: int| 0 <= i < t.len() implies t[i] != '\u{1b}' by {
                        assert(label[i + 2] == t[i]);
                    }
                    lemma_no_reset(t);
                    lemma_shows_painted(t, "2"@, d@);
                    lemma_shows_concat(" ("@, " ("@, d@, t);
                    lemma_shows_concat(" ("@ + d@, " ("@ + t, ")"@, ")"@);
                }
            }
            let mut r = String::from_str(" (");
            r.append(d.as_str());
            r.append(")");
            r
        },
        None => {
            let r = dimmed(" (local)");
            proof {
                lemma_shows_painted(" (local)"@, "2"@, r@);
            }
            r
        },
    }
}

// ---------------------------------------------------------------------------
// Opening a worktree
// ---------------------------------------------------------------------------

/// What opening a worktree does.
#[derive(Debug)]
pub enum OpenPlan {
    /// A new session as a split, in `direction`, of the worktree's live
    /// terminal.
    SplitNew { session: String, terminal: String, direction: String },
    /// A new session in a new Ghostty tab; `fallback` when a split was asked
    /// for but the worktree has no live terminal.
    TabNew { session: String, fallback: bool },
    /// A new session attached in the current terminal.
    AttachNew { session: String },
    /// The worktree's sessions, in order, reopened in Ghostty.
    Reopen { sessions: Vec<ZmxSession> },
    /// The worktree's base session opened in a new Ghostty tab.
    TabBase { session: String },
    /// The worktree's base session attached in the current terminal.
    AttachBase { session: String },
}

/// Empty sorted output exactly for empty input.
proof fn lemma_stable_sort_empty<T>(r: Seq<T>, s: Seq<T>, f: spec_fn(T) -> Seq<char>)
    requires
        stable_sort_str(r, s, f),
    ensures
        r.len() == 0 <==> s.len() == 0,
{
    if s.len() > 0 {
        let k = f(s[0]);
        s.filter_lemma(str_key_is(f, k));
        assert(str_class(s, f, k).contains(s[0]));
        r.filter_lemma(str_key_is(f, k));
        assert(str_class(r, f, k) == str_class(s, f, k));
        assert(r.filter(str_key_is(f, k)).len() > 0);
    }
    if r.len() > 0 {
        let k = f(r[0]);
        r.filter_lemma(str_key_is(f, k));
        assert(str_class(r, f, k).contains(r[0]));
        s.filter_lemma(str_key_is(f, k));
        assert(str_class(r, f, k) == str_class(s, f, k));
        assert(s.filter(str_key_is(f, k)).len() > 0);
    }
}

/// What `open` does with a worktree of repo `repo_name` on `branch`, given
/// the listed zmx sessions and the live terminal of the worktree (looked up
/// only for a new session split in Ghostty):
/// - a new session takes the next free session name; in Ghostty it splits
///   the live terminal when a split direction was asked for and a live
///   terminal is known, else opens a tab; without Ghostty it attaches here;
/// - otherwise, in Ghostty, the worktree's sessions are reopened, or the
///   base session `repo.branch` opened in a tab when it has none; without
///   Ghostty the base session is attached here.
pub fn open_plan(
    repo_name: &str,
    branch: &str,
    split: Option<&str>,
    new_session: bool,
    use_ghostty: bool,
    sessions: &Vec<ZmxSession>,
    live: Option<&str>,
) -> (p: OpenPlan)
    ensures
        ({
            let base = session_name_of(repo_name@, branch@);
            let group = sessions@.filter(|s: ZmxSession| in_group(s.name@, base));
            if new_session {
                if use_ghostty {
                    if split is Some && live is Some {
                        p matches OpenPlan::SplitNew { session, terminal, direction }
                            && is_new_session_name(session@, base, sessions@) && terminal@
                            == live->0@ && direction@ == split->0@
                    } else {
                        p matches OpenPlan::TabNew { session, fallback } && is_new_session_name(
                            session@,
                            base,
                            sessions@,
                        ) && fallback == split is Some
                    }
                } else {
                    p matches OpenPlan::AttachNew { session } && is_new_session_name(
                        session@,
                        base,
                        sessions@,
                    )
                }
            } else if use_ghostty {
                if group.len() == 0 {
                    p matches OpenPlan::TabBase { session } && session@ == base
                } else {
                    p matches OpenPlan::Reopen { sessions: ss } && stable_sort_str(
                        ss@,
                        group,
                        |s: ZmxSession| s.name@,
                    )
                }
            } else {
                p matches OpenPlan::AttachBase { session } && session@ == base
            }
        }),
{
    if new_session {
        let session = next_session_name(repo_name, branch, sessions);
        if use_ghostty {
            match (split, live) {
                (Some(dir), Some(tid)) => OpenPlan::SplitNew {
                    session,
                    terminal: String::from_str(tid),
                    direction: String::from_str(dir),
                },
                _ => OpenPlan::TabNew { session, fallback: split.is_some() },
            }
        } else {
            OpenPlan::AttachNew { session }
        }
    } else if use_ghostty {
        let group = find_worktree_sessions(repo_name, branch, copy_sessions(sessions));
        proof {
            lemma_stable_sort_empty(
                group@,
                sessions@.filter(
                    |s: ZmxSession| in_group(s.name@, session_name_of(repo_name@, branch@)),
                ),
                |s: ZmxSession| s.name@,
            );
        }
        if group.len() == 0 {
            OpenPlan::TabBase { session: session_name(repo_name, branch) }
        } else {
            OpenPlan::Reopen { sessions: group }
        }
    } else {
        OpenPlan::AttachBase { session: session_name(repo_name, branch) }
    }
}

} // verus!
