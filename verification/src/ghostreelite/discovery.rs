//! Finding the repos to manage: the configured ones and those found by
//! scanning directories, locally and on the remote.
use vstd::prelude::*;

use crate::config::{Config, ConfigView, RepoConfig, RepoView, copy_remote, opt_remote, repo_views};
use crate::ghostty_lib::remote::{RemoteConfig, RemoteView};
use crate::text::{chars_of, has_prefix, lines, lines_of, str_eq, str_views, string_of, trim_end_char, trim_end_char_chars, views};

verus! {

/// A repo found by discovery, with where it lives.
pub struct DiscoveredRepo {
    pub config: RepoConfig,
    /// "local" or remote host name
    pub env_name: String,
    pub remote: Option<RemoteConfig>,
}

/// The model of a [`DiscoveredRepo`].
pub struct DiscoveredView {
    pub config: RepoView,
    pub env_name: Seq<char>,
    pub remote: Option<RemoteView>,
}

impl View for DiscoveredRepo {
    type V = DiscoveredView;

    open spec fn view(&self) -> DiscoveredView {
        DiscoveredView { config: self.config@, env_name: self.env_name@, remote: opt_remote(self.remote) }
    }
}

impl DiscoveredRepo {
    /// A copy with the same contents.
    pub fn duplicate(&self) -> (r: DiscoveredRepo)
        ensures
            r@ == self@,
    {
        DiscoveredRepo {
            config: self.config.duplicate(),
            env_name: self.env_name.clone(),
            remote: copy_remote(&self.remote),
        }
    }
}

/// The models of a list of discovered repos.
pub open spec fn discovered_views(v: Seq<DiscoveredRepo>) -> Seq<DiscoveredView> {
    v.map_values(|d: DiscoveredRepo| d@)
}

/// A configured repo as discovered: on its remote's host, or local.
pub open spec fn explicit_repo(r: RepoView) -> DiscoveredView {
    match r.remote {
        Some(rm) => DiscoveredView { config: r, env_name: rm.host, remote: Some(rm) },
        None => DiscoveredView { config: r, env_name: "local"@, remote: None },
    }
}

/// A repo found by scanning a local directory.
pub open spec fn local_repo(path: Seq<char>) -> DiscoveredView {
    DiscoveredView { config: RepoView { path, remote: None }, env_name: "local"@, remote: None }
}

/// A repo found by scanning a directory of the remote `r`.
pub open spec fn remote_repo(path: Seq<char>, r: RemoteView) -> DiscoveredView {
    DiscoveredView { config: RepoView { path, remote: Some(r) }, env_name: r.host, remote: Some(r) }
}

/// The lists of `found`, one after the other.
pub open spec fn flatten(found: Seq<Seq<Seq<char>>>) -> Seq<Seq<char>>
    decreases found.len(),
{
    if found.len() == 0 {
        Seq::empty()
    } else {
        flatten(found.drop_last()) + found.last()
    }
}

/// The repos in the order discovery meets them: the configured repos, then
/// those found in the local scan directories (`local_found[i]` for the
/// `i`th), then those found in the remote's scan directories.
pub open spec fn candidates(c: ConfigView, local_found: Seq<Seq<Seq<char>>>, remote_found: Seq<Seq<Seq<char>>>) -> Seq<
    DiscoveredView,
> {
    c.repos.map_values(|r: RepoView| explicit_repo(r)) + flatten(local_found).map_values(
        |p: Seq<char>| local_repo(p),
    ) + match c.remote {
        Some(r) => flatten(remote_found).map_values(|p: Seq<char>| remote_repo(p, r)),
        None => Seq::empty(),
    }
}

/// `x` has the same path and place as one of `acc`.
pub open spec fn seen(acc: Seq<DiscoveredView>, x: DiscoveredView) -> bool {
    exists|i: int| 0 <= i < acc.len() && #[trigger] acc[i].config.path == x.config.path && acc[i].env_name == x.env_name
}

/// The repos of `c`, each (path, place) only the first time it comes.
pub open spec fn first_seen(c: Seq<DiscoveredView>) -> Seq<DiscoveredView>
    decreases c.len(),
{
    if c.len() == 0 {
        Seq::empty()
    } else {
        let acc = first_seen(c.drop_last());
        if seen(acc, c.last()) {
            acc
        } else {
            acc.push(c.last())
        }
    }
}

/// No two repos share both path and place.
pub open spec fn distinct_places(s: Seq<DiscoveredView>) -> bool {
    forall|i: int, j: int|
        0 <= i < j < s.len() ==> !(#[trigger] s[i].config.path == #[trigger] s[j].config.path && s[i].env_name
            == s[j].env_name)
}

/// Discovery lists each (path, place) once, and every candidate's (path,
/// place) is listed.
pub proof fn law_first_seen_distinct(c: Seq<DiscoveredView>)
    ensures
        distinct_places(first_seen(c)),
        forall|k: int| 0 <= k < c.len() ==> seen(first_seen(c), #[trigger] c[k]),
    decreases c.len(),
{
    if c.len() > 0 {
        let pre = c.drop_last();
        law_first_seen_distinct(pre);
        let acc = first_seen(pre);
        let x = c.last();
        if !seen(acc, x) {
            let r = acc.push(x);
            assert forall|i: int, j: int| 0 <= i < j < r.len() implies !(#[trigger] r[i].config.path
                == #[trigger] r[j].config.path && r[i].env_name == r[j].env_name) by {
                if j == acc.len() {
                    assert(r[i] == acc[i]);
                    if r[i].config.path == r[j].config.path && r[i].env_name == r[j].env_name {
                        assert(seen(acc, x));
                    }
                } else {
                    assert(r[i] == acc[i] && r[j] == acc[j]);
                }
            }
            assert forall|k: int| 0 <= k < c.len() implies seen(r, #[trigger] c[k]) by {
                if k < pre.len() {
                    assert(c[k] == pre[k]);
                    assert(seen(acc, pre[k]));
                    let i = choose|i: int| 0 <= i < acc.len() && #[trigger] acc[i].config.path == pre[k].config.path
                        && acc[i].env_name == pre[k].env_name;
                    assert(r[i] == acc[i]);
                } else {
                    assert(r[acc.len() as int] == x);
                }
            }
        } else {
            assert forall|k: int| 0 <= k < c.len() implies seen(acc, #[trigger] c[k]) by {
                if k < pre.len() {
                    assert(c[k] == pre[k]);
                }
            }
        }
    }
}

/// Appends `x` unless a repo with its path and place is there already.
fn push_unseen(acc: &mut Vec<DiscoveredRepo>, x: DiscoveredRepo)
    ensures
        discovered_views(final(acc)@) == (if seen(discovered_views(old(acc)@), x@) {
            discovered_views(old(acc)@)
        } else {
            discovered_views(old(acc)@).push(x@)
        }),
{
    let ghost av = discovered_views(acc@);
    let mut i: usize = 0;
    while i < acc.len()
        invariant
            i <= acc@.len(),
            av == discovered_views(acc@),
            forall|j: int|
                0 <= j < i ==> !((#[trigger] av[j]).config.path == x@.config.path && av[j].env_name
                    == x@.env_name),
        decreases acc.len() - i,
    {
        if str_eq(acc[i].config.path.as_str(), x.config.path.as_str()) && str_eq(
            acc[i].env_name.as_str(),
            x.env_name.as_str(),
        ) {
            assert(av[i as int].config.path == x@.config.path);
            return;
        }
        i = i + 1;
    }
    let ghost xv = x@;
    acc.push(x);
    assert(discovered_views(acc@) =~= av.push(xv));
}

/// The repos on the list, each (path, place) once.
fn keep_first_seen(cands: Vec<DiscoveredRepo>) -> (r: Vec<DiscoveredRepo>)
    ensures
        discovered_views(r@) == first_seen(discovered_views(cands@)),
{
    let ghost cv = discovered_views(cands@);
    let mut rest = cands;
    let mut acc: Vec<DiscoveredRepo> = Vec::new();
    let ghost mut n: int = 0;
    assert(cands@.skip(0) =~= cands@);
    assert(cv.take(0) =~= Seq::<DiscoveredView>::empty());
    assert(discovered_views(acc@) =~= Seq::<DiscoveredView>::empty());
    while rest.len() > 0
        invariant
            0 <= n <= cv.len(),
            cv == discovered_views(cands@),
            rest@ == cands@.skip(n),
            discovered_views(acc@) == first_seen(cv.take(n)),
        decreases rest.len(),
    {
        let x = rest.remove(0);
        assert(x == cands@[n]);
        assert(rest@ =~= cands@.skip(n + 1));
        assert(cv.take(n + 1).drop_last() =~= cv.take(n));
        assert(cv.take(n + 1).last() == x@);
        push_unseen(&mut acc, x);
        proof {
            n = n + 1;
        }
    }
    assert(cv.take(n) =~= cv);
    acc
}

/// Adds, for each path of each list of `found`, the repo that `make` builds.
fn push_found(cands: &mut Vec<DiscoveredRepo>, found: &Vec<Vec<String>>, remote: &Option<RemoteConfig>)
    ensures
        discovered_views(final(cands)@) == discovered_views(old(cands)@) + match opt_remote(*remote) {
            Some(r) => flatten(found@.map_values(|v: Vec<String>| str_views(v@))).map_values(
                |p: Seq<char>| remote_repo(p, r),
            ),
            None => flatten(found@.map_values(|v: Vec<String>| str_views(v@))).map_values(
                |p: Seq<char>| local_repo(p),
            ),
        },
{
    let ghost fv = found@.map_values(|v: Vec<String>| str_views(v@));
    let ghost mk = match opt_remote(*remote) {
        Some(r) => |p: Seq<char>| remote_repo(p, r),
        None => |p: Seq<char>| local_repo(p),
    };
    let ghost start = discovered_views(cands@);
    let mut i: usize = 0;
    assert(fv.take(0) =~= Seq::<Seq<Seq<char>>>::empty());
    assert(discovered_views(cands@) =~= start + flatten(fv.take(0)).map_values(mk));
    while i < found.len()
        invariant
            i <= found@.len(),
            fv == found@.map_values(|v: Vec<String>| str_views(v@)),
            mk == (match opt_remote(*remote) {
                Some(r) => |p: Seq<char>| remote_repo(p, r),
                None => |p: Seq<char>| local_repo(p),
            }),
            discovered_views(cands@) == start + flatten(fv.take(i as int)).map_values(mk),
        decreases found.len() - i,
    {
        let ghost mid = discovered_views(cands@);
        let list = &found[i];
        let mut k: usize = 0;
        assert(str_views(list@).take(0).map_values(mk) =~= Seq::<DiscoveredView>::empty());
        assert(discovered_views(cands@) =~= mid + str_views(list@).take(0).map_values(mk));
        while k < list.len()
            invariant
                k <= list@.len(),
                mk == (match opt_remote(*remote) {
                    Some(r) => |p: Seq<char>| remote_repo(p, r),
                    None => |p: Seq<char>| local_repo(p),
                }),
                discovered_views(cands@) == mid + str_views(list@).take(k as int).map_values(mk),
            decreases list.len() - k,
        {
            let path = list[k].clone();
            let env = match remote {
                Some(r) => r.host.clone(),
                None => String::from_str("local"),
            };
            let d = DiscoveredRepo {
                config: RepoConfig { path: path.clone(), remote: copy_remote(remote) },
                env_name: env,
                remote: copy_remote(remote),
            };
            assert(d@ == mk(list@[k as int]@));
            let ghost before = discovered_views(cands@);
            cands.push(d);
            assert(discovered_views(cands@) =~= before.push(mk(list@[k as int]@)));
            assert(str_views(list@).take(k + 1).map_values(mk) =~= str_views(list@).take(k as int).map_values(
                mk,
            ).push(mk(list@[k as int]@)));
            k = k + 1;
        }
        assert(str_views(list@).take(k as int) =~= str_views(list@));
        assert(fv.take(i + 1).drop_last() =~= fv.take(i as int));
        assert(fv.take(i + 1).last() == str_views(list@));
        assert(flatten(fv.take(i + 1)).map_values(mk) =~= flatten(fv.take(i as int)).map_values(mk)
            + str_views(list@).map_values(mk));
        i = i + 1;
    }
    assert(fv.take(i as int) =~= fv);
}

/// Discover all repos: explicit repos + local scan_dirs + remote scan_dirs,
/// each (path, place) once, in that order. `local_found[i]` holds what the
/// scan of the `i`th local scan directory found, `remote_found[j]` what the
/// scan of the remote's `j`th scan directory found.
pub fn discover_repos(config: &Config, local_found: &Vec<Vec<String>>, remote_found: &Vec<Vec<String>>) -> (r: Vec<
    DiscoveredRepo,
>)
    ensures
        discovered_views(r@) == first_seen(
            candidates(
                config@,
                local_found@.map_values(|v: Vec<String>| str_views(v@)),
                remote_found@.map_values(|v: Vec<String>| str_views(v@)),
            ),
        ),
{
    let mut cands: Vec<DiscoveredRepo> = Vec::new();
    let mut i: usize = 0;
    while i < config.repos.len()
        invariant
            i <= config.repos@.len(),
            discovered_views(cands@) == repo_views(config.repos@).take(i as int).map_values(
                |r: RepoView| explicit_repo(r),
            ),
        decreases config.repos.len() - i,
    {
        let repo = &config.repos[i];
        let (env, remote) = match &repo.remote {
            Some(r) => (r.host.clone(), Some(r.duplicate())),
            None => (String::from_str("local"), None),
        };
        let d = DiscoveredRepo { config: repo.duplicate(), env_name: env, remote };
        assert(d@ == explicit_repo(config.repos@[i as int]@));
        let ghost before = discovered_views(cands@);
        cands.push(d);
        assert(discovered_views(cands@) =~= before.push(explicit_repo(config.repos@[i as int]@)));
        assert(repo_views(config.repos@).take(i + 1).map_values(|r: RepoView| explicit_repo(r))
            =~= repo_views(config.repos@).take(i as int).map_values(|r: RepoView| explicit_repo(r)).push(
            explicit_repo(config.repos@[i as int]@),
        ));
        i = i + 1;
    }
    assert(repo_views(config.repos@).take(i as int) =~= config@.repos);
    let none: Option<RemoteConfig> = None;
    push_found(&mut cands, local_found, &none);
    match &config.remote {
        Some(_) => {
            push_found(&mut cands, remote_found, &config.remote);
        },
        None => {},
    }
    let ghost fl = local_found@.map_values(|v: Vec<String>| str_views(v@));
    let ghost fr = remote_found@.map_values(|v: Vec<String>| str_views(v@));
    assert(discovered_views(cands@) =~= candidates(config@, fl, fr));
    keep_first_seen(cands)
}

/// The repos that a scan of a remote directory printed: one per non-empty
/// line, trailing slashes removed.
pub open spec fn scanned_paths(output: Seq<char>) -> Seq<Seq<char>> {
    lines_of(output).filter(|l: Seq<char>| l.len() > 0).map_values(|l: Seq<char>| trim_end_char(l, '/'))
}

/// The command that scans remote directory `dir` for git repos with
/// worktrees: only repos with a `.git/worktrees` directory (actual worktree
/// usage) are printed, which is dramatically fewer than all git repos.
pub fn scan_remote_command(dir: &str) -> (r: Vec<String>)
    ensures
        str_views(r@) == seq![
            "sh"@,
            "-c"@,
            "for d in "@ + dir@
                + "/*/; do [ -d \"$d/.git/worktrees\" ] && echo \"$d\"; done 2>/dev/null; true"@,
        ],
{
    let mut script = String::from_str("for d in ");
    script.append(dir);
    script.append("/*/; do [ -d \"$d/.git/worktrees\" ] && echo \"$d\"; done 2>/dev/null; true");
    let mut v: Vec<String> = Vec::new();
    v.push(String::from_str("sh"));
    v.push(String::from_str("-c"));
    v.push(script);
    proof {
        let expected = seq![
            "sh"@,
            "-c"@,
            "for d in "@ + dir@
                + "/*/; do [ -d \"$d/.git/worktrees\" ] && echo \"$d\"; done 2>/dev/null; true"@,
        ];
        assert(str_views(v@) =~= expected);
    }
    v
}

/// Scan a remote directory for git repos with worktrees: the repos that the
/// scan command printed (`output`).
pub fn scan_remote_dir(output: &str) -> (r: Vec<String>)
    ensures
        str_views(r@) == scanned_paths(output@),
{
    let ls = lines(&chars_of(output));
    let ghost kept = views(ls@).filter(|l: Seq<char>| l.len() > 0);
    let mut r: Vec<String> = Vec::new();
    let mut i: usize = 0;
    proof {
        reveal(Seq::filter);
        assert(views(ls@).take(0) =~= Seq::<Seq<char>>::empty());
        assert(str_views(r@) =~= views(ls@).take(0).filter(|l: Seq<char>| l.len() > 0).map_values(
            |l: Seq<char>| trim_end_char(l, '/'),
        ));
    }
    while i < ls.len()
        invariant
            i <= ls@.len(),
            views(ls@) == lines_of(output@),
            str_views(r@) == views(ls@).take(i as int).filter(|l: Seq<char>| l.len() > 0).map_values(
                |l: Seq<char>| trim_end_char(l, '/'),
            ),
        decreases ls.len() - i,
    {
        let ghost pre = views(ls@).take(i as int);
        proof {
            crate::sort::lemma_filter_push(pre, ls@[i as int]@, |l: Seq<char>| l.len() > 0);
            assert(views(ls@).take(i + 1) =~= pre.push(ls@[i as int]@));
        }
        if ls[i].len() > 0 {
            let ghost before = str_views(r@);
            r.push(string_of(&trim_end_char_chars(&ls[i], '/')));
            assert(str_views(r@) =~= before.push(trim_end_char(ls@[i as int]@, '/')));
            assert(pre.filter(|l: Seq<char>| l.len() > 0).push(ls@[i as int]@).map_values(
                |l: Seq<char>| trim_end_char(l, '/'),
            ) =~= pre.filter(|l: Seq<char>| l.len() > 0).map_values(|l: Seq<char>| trim_end_char(l, '/')).push(
                trim_end_char(ls@[i as int]@, '/'),
            ));
        }
        i = i + 1;
    }
    assert(views(ls@).take(i as int) =~= views(ls@));
    r
}

/// Calls `dirs::home_dir`, giving the home directory as text.
#[verifier::external_body]
fn home_dir() -> (r: Option<String>) {
    dirs::home_dir().map(|p| p.display().to_string())
}

/// `path` with a leading `~/` replaced by the home directory `home`, when
/// there is one.
pub open spec fn tilde_expanded(path: Seq<char>, home: Option<Seq<char>>) -> Seq<char> {
    if has_prefix(path, "~/"@) && home is Some {
        home->0 + path.skip(1)
    } else {
        path
    }
}

/// Expands a leading `~/` with the home directory `home`.
pub fn expand_tilde_with(path: &str, home: Option<&str>) -> (r: String)
    ensures
        r@ == tilde_expanded(
            path@,
            match home {
                Some(h) => Some(h@),
                None => None,
            },
        ),
{
    let p = chars_of(path);
    let tilde = chars_of("~/");
    proof {
        reveal_strlit("~/");
    }
    if crate::text::starts_with(&p, &tilde) {
        match home {
            Some(h) => {
                let mut r = String::from_str(h);
                crate::text::append_chars(&mut r, &crate::text::chars_skip(&p, 1));
                r
            },
            None => String::from_str(path),
        }
    } else {
        String::from_str(path)
    }
}

/// Expands a leading `~/` with the user's home directory. Whatever the home
/// directory is, a path without `~/` is kept, and an expanded one ends with
/// the path after its `~`.
pub fn expand_tilde(path: &str) -> (r: String)
    ensures
        !has_prefix(path@, "~/"@) ==> r@ == path@,
        r@ == path@ || (r@.len() >= path@.len() - 1 && r@.skip(r@.len() - (path@.len() - 1)) == path@.skip(1)),
{
    let home = home_dir();
    match &home {
        Some(h) => {
            let r = expand_tilde_with(path, Some(h.as_str()));
            proof {
                reveal_strlit("~/");
                if has_prefix(path@, "~/"@) {
                    assert(r@ == h@ + path@.skip(1));
                    assert(r@.skip(r@.len() - (path@.len() - 1)) =~= path@.skip(1));
                }
            }
            r
        },
        None => expand_tilde_with(path, None),
    }
}

} // verus!
