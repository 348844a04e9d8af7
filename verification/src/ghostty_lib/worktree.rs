//! Git worktrees: their model, the batch git listing and its parser.
use vstd::prelude::*;

use crate::strmap::StrMap;
use crate::text::{
    chars_of, chars_strip_prefix, chars_eq, join, join_strings, lemma_trim_end_char, lines, lines_of,
    parse_u32, parse_u32_chars, replace_char, replace_char_chars, split_once, split_once_chars,
    str_eq, str_views, string_of, strip_prefix, trim, trim_chars, trim_end_char,
    trim_end_char_chars, views,
};

verus! {

/// The last commit of a worktree.
#[derive(Debug, Clone)]
pub struct WorktreeCommit {
    pub short_sha: String,
    pub message: String,
    pub timestamp: u64,
}

/// Uncommitted state of a worktree.
#[derive(Debug, Clone, Copy)]
pub struct WorktreeWorkingTree {
    pub staged: bool,
    pub modified: bool,
    pub untracked: bool,
    pub diff: WorktreeDiff,
}

/// Line counts of uncommitted changes.
#[derive(Debug, Clone, Copy)]
pub struct WorktreeDiff {
    pub added: u32,
    pub deleted: u32,
}

/// Commits ahead of and behind the upstream branch.
#[derive(Debug, Clone, Copy)]
pub struct WorktreeRemote {
    pub ahead: u32,
    pub behind: u32,
}

/// A worktree of a repository.
#[derive(Debug, Clone)]
pub struct Worktree {
    pub branch: String,
    pub path: String,
    pub is_main: bool,
    pub is_current: bool,
    pub commit: Option<WorktreeCommit>,
    pub working_tree: Option<WorktreeWorkingTree>,
    pub remote: Option<WorktreeRemote>,
}

impl Default for WorktreeCommit {
    fn default() -> (r: Self)
        ensures
            r.short_sha@ == Seq::<char>::empty(),
            r.message@ == Seq::<char>::empty(),
            r.timestamp == 0,
    {
        WorktreeCommit { short_sha: String::new(), message: String::new(), timestamp: 0 }
    }
}

impl Default for WorktreeDiff {
    fn default() -> (r: Self)
        ensures
            r == (WorktreeDiff { added: 0, deleted: 0 }),
    {
        WorktreeDiff { added: 0, deleted: 0 }
    }
}

impl Default for WorktreeRemote {
    fn default() -> (r: Self)
        ensures
            r == (WorktreeRemote { ahead: 0, behind: 0 }),
    {
        WorktreeRemote { ahead: 0, behind: 0 }
    }
}

impl Default for WorktreeWorkingTree {
    fn default() -> (r: Self)
        ensures
            r == (WorktreeWorkingTree {
                staged: false,
                modified: false,
                untracked: false,
                diff: WorktreeDiff { added: 0, deleted: 0 },
            }),
    {
        WorktreeWorkingTree {
            staged: false,
            modified: false,
            untracked: false,
            diff: WorktreeDiff { added: 0, deleted: 0 },
        }
    }
}

impl WorktreeCommit {
    /// A copy with the same contents.
    pub fn duplicate(&self) -> (r: WorktreeCommit)
        ensures
            r == *self,
    {
        WorktreeCommit { short_sha: self.short_sha.clone(), message: self.message.clone(), timestamp: self.timestamp }
    }
}

impl Worktree {
    /// A copy with the same contents.
    pub fn duplicate(&self) -> (r: Worktree)
        ensures
            r == *self,
    {
        Worktree {
            branch: self.branch.clone(),
            path: self.path.clone(),
            is_main: self.is_main,
            is_current: self.is_current,
            commit: match &self.commit {
                Some(c) => Some(c.duplicate()),
                None => None,
            },
            working_tree: self.working_tree,
            remote: self.remote,
        }
    }
}

/// A copy of a list of worktrees.
pub fn copy_worktrees(v: &Vec<Worktree>) -> (r: Vec<Worktree>)
    ensures
        r@ == v@,
{
    let mut r: Vec<Worktree> = Vec::new();
    let mut i: usize = 0;
    while i < v.len()
        invariant
            i <= v.len(),
            r@ == v@.take(i as int),
        decreases v.len() - i,
    {
        r.push(v[i].duplicate());
        assert(r@ =~= v@.take(i + 1));
        i = i + 1;
    }
    assert(v@.take(i as int) =~= v@);
    r
}

/// The model of a [`WorktreeCommit`].
pub struct CommitView {
    pub short_sha: Seq<char>,
    pub message: Seq<char>,
    pub timestamp: u64,
}

/// The model of a [`Worktree`].
pub struct WorktreeView {
    pub branch: Seq<char>,
    pub path: Seq<char>,
    pub is_main: bool,
    pub is_current: bool,
    pub commit: Option<CommitView>,
    pub working_tree: Option<WorktreeWorkingTree>,
    pub remote: Option<WorktreeRemote>,
}

impl View for WorktreeCommit {
    type V = CommitView;

    open spec fn view(&self) -> CommitView {
        CommitView {
            short_sha: self.short_sha@,
            message: self.message@,
            timestamp: self.timestamp,
        }
    }
}

impl View for Worktree {
    type V = WorktreeView;

    open spec fn view(&self) -> WorktreeView {
        WorktreeView {
            branch: self.branch@,
            path: self.path@,
            is_main: self.is_main,
            is_current: self.is_current,
            commit: match self.commit {
                Some(c) => Some(c@),
                None => None,
            },
            working_tree: self.working_tree,
            remote: self.remote,
        }
    }
}

/// The models of a list of worktrees.
pub open spec fn worktree_views(s: Seq<Worktree>) -> Seq<WorktreeView> {
    s.map_values(|w: Worktree| w@)
}

/// The models of the worktrees of each repository.
pub open spec fn repo_map_view(m: Map<Seq<char>, Vec<Worktree>>) -> Map<Seq<char>, Seq<WorktreeView>> {
    m.map_values(|v: Vec<Worktree>| worktree_views(v@))
}

// ---------------------------------------------------------------------------
// Commands
// ---------------------------------------------------------------------------

/// Create a new worktree via `wt switch --yes --create`: the command
/// `wt -C <repo> switch --yes --create <branch> [--base <base>]`.
pub fn create_worktree(repo_path: &str, branch: &str, base: Option<&str>) -> (r: Vec<String>)
    ensures
        str_views(r@) == seq!["wt"@, "-C"@, repo_path@, "switch"@, "--yes"@, "--create"@, branch@]
            + match base {
            Some(b) => seq!["--base"@, b@],
            None => Seq::<Seq<char>>::empty(),
        },
{
    let mut v: Vec<String> = Vec::new();
    v.push(String::from_str("wt"));
    v.push(String::from_str("-C"));
    v.push(String::from_str(repo_path));
    v.push(String::from_str("switch"));
    v.push(String::from_str("--yes"));
    v.push(String::from_str("--create"));
    v.push(String::from_str(branch));
    match base {
        Some(b) => {
            v.push(String::from_str("--base"));
            v.push(String::from_str(b));
        },
        None => {},
    }
    proof {
        let expected = seq!["wt"@, "-C"@, repo_path@, "switch"@, "--yes"@, "--create"@, branch@]
            + match base {
            Some(b) => seq!["--base"@, b@],
            None => Seq::<Seq<char>>::empty(),
        };
        assert(str_views(v@) =~= expected);
    }
    v
}

/// Remove a worktree via `wt remove`: the command
/// `wt -C <repo> remove --yes --foreground <branch> [--force]`.
pub fn remove_worktree(repo_path: &str, branch: &str, force: bool) -> (r: Vec<String>)
    ensures
        str_views(r@) == seq!["wt"@, "-C"@, repo_path@, "remove"@, "--yes"@, "--foreground"@, branch@]
            + if force {
            seq!["--force"@]
        } else {
            Seq::<Seq<char>>::empty()
        },
{
    let mut v: Vec<String> = Vec::new();
    v.push(String::from_str("wt"));
    v.push(String::from_str("-C"));
    v.push(String::from_str(repo_path));
    v.push(String::from_str("remove"));
    v.push(String::from_str("--yes"));
    v.push(String::from_str("--foreground"));
    v.push(String::from_str(branch));
    if force {
        v.push(String::from_str("--force"));
    }
    proof {
        let expected = seq!["wt"@, "-C"@, repo_path@, "remove"@, "--yes"@, "--foreground"@, branch@]
            + if force {
            seq!["--force"@]
        } else {
            Seq::<Seq<char>>::empty()
        };
        assert(str_views(v@) =~= expected);
    }
    v
}

/// `'<path>'` with single quotes inside escaped for the shell.
pub open spec fn single_quoted(p: Seq<char>) -> Seq<char> {
    "'"@ + replace_char(p, '\'', "'\\''"@) + "'"@
}

/// The start of the batch listing script, before the quoted repo paths.
pub open spec fn batch_script_head() -> Seq<char> {
    "for d in "@
}

/// The rest of the batch listing script, after the quoted repo paths.
pub open spec fn batch_script_tail() -> Seq<char> {
    "; do\necho \"___REPO___$d\"\ngit -C \"$d\" worktree list --porcelain 2>/dev/null\necho \"___STATUS___\"\ngit -C \"$d\" status --porcelain 2>/dev/null | head -20\necho \"___REMOTE___\"\ngit -C \"$d\" rev-list --left-right --count HEAD...@{upstream} 2>/dev/null\necho \"___ENDREPO___\"\ndone"@
}

/// The shell script that lists, for each repo, its worktrees (porcelain), its
/// status (first 20 lines) and its ahead/behind counts, between markers.
pub open spec fn batch_script(repo_paths: Seq<Seq<char>>) -> Seq<char> {
    batch_script_head() + join(repo_paths.map_values(|p: Seq<char>| single_quoted(p)), " "@)
        + batch_script_tail()
}

/// Builds the script that fast batch listing runs with `sh -c`, locally or over SSH.
pub fn batch_git_script(repo_paths: &Vec<String>) -> (r: String)
    ensures
        r@ == batch_script(str_views(repo_paths@)),
{
    let quote = chars_of("'");
    let escaped_quote = chars_of("'\\''");
    let mut quoted: Vec<String> = Vec::new();
    let mut i: usize = 0;
    while i < repo_paths.len()
        invariant
            i <= repo_paths.len(),
            escaped_quote@ == "'\\''"@,
            quoted@.len() == i,
            forall|k: int| 0 <= k < i ==> #[trigger] quoted@[k]@ == single_quoted(repo_paths@[k]@),
        decreases repo_paths.len() - i,
    {
        let p = chars_of(repo_paths[i].as_str());
        let e = replace_char_chars(&p, '\'', &escaped_quote);
        let mut q = String::from_str("'");
        crate::text::append_chars(&mut q, &e);
        q.append("'");
        quoted.push(q);
        i = i + 1;
    }
    assert(str_views(quoted@) =~= str_views(repo_paths@).map_values(|p: Seq<char>| single_quoted(p)));
    let joined = join_strings(&quoted, " ");
    let mut script = String::from_str("for d in ");
    script.append(joined.as_str());
    script.append("; do\necho \"___REPO___$d\"\ngit -C \"$d\" worktree list --porcelain 2>/dev/null\necho \"___STATUS___\"\ngit -C \"$d\" status --porcelain 2>/dev/null | head -20\necho \"___REMOTE___\"\ngit -C \"$d\" rev-list --left-right --count HEAD...@{upstream} 2>/dev/null\necho \"___ENDREPO___\"\ndone");
    script
}

/// Fast batch listing using git commands directly instead of `wt`, for local
/// and remote repos alike: the command to run, `sh -c <batch script>`, whose
/// output `parse_batch_git_output` reads; `None` when there are no repos,
/// whose listing is empty without running anything.
pub fn list_worktrees_batch_fast(repo_paths: &Vec<String>) -> (r: Option<Vec<String>>)
    ensures
        repo_paths@.len() == 0 ==> r is None,
        repo_paths@.len() > 0 ==> r is Some && str_views(r->0@) == seq![
            "sh"@,
            "-c"@,
            batch_script(str_views(repo_paths@)),
        ],
{
    if repo_paths.len() == 0 {
        return None;
    }
    let mut v: Vec<String> = Vec::new();
    v.push(String::from_str("sh"));
    v.push(String::from_str("-c"));
    v.push(batch_git_script(repo_paths));
    assert(str_views(v@) =~= seq!["sh"@, "-c"@, batch_script(str_views(repo_paths@))]);
    Some(v)
}

/// The first worktree on `branch`.
pub open spec fn first_on_branch(ws: Seq<Worktree>, branch: Seq<char>) -> Option<Worktree>
    decreases ws.len(),
{
    if ws.len() == 0 {
        None
    } else if ws[0].branch@ == branch {
        Some(ws[0])
    } else {
        first_on_branch(ws.drop_first(), branch)
    }
}

/// Find a worktree by branch name among a repo's worktrees.
pub fn find_worktree(worktrees: Vec<Worktree>, branch: &str) -> (r: Option<Worktree>)
    ensures
        r == first_on_branch(worktrees@, branch@),
{
    let ghost orig = worktrees@;
    let mut ws = worktrees;
    assert(orig.skip(0) =~= orig);
    let ghost mut n: int = 0;
    while ws.len() > 0
        invariant
            0 <= n <= orig.len(),
            orig == worktrees@,
            ws@ == orig.skip(n),
            first_on_branch(ws@, branch@) == first_on_branch(orig, branch@),
        decreases ws.len(),
    {
        let ghost before = ws@;
        let w = ws.remove(0);
        assert(before.drop_first() =~= ws@);
        assert(before[0] == w);
        if str_eq(w.branch.as_str(), branch) {
            assert(first_on_branch(before, branch@) == Some(w));
            return Some(w);
        }
        proof {
            n = n + 1;
        }
        assert(ws@ =~= orig.skip(n));
    }
    None
}

// ---------------------------------------------------------------------------
// The batch output parser: model
// ---------------------------------------------------------------------------

/// The part of a repo's block being read.
#[derive(Clone, Copy, PartialEq, Eq, Structural)]
pub enum Section {
    Worktree,
    Status,
    Remote,
}

/// The state of the batch parser between lines.
pub struct BatchState {
    /// Worktrees of each finished repo block.
    pub result: Map<Seq<char>, Seq<WorktreeView>>,
    /// The repo whose block is being read.
    pub current_repo: Option<Seq<char>>,
    pub section: Section,
    /// Worktrees read so far in the current block.
    pub worktrees: Seq<WorktreeView>,
    /// Path and branch of the worktree being read.
    pub cur_path: Option<Seq<char>>,
    pub cur_branch: Option<Seq<char>>,
    /// The worktree being read is the first of its block.
    pub is_first: bool,
    pub staged: bool,
    pub modified: bool,
    pub untracked: bool,
    pub ahead: u32,
    pub behind: u32,
}

/// The state before any line.
pub open spec fn batch_init() -> BatchState {
    BatchState {
        result: Map::empty(),
        current_repo: None,
        section: Section::Worktree,
        worktrees: Seq::empty(),
        cur_path: None,
        cur_branch: None,
        is_first: true,
        staged: false,
        modified: false,
        untracked: false,
        ahead: 0,
        behind: 0,
    }
}

/// Remote tracking info, present only when ahead or behind.
pub open spec fn remote_info(ahead: u32, behind: u32) -> Option<WorktreeRemote> {
    if ahead > 0 || behind > 0 {
        Some(WorktreeRemote { ahead, behind })
    } else {
        None
    }
}

/// Working tree flags with an empty diff.
pub open spec fn working_info(staged: bool, modified: bool, untracked: bool) -> WorktreeWorkingTree {
    WorktreeWorkingTree { staged, modified, untracked, diff: WorktreeDiff { added: 0, deleted: 0 } }
}

/// `worktrees` with the worktree being read appended, when both its path and
/// its branch are known.
pub open spec fn flushed(
    worktrees: Seq<WorktreeView>,
    path: Option<Seq<char>>,
    branch: Option<Seq<char>>,
    is_main: bool,
    staged: bool,
    modified: bool,
    untracked: bool,
    ahead: u32,
    behind: u32,
) -> Seq<WorktreeView> {
    match (path, branch) {
        (Some(p), Some(b)) => worktrees.push(
            WorktreeView {
                branch: b,
                path: p,
                is_main,
                is_current: false,
                commit: None,
                working_tree: Some(working_info(staged, modified, untracked)),
                remote: remote_info(ahead, behind),
            },
        ),
        _ => worktrees,
    }
}

/// `result` with the block of `repo` recorded, when it has worktrees.
pub open spec fn recorded(
    result: Map<Seq<char>, Seq<WorktreeView>>,
    repo: Option<Seq<char>>,
    worktrees: Seq<WorktreeView>,
) -> Map<Seq<char>, Seq<WorktreeView>> {
    match repo {
        Some(r) => if worktrees.len() > 0 {
            result.insert(r, worktrees)
        } else {
            result
        },
        None => result,
    }
}

/// One `git status --porcelain` line folded into the status flags. The
/// two status columns are the first two bytes of the line in UTF-8: a line
/// that starts with a non-ASCII character has at least two bytes, none of
/// which is `' '` or `'?'`.
pub open spec fn status_flags(line: Seq<char>, staged: bool, modified: bool, untracked: bool) -> (
    bool,
    bool,
    bool,
) {
    let non_ascii0 = (line[0] as u32) >= 0x80;
    if !(line.len() >= 2 || non_ascii0) {
        (staged, modified, untracked)
    } else {
        let x_q = line[0] == '?';
        let x_sp = line[0] == ' ';
        let y_q = !non_ascii0 && line[1] == '?';
        let y_sp = !non_ascii0 && line[1] == ' ';
        if x_q && y_q {
            (staged, modified, true)
        } else {
            (staged || (!x_sp && !x_q), modified || (!y_sp && !y_q), untracked)
        }
    }
}

/// A count parsed as `u32`, or 0.
pub open spec fn count_or_zero(s: Seq<char>) -> u32 {
    match parse_u32(s) {
        Some(n) => n,
        None => 0,
    }
}

/// The state after a line of a section's body.
pub open spec fn section_step(st: BatchState, line: Seq<char>) -> BatchState {
    match st.section {
        Section::Worktree => match strip_prefix(line, "worktree "@) {
            Some(path) => BatchState {
                worktrees: flushed(
                    st.worktrees,
                    st.cur_path,
                    st.cur_branch,
                    st.is_first,
                    false,
                    false,
                    false,
                    0,
                    0,
                ),
                is_first: if st.cur_path is Some {
                    false
                } else {
                    st.is_first
                },
                cur_path: Some(path),
                cur_branch: None,
                ..st
            },
            None => match strip_prefix(line, "branch refs/heads/"@) {
                Some(b) => BatchState { cur_branch: Some(b), ..st },
                None => st,
            },
        },
        Section::Status => if line.len() == 0 {
            st
        } else {
            let f = status_flags(line, st.staged, st.modified, st.untracked);
            BatchState { staged: f.0, modified: f.1, untracked: f.2, ..st }
        },
        Section::Remote => match split_once(line, '\t') {
            Some(ab) => BatchState {
                ahead: count_or_zero(trim(ab.0)),
                behind: count_or_zero(trim(ab.1)),
                ..st
            },
            None => st,
        },
    }
}

/// The first worktree of a finished block with the block's status and
/// ahead/behind counts applied.
pub open spec fn with_block_status(w: WorktreeView, st: BatchState) -> WorktreeView {
    WorktreeView {
        working_tree: Some(working_info(st.staged, st.modified, st.untracked)),
        remote: if st.ahead > 0 || st.behind > 0 {
            Some(WorktreeRemote { ahead: st.ahead, behind: st.behind })
        } else {
            w.remote
        },
        ..w
    }
}

/// The state after one line of batch output.
pub open spec fn batch_step(st: BatchState, line: Seq<char>) -> BatchState {
    match strip_prefix(line, "___REPO___"@) {
        Some(repo_path) => {
            let wts = flushed(
                st.worktrees,
                st.cur_path,
                st.cur_branch,
                st.is_first,
                st.staged,
                st.modified,
                st.untracked,
                st.ahead,
                st.behind,
            );
            BatchState {
                result: recorded(st.result, st.current_repo, wts),
                current_repo: Some(trim_end_char(repo_path, '/')),
                section: Section::Worktree,
                worktrees: Seq::empty(),
                cur_path: None,
                cur_branch: None,
                is_first: true,
                staged: false,
                modified: false,
                untracked: false,
                ahead: 0,
                behind: 0,
            }
        },
        None => if line == "___STATUS___"@ {
            BatchState {
                worktrees: flushed(
                    st.worktrees,
                    st.cur_path,
                    st.cur_branch,
                    st.is_first,
                    false,
                    false,
                    false,
                    0,
                    0,
                ),
                cur_path: None,
                cur_branch: None,
                section: Section::Status,
                staged: false,
                modified: false,
                untracked: false,
                ..st
            }
        } else if line == "___REMOTE___"@ {
            BatchState { section: Section::Remote, ahead: 0, behind: 0, ..st }
        } else if line == "___ENDREPO___"@ {
            let wts = if st.worktrees.len() > 0 {
                st.worktrees.update(0, with_block_status(st.worktrees[0], st))
            } else {
                st.worktrees
            };
            BatchState {
                result: recorded(st.result, st.current_repo, wts),
                current_repo: None,
                worktrees: Seq::empty(),
                ..st
            }
        } else {
            section_step(st, line)
        },
    }
}

/// The state after the given lines.
pub open spec fn batch_run(ls: Seq<Seq<char>>) -> BatchState
    decreases ls.len(),
{
    if ls.len() == 0 {
        batch_init()
    } else {
        batch_step(batch_run(ls.drop_last()), ls.last())
    }
}

/// The worktrees per repo that batch output describes.
pub open spec fn parse_batch_output(output: Seq<char>) -> Map<Seq<char>, Seq<WorktreeView>> {
    batch_run(lines_of(output)).result
}

/// Repo paths in the state carry no trailing `/`, and no recorded repo has an
/// empty worktree list.
pub open spec fn batch_state_ok(st: BatchState) -> bool {
    &&& forall|k: Seq<char>| #[trigger] st.result.contains_key(k) ==> (k.len() == 0 || k.last()
        != '/') && st.result[k].len() > 0
    &&& match st.current_repo {
        Some(c) => c.len() == 0 || c.last() != '/',
        None => true,
    }
}

/// Every step keeps the state well formed.
pub proof fn lemma_batch_run_ok(ls: Seq<Seq<char>>)
    ensures
        batch_state_ok(batch_run(ls)),
    decreases ls.len(),
{
    if ls.len() > 0 {
        lemma_batch_run_ok(ls.drop_last());
        let st = batch_run(ls.drop_last());
        let line = ls.last();
        match strip_prefix(line, "___REPO___"@) {
            Some(repo_path) => {
                lemma_trim_end_char(repo_path, '/');
            },
            None => {},
        }
    }
}

// ---------------------------------------------------------------------------
// The batch output parser: implementation
// ---------------------------------------------------------------------------

/// The batch parser's state, as values.
struct BatchParser {
    result: StrMap<Vec<Worktree>>,
    current_repo: Option<String>,
    section: Section,
    worktrees: Vec<Worktree>,
    cur_path: Option<String>,
    cur_branch: Option<String>,
    is_first: bool,
    staged: bool,
    modified: bool,
    untracked: bool,
    ahead: u32,
    behind: u32,
}

/// The characters of an optional string.
pub open spec fn opt_view(o: Option<String>) -> Option<Seq<char>> {
    match o {
        Some(s) => Some(s@),
        None => None,
    }
}

impl BatchParser {
    spec fn state(&self) -> BatchState {
        BatchState {
            result: repo_map_view(self.result@),
            current_repo: opt_view(self.current_repo),
            section: self.section,
            worktrees: worktree_views(self.worktrees@),
            cur_path: opt_view(self.cur_path),
            cur_branch: opt_view(self.cur_branch),
            is_first: self.is_first,
            staged: self.staged,
            modified: self.modified,
            untracked: self.untracked,
            ahead: self.ahead,
            behind: self.behind,
        }
    }

    /// Appends the worktree being read, when its path and branch are known;
    /// both are cleared either way.
    fn flush(
        &mut self,
        staged: bool,
        modified: bool,
        untracked: bool,
        ahead: u32,
        behind: u32,
    )
        ensures
            final(self).state() == (BatchState {
                worktrees: flushed(
                    old(self).state().worktrees,
                    old(self).state().cur_path,
                    old(self).state().cur_branch,
                    old(self).is_first,
                    staged,
                    modified,
                    untracked,
                    ahead,
                    behind,
                ),
                cur_path: None,
                cur_branch: None,
                ..old(self).state()
            }),
    {
        let path = self.cur_path.take();
        let branch = self.cur_branch.take();
        match (path, branch) {
            (Some(path), Some(branch)) => {
                let ghost before = worktree_views(self.worktrees@);
                let wt = Worktree {
                    branch,
                    path,
                    is_main: self.is_first,
                    is_current: false,
                    commit: None,
                    working_tree: Some(
                        WorktreeWorkingTree {
                            staged,
                            modified,
                            untracked,
                            diff: WorktreeDiff { added: 0, deleted: 0 },
                        },
                    ),
                    remote: if ahead > 0 || behind > 0 {
                        Some(WorktreeRemote { ahead, behind })
                    } else {
                        None
                    },
                };
                self.worktrees.push(wt);
                assert(worktree_views(self.worktrees@) =~= before.push(wt@));
            },
            _ => {},
        }
    }

    /// Records the finished block of the current repo, when it has worktrees,
    /// and empties the worktree list; the current repo is cleared.
    fn record(&mut self)
        ensures
            final(self).state() == (BatchState {
                result: recorded(
                    old(self).state().result,
                    old(self).state().current_repo,
                    old(self).state().worktrees,
                ),
                current_repo: None,
                worktrees: Seq::empty(),
                ..old(self).state()
            }),
    {
        let mut wts: Vec<Worktree> = Vec::new();
        std::mem::swap(&mut wts, &mut self.worktrees);
        assert(worktree_views(self.worktrees@) =~= Seq::<WorktreeView>::empty());
        match self.current_repo.take() {
            Some(prev) => {
                if wts.len() > 0 {
                    let ghost k = prev@;
                    let ghost v = wts;
                    let ghost before = self.result@;
                    self.result.insert(prev, wts);
                    assert(repo_map_view(self.result@) =~= repo_map_view(before).insert(
                        k,
                        worktree_views(v@),
                    ));
                }
            },
            None => {},
        }
    }

    /// Processes one line.
    fn step(&mut self, line: &Vec<char>)
        ensures
            final(self).state() == batch_step(old(self).state(), line@),
    {
        let repo_marker = chars_of("___REPO___");
        if let Some(repo_path) = chars_strip_prefix(line, &repo_marker) {
            let (staged, modified, untracked, ahead, behind) = (
                self.staged,
                self.modified,
                self.untracked,
                self.ahead,
                self.behind,
            );
            self.flush(staged, modified, untracked, ahead, behind);
            self.record();
            let trimmed = trim_end_char_chars(&repo_path, '/');
            self.current_repo = Some(string_of(&trimmed));
            self.cur_path = None;
            self.cur_branch = None;
            self.is_first = true;
            self.section = Section::Worktree;
            self.staged = false;
            self.modified = false;
            self.untracked = false;
            self.ahead = 0;
            self.behind = 0;
            return;
        }
        if chars_eq(line, &chars_of("___STATUS___")) {
            self.flush(false, false, false, 0, 0);
            self.section = Section::Status;
            self.staged = false;
            self.modified = false;
            self.untracked = false;
            return;
        }
        if chars_eq(line, &chars_of("___REMOTE___")) {
            self.section = Section::Remote;
            self.ahead = 0;
            self.behind = 0;
            return;
        }
        if chars_eq(line, &chars_of("___ENDREPO___")) {
            if self.worktrees.len() > 0 {
                let ghost st = self.state();
                let ghost before = worktree_views(self.worktrees@);
                let mut w0 = self.worktrees.remove(0);
                w0.working_tree = Some(
                    WorktreeWorkingTree {
                        staged: self.staged,
                        modified: self.modified,
                        untracked: self.untracked,
                        diff: WorktreeDiff { added: 0, deleted: 0 },
                    },
                );
                if self.ahead > 0 || self.behind > 0 {
                    w0.remote = Some(WorktreeRemote { ahead: self.ahead, behind: self.behind });
                }
                self.worktrees.insert(0, w0);
                assert(worktree_views(self.worktrees@) =~= before.update(
                    0,
                    with_block_status(before[0], st),
                ));
            }
            self.record();
            return;
        }
        match self.section {
            Section::Worktree => {
                if let Some(path) = chars_strip_prefix(line, &chars_of("worktree ")) {
                    let had_previous = self.cur_path.is_some();
                    self.flush(false, false, false, 0, 0);
                    if had_previous {
                        self.is_first = false;
                    }
                    self.cur_path = Some(string_of(&path));
                    self.cur_branch = None;
                } else if let Some(branch) = chars_strip_prefix(
                    line,
                    &chars_of("branch refs/heads/"),
                ) {
                    self.cur_branch = Some(string_of(&branch));
                }
            },
            Section::Status => {
                if line.len() > 0 {
                    let c0 = line[0];
                    let non_ascii0 = (c0 as u32) >= 0x80;
                    if line.len() >= 2 || non_ascii0 {
                        let x_q = c0 == '?';
                        let x_sp = c0 == ' ';
                        let y_q = !non_ascii0 && line[1] == '?';
                        let y_sp = !non_ascii0 && line[1] == ' ';
                        if x_q && y_q {
                            self.untracked = true;
                        } else {
                            if !x_sp && !x_q {
                                self.staged = true;
                            }
                            if !y_sp && !y_q {
                                self.modified = true;
                            }
                        }
                    }
                }
            },
            Section::Remote => {
                if let Some((a, b)) = split_once_chars(line, '\t') {
                    self.ahead = match parse_u32_chars(&trim_chars(&a)) {
                        Some(n) => n,
                        None => 0,
                    };
                    self.behind = match parse_u32_chars(&trim_chars(&b)) {
                        Some(n) => n,
                        None => 0,
                    };
                }
            },
        }
    }
}

/// The worktrees of each repo, as parsed from batch output.
pub type RepoWorktrees = StrMap<Vec<Worktree>>;

/// Parse the batch git output into worktrees per repo.
///
/// Each repo block starts with `___REPO___<path>` (trailing slashes dropped)
/// and lists `git worktree list --porcelain` output, then `___STATUS___` and
/// porcelain status lines, then `___REMOTE___` and an `ahead\tbehind` line,
/// then `___ENDREPO___`. Status and ahead/behind apply to the first (main)
/// worktree of the block; a repo without worktrees is left out.
pub fn parse_batch_git_output(output: &str) -> (r: RepoWorktrees)
    ensures
        repo_map_view(r@) == parse_batch_output(output@),
        forall|k: Seq<char>| #[trigger]
            r@.contains_key(k) ==> (k.len() == 0 || k.last() != '/') && r@[k]@.len() > 0,
{
    let chars = chars_of(output);
    let ls = lines(&chars);
    let mut parser = BatchParser {
        result: StrMap::new(),
        current_repo: None,
        section: Section::Worktree,
        worktrees: Vec::new(),
        cur_path: None,
        cur_branch: None,
        is_first: true,
        staged: false,
        modified: false,
        untracked: false,
        ahead: 0,
        behind: 0,
    };
    assert(repo_map_view(parser.result@) =~= Map::<Seq<char>, Seq<WorktreeView>>::empty());
    assert(worktree_views(parser.worktrees@) =~= Seq::<WorktreeView>::empty());
    assert(views(ls@).take(0) =~= Seq::<Seq<char>>::empty());
    let mut i: usize = 0;
    while i < ls.len()
        invariant
            i <= ls.len(),
            parser.state() == batch_run(views(ls@).take(i as int)),
        decreases ls.len() - i,
    {
        let ghost pre = views(ls@).take(i + 1);
        assert(pre.drop_last() =~= views(ls@).take(i as int));
        assert(pre.last() == ls@[i as int]@);
        parser.step(&ls[i]);
        i = i + 1;
    }
    assert(views(ls@).take(i as int) =~= views(ls@));
    proof {
        lemma_batch_run_ok(views(ls@));
        let ghost st = batch_run(views(ls@));
        assert(st.result == repo_map_view(parser.result@));
        assert forall|k: Seq<char>| #[trigger] parser.result@.contains_key(k) implies (k.len() == 0
            || k.last() != '/') && parser.result@[k]@.len() > 0 by {
            assert(repo_map_view(parser.result@).contains_key(k));
            assert(st.result.contains_key(k));
            assert(repo_map_view(parser.result@)[k] == worktree_views(parser.result@[k]@));
        }
    }
    parser.result
}

} // verus!
