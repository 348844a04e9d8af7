//! Well-formed batch output, as the batch listing script prints it, and what
//! parsing it gives: which repos are recorded and what their worktrees hold.
use vstd::prelude::*;

use crate::ghostty_lib::worktree::{
    BatchState, Section, WorktreeView, batch_init, batch_run, batch_step, flushed, parse_batch_output,
    recorded, section_step, with_block_status, working_info,
};
use crate::lines::{ends_cr, join_lines, lemma_lines_of_join, no_nl};
use crate::text::{has_prefix, lines_acc, lines_of, strip_prefix, trim_end_char};

verus! {

/// One repo's block of batch output: the repo path, then the
/// `git worktree list --porcelain` lines, the `git status --porcelain` lines
/// and the ahead/behind lines.
pub struct BatchBlock {
    pub path: Seq<char>,
    pub worktree_lines: Seq<Seq<char>>,
    pub status_lines: Seq<Seq<char>>,
    pub remote_lines: Seq<Seq<char>>,
}

/// The line that opens the block of the repo at `path`.
pub open spec fn repo_line(path: Seq<char>) -> Seq<char> {
    "___REPO___"@ + path
}

/// The lines of a block, with its markers.
pub open spec fn block_lines(b: BatchBlock) -> Seq<Seq<char>> {
    seq![repo_line(b.path)] + b.worktree_lines + seq!["___STATUS___"@] + b.status_lines
        + seq!["___REMOTE___"@] + b.remote_lines + seq!["___ENDREPO___"@]
}

/// The lines of the blocks `bs`, one block after another.
pub open spec fn blocks_lines(bs: Seq<BatchBlock>) -> Seq<Seq<char>>
    decreases bs.len(),
{
    if bs.len() == 0 {
        Seq::empty()
    } else {
        blocks_lines(bs.drop_last()) + block_lines(bs.last())
    }
}

/// The batch output made of the blocks `bs`, each line ending with a newline.
pub open spec fn batch_text(bs: Seq<BatchBlock>) -> Seq<char> {
    join_lines(blocks_lines(bs))
}

/// One line that reads back as itself.
pub open spec fn whole_line(l: Seq<char>) -> bool {
    no_nl(l) && !ends_cr(l)
}

/// A line inside a block: a whole line that is not a block marker.
pub open spec fn body_line(l: Seq<char>) -> bool {
    &&& whole_line(l)
    &&& !has_prefix(l, "___REPO___"@)
    &&& l != "___STATUS___"@
    &&& l != "___REMOTE___"@
    &&& l != "___ENDREPO___"@
}

/// A well-formed block: its repo line is a whole line and the lines inside
/// it are body lines.
pub open spec fn block_ok(b: BatchBlock) -> bool {
    &&& whole_line(repo_line(b.path))
    &&& forall|i: int| 0 <= i < b.worktree_lines.len() ==> body_line(#[trigger] b.worktree_lines[i])
    &&& forall|i: int| 0 <= i < b.status_lines.len() ==> body_line(#[trigger] b.status_lines[i])
    &&& forall|i: int| 0 <= i < b.remote_lines.len() ==> body_line(#[trigger] b.remote_lines[i])
}

/// A porcelain line that starts a worktree.
pub open spec fn worktree_line(l: Seq<char>) -> bool {
    has_prefix(l, "worktree "@)
}

/// A porcelain line that names a worktree's branch.
pub open spec fn branch_line(l: Seq<char>) -> bool {
    has_prefix(l, "branch refs/heads/"@)
}

/// The porcelain lines list a worktree with a branch: a `worktree` line
/// followed, before the next `worktree` line, by a `branch refs/heads/` line.
pub open spec fn lists_worktree(ls: Seq<Seq<char>>) -> bool {
    exists|i: int, j: int|
        #![trigger ls[i], ls[j]]
        0 <= i < j < ls.len() && worktree_line(ls[i]) && branch_line(ls[j]) && forall|k: int|
            i < k < j ==> !worktree_line(#[trigger] ls[k])
}

/// The key a block is recorded under: its path without trailing `/`.
pub open spec fn block_key(b: BatchBlock) -> Seq<char> {
    trim_end_char(b.path, '/')
}

/// Worktrees as the batch parser records them: none has a commit or is
/// current, and every worktree after the first is not the main one and has
/// no ahead/behind counts and no status flags.
pub open spec fn batch_worktrees_ok(ws: Seq<WorktreeView>) -> bool {
    forall|i: int|
        0 <= i < ws.len() ==> (#[trigger] ws[i]).commit is None && !ws[i].is_current && (i > 0
            ==> !ws[i].is_main && ws[i].remote is None && ws[i].working_tree == Some(
            working_info(false, false, false),
        ))
}

// ---------------------------------------------------------------------------
// Reading lines from a state
// ---------------------------------------------------------------------------

/// The state after reading the lines `ls` from `st`.
pub open spec fn batch_from(st: BatchState, ls: Seq<Seq<char>>) -> BatchState
    decreases ls.len(),
{
    if ls.len() == 0 {
        st
    } else {
        batch_step(batch_from(st, ls.drop_last()), ls.last())
    }
}

proof fn lemma_batch_run_from(ls: Seq<Seq<char>>)
    ensures
        batch_run(ls) == batch_from(batch_init(), ls),
    decreases ls.len(),
{
    if ls.len() > 0 {
        lemma_batch_run_from(ls.drop_last());
    }
}

proof fn lemma_batch_from_concat(st: BatchState, a: Seq<Seq<char>>, b: Seq<Seq<char>>)
    ensures
        batch_from(st, a + b) == batch_from(batch_from(st, a), b),
    decreases b.len(),
{
    if b.len() == 0 {
        assert(a + b =~= a);
    } else {
        assert((a + b).drop_last() =~= a + b.drop_last());
        assert((a + b).last() == b.last());
        lemma_batch_from_concat(st, a, b.drop_last());
    }
}

proof fn lemma_batch_from_one(st: BatchState, l: Seq<char>)
    ensures
        batch_from(st, seq![l]) == batch_step(st, l),
{
    assert(seq![l].drop_last() =~= Seq::<Seq<char>>::empty());
    assert(batch_from(st, seq![l].drop_last()) == st);
}

/// The markers are not body lines, and do not start with each other.
proof fn lemma_markers()
    ensures
        !has_prefix("___STATUS___"@, "___REPO___"@),
        !has_prefix("___REMOTE___"@, "___REPO___"@),
        !has_prefix("___ENDREPO___"@, "___REPO___"@),
        "___REMOTE___"@ != "___STATUS___"@,
        "___ENDREPO___"@ != "___STATUS___"@,
        "___ENDREPO___"@ != "___REMOTE___"@,
        whole_line("___STATUS___"@),
        whole_line("___REMOTE___"@),
        whole_line("___ENDREPO___"@),
{
    reveal_strlit("___REPO___");
    reveal_strlit("___STATUS___");
    reveal_strlit("___REMOTE___");
    reveal_strlit("___ENDREPO___");
    assert("___STATUS___"@.take(10)[3] != "___REPO___"@[3]);
    assert("___REMOTE___"@.take(10)[5] != "___REPO___"@[5]);
    assert("___ENDREPO___"@.take(10)[3] != "___REPO___"@[3]);
    assert("___REMOTE___"@[3] != "___STATUS___"@[3]);
    assert("___ENDREPO___"@.len() != "___STATUS___"@.len());
    assert("___ENDREPO___"@.len() != "___REMOTE___"@.len());
    assert forall|i: int| 0 <= i < "___STATUS___"@.len() implies "___STATUS___"@[i] != '\n' by {}
    assert forall|i: int| 0 <= i < "___REMOTE___"@.len() implies "___REMOTE___"@[i] != '\n' by {}
    assert forall|i: int| 0 <= i < "___ENDREPO___"@.len() implies "___ENDREPO___"@[i] != '\n' by {}
}

/// A worktree line is no branch line.
proof fn lemma_worktree_not_branch(l: Seq<char>)
    ensures
        branch_line(l) ==> !worktree_line(l),
{
    reveal_strlit("worktree ");
    reveal_strlit("branch refs/heads/");
    if branch_line(l) && worktree_line(l) {
        assert(l.take(9)[0] == "worktree "@[0]);
        assert(l.take(18)[0] == "branch refs/heads/"@[0]);
    }
}

/// Worktrees as the worktree section pushes them: no commit, not current,
/// no counts, no flags, and none after the first is the main one.
spec fn fresh_worktrees(ws: Seq<WorktreeView>) -> bool {
    forall|i: int|
        0 <= i < ws.len() ==> (#[trigger] ws[i]).commit is None && !ws[i].is_current
            && ws[i].remote is None && ws[i].working_tree == Some(working_info(false, false, false))
            && (i > 0 ==> !ws[i].is_main)
}

/// The last worktree line of `ls` is followed by a branch line.
spec fn pending(ls: Seq<Seq<char>>) -> bool {
    exists|i: int, j: int|
        #![trigger ls[i], ls[j]]
        0 <= i < j < ls.len() && worktree_line(ls[i]) && branch_line(ls[j]) && forall|k: int|
            i < k < ls.len() ==> !worktree_line(#[trigger] ls[k])
}

/// Some line of `ls` is a worktree line.
spec fn has_worktree_line(ls: Seq<Seq<char>>) -> bool {
    exists|i: int| 0 <= i < ls.len() && worktree_line(#[trigger] ls[i])
}

/// Where some worktree line is, a last one is.
proof fn lemma_last_worktree_line(ls: Seq<Seq<char>>)
    requires
        has_worktree_line(ls),
    ensures
        exists|i: int|
            0 <= i < ls.len() && worktree_line(#[trigger] ls[i]) && forall|k: int|
                i < k < ls.len() ==> !worktree_line(#[trigger] ls[k]),
    decreases ls.len(),
{
    let n = ls.len() - 1;
    if worktree_line(ls[n]) {
        assert(forall|k: int| n < k < ls.len() ==> !worktree_line(#[trigger] ls[k]));
    } else {
        let d = ls.drop_last();
        let w = choose|i: int| 0 <= i < ls.len() && worktree_line(#[trigger] ls[i]);
        assert(d[w] == ls[w]);
        lemma_last_worktree_line(d);
        let i = choose|i: int|
            0 <= i < d.len() && worktree_line(#[trigger] d[i]) && forall|k: int|
                i < k < d.len() ==> !worktree_line(#[trigger] d[k]);
        assert(ls[i] == d[i]);
        assert forall|k: int| i < k < ls.len() implies !worktree_line(#[trigger] ls[k]) by {
            if k < n {
                assert(ls[k] == d[k]);
            }
        }
    }
}

/// A worktree line read next: nothing is pending, and what was listed stays.
proof fn lemma_seq_worktree(d: Seq<Seq<char>>, l: Seq<char>)
    requires
        worktree_line(l),
    ensures
        !pending(d.push(l)),
        lists_worktree(d.push(l)) == lists_worktree(d),
        has_worktree_line(d.push(l)),
        pending(d) ==> lists_worktree(d),
{
    let ls = d.push(l);
    let n = d.len() as int;
    lemma_worktree_not_branch(l);
    assert(ls[n] == l);
    if pending(ls) {
        let (i, j) = choose|i: int, j: int|
            #![trigger ls[i], ls[j]]
            0 <= i < j < ls.len() && worktree_line(ls[i]) && branch_line(ls[j]) && forall|k: int|
                i < k < ls.len() ==> !worktree_line(#[trigger] ls[k]);
        if i < n {
            assert(!worktree_line(ls[n]));
        }
    }
    if lists_worktree(ls) {
        let (i, j) = choose|i: int, j: int|
            #![trigger ls[i], ls[j]]
            0 <= i < j < ls.len() && worktree_line(ls[i]) && branch_line(ls[j]) && forall|k: int|
                i < k < j ==> !worktree_line(#[trigger] ls[k]);
        assert(j < n);
        assert(d[i] == ls[i] && d[j] == ls[j]);
        assert forall|k: int| i < k < j implies !worktree_line(#[trigger] d[k]) by {
            assert(d[k] == ls[k]);
        }
    }
    if lists_worktree(d) {
        let (i, j) = choose|i: int, j: int|
            #![trigger d[i], d[j]]
            0 <= i < j < d.len() && worktree_line(d[i]) && branch_line(d[j]) && forall|k: int|
                i < k < j ==> !worktree_line(#[trigger] d[k]);
        assert(d[i] == ls[i] && d[j] == ls[j]);
        assert forall|k: int| i < k < j implies !worktree_line(#[trigger] ls[k]) by {
            assert(d[k] == ls[k]);
        }
    }
    if pending(d) {
        let (i, j) = choose|i: int, j: int|
            #![trigger d[i], d[j]]
            0 <= i < j < d.len() && worktree_line(d[i]) && branch_line(d[j]) && forall|k: int|
                i < k < d.len() ==> !worktree_line(#[trigger] d[k]);
        assert forall|k: int| i < k < j implies !worktree_line(#[trigger] d[k]) by {}
    }
    assert(worktree_line(ls[n]));
}

/// A branch line read next: it completes the last worktree, if any.
proof fn lemma_seq_branch(d: Seq<Seq<char>>, l: Seq<char>)
    requires
        branch_line(l),
        !worktree_line(l),
    ensures
        has_worktree_line(d.push(l)) == has_worktree_line(d),
        pending(d.push(l)) == has_worktree_line(d),
        lists_worktree(d.push(l)) == (lists_worktree(d) || has_worktree_line(d)),
{
    let ls = d.push(l);
    let n = d.len() as int;
    assert(ls[n] == l);
    if has_worktree_line(ls) {
        let i = choose|i: int| 0 <= i < ls.len() && worktree_line(#[trigger] ls[i]);
        assert(i < n);
        assert(d[i] == ls[i]);
    }
    if has_worktree_line(d) {
        lemma_last_worktree_line(d);
        let i = choose|i: int|
            0 <= i < d.len() && worktree_line(#[trigger] d[i]) && forall|k: int|
                i < k < d.len() ==> !worktree_line(#[trigger] d[k]);
        assert(d[i] == ls[i]);
        assert forall|k: int| i < k < ls.len() implies !worktree_line(#[trigger] ls[k]) by {
            if k < n {
                assert(d[k] == ls[k]);
            }
        }
        assert(worktree_line(ls[i]) && branch_line(ls[n]));
        assert(pending(ls));
        assert forall|k: int| i < k < n implies !worktree_line(#[trigger] ls[k]) by {}
        assert(lists_worktree(ls));
    } else {
        if pending(ls) {
            let (i, j) = choose|i: int, j: int|
                #![trigger ls[i], ls[j]]
                0 <= i < j < ls.len() && worktree_line(ls[i]) && branch_line(ls[j]) && forall|k: int|
                    i < k < ls.len() ==> !worktree_line(#[trigger] ls[k]);
            assert(d[i] == ls[i]);
        }
        if lists_worktree(ls) {
            let (i, j) = choose|i: int, j: int|
                #![trigger ls[i], ls[j]]
                0 <= i < j < ls.len() && worktree_line(ls[i]) && branch_line(ls[j]) && forall|k: int|
                    i < k < j ==> !worktree_line(#[trigger] ls[k]);
            assert(d[i] == ls[i]);
        }
    }
    if lists_worktree(d) {
        let (i, j) = choose|i: int, j: int|
            #![trigger d[i], d[j]]
            0 <= i < j < d.len() && worktree_line(d[i]) && branch_line(d[j]) && forall|k: int|
                i < k < j ==> !worktree_line(#[trigger] d[k]);
        assert(d[i] == ls[i] && d[j] == ls[j]);
        assert forall|k: int| i < k < j implies !worktree_line(#[trigger] ls[k]) by {
            assert(d[k] == ls[k]);
        }
    }
}

/// Any other line read next changes nothing that is tracked.
proof fn lemma_seq_other(d: Seq<Seq<char>>, l: Seq<char>)
    requires
        !branch_line(l),
        !worktree_line(l),
    ensures
        has_worktree_line(d.push(l)) == has_worktree_line(d),
        pending(d.push(l)) == pending(d),
        lists_worktree(d.push(l)) == lists_worktree(d),
{
    let ls = d.push(l);
    let n = d.len() as int;
    assert(ls[n] == l);
    if has_worktree_line(ls) {
        let i = choose|i: int| 0 <= i < ls.len() && worktree_line(#[trigger] ls[i]);
        assert(i < n);
        assert(d[i] == ls[i]);
    }
    if has_worktree_line(d) {
        let i = choose|i: int| 0 <= i < d.len() && worktree_line(#[trigger] d[i]);
        assert(d[i] == ls[i]);
    }
    if pending(ls) {
        let (i, j) = choose|i: int, j: int|
            #![trigger ls[i], ls[j]]
            0 <= i < j < ls.len() && worktree_line(ls[i]) && branch_line(ls[j]) && forall|k: int|
                i < k < ls.len() ==> !worktree_line(#[trigger] ls[k]);
        assert(j < n);
        assert(d[i] == ls[i] && d[j] == ls[j]);
        assert forall|k: int| i < k < d.len() implies !worktree_line(#[trigger] d[k]) by {
            assert(d[k] == ls[k]);
        }
    }
    if pending(d) {
        let (i, j) = choose|i: int, j: int|
            #![trigger d[i], d[j]]
            0 <= i < j < d.len() && worktree_line(d[i]) && branch_line(d[j]) && forall|k: int|
                i < k < d.len() ==> !worktree_line(#[trigger] d[k]);
        assert(d[i] == ls[i] && d[j] == ls[j]);
        assert forall|k: int| i < k < ls.len() implies !worktree_line(#[trigger] ls[k]) by {
            if k < n {
                assert(d[k] == ls[k]);
            }
        }
    }
    if lists_worktree(ls) {
        let (i, j) = choose|i: int, j: int|
            #![trigger ls[i], ls[j]]
            0 <= i < j < ls.len() && worktree_line(ls[i]) && branch_line(ls[j]) && forall|k: int|
                i < k < j ==> !worktree_line(#[trigger] ls[k]);
        assert(j < n);
        assert(d[i] == ls[i] && d[j] == ls[j]);
        assert forall|k: int| i < k < j implies !worktree_line(#[trigger] d[k]) by {
            assert(d[k] == ls[k]);
        }
    }
    if lists_worktree(d) {
        let (i, j) = choose|i: int, j: int|
            #![trigger d[i], d[j]]
            0 <= i < j < d.len() && worktree_line(d[i]) && branch_line(d[j]) && forall|k: int|
                i < k < j ==> !worktree_line(#[trigger] d[k]);
        assert(d[i] == ls[i] && d[j] == ls[j]);
        assert forall|k: int| i < k < j implies !worktree_line(#[trigger] ls[k]) by {
            assert(d[k] == ls[k]);
        }
    }
}

/// What the worktree section tracks after reading `ls`.
spec fn section_facts(st0: BatchState, ls: Seq<Seq<char>>, s: BatchState) -> bool {
    &&& s.section == Section::Worktree
    &&& s.result == st0.result
    &&& s.current_repo == st0.current_repo
    &&& fresh_worktrees(s.worktrees)
    &&& s.worktrees.len() > 0 ==> !s.is_first
    &&& (s.cur_path is Some <==> has_worktree_line(ls))
    &&& (s.cur_path is Some && s.cur_branch is Some <==> pending(ls))
    &&& (s.worktrees.len() > 0 || (s.cur_path is Some && s.cur_branch is Some) <==> lists_worktree(ls))
}

/// One body line of the worktree section keeps the tracked facts.
proof fn lemma_worktree_step(st0: BatchState, d: Seq<Seq<char>>, p: BatchState, l: Seq<char>)
    requires
        section_facts(st0, d, p),
        body_line(l),
    ensures
        section_facts(st0, d.push(l), batch_step(p, l)),
{
    let s = batch_step(p, l);
    assert(strip_prefix(l, "___REPO___"@) is None);
    assert(s == section_step(p, l));
    lemma_worktree_not_branch(l);
    if worktree_line(l) {
        lemma_seq_worktree(d, l);
        let ws = s.worktrees;
        assert forall|i: int| 0 <= i < ws.len() implies (#[trigger] ws[i]).commit is None
            && !ws[i].is_current && ws[i].remote is None && ws[i].working_tree == Some(
            working_info(false, false, false),
        ) && (i > 0 ==> !ws[i].is_main) by {
            if i < p.worktrees.len() {
                assert(ws[i] == p.worktrees[i]);
            }
        }
    } else if branch_line(l) {
        lemma_seq_branch(d, l);
    } else {
        lemma_seq_other(d, l);
        assert(s == p);
    }
}

/// Reading the worktree section of a block from its start.
proof fn lemma_worktree_section(st0: BatchState, ls: Seq<Seq<char>>)
    requires
        st0.section == Section::Worktree,
        st0.worktrees.len() == 0,
        st0.cur_path is None,
        st0.cur_branch is None,
        forall|i: int| 0 <= i < ls.len() ==> body_line(#[trigger] ls[i]),
    ensures
        section_facts(st0, ls, batch_from(st0, ls)),
    decreases ls.len(),
{
    if ls.len() == 0 {
        assert(!has_worktree_line(ls));
        assert(!pending(ls));
        assert(!lists_worktree(ls));
    } else {
        let d = ls.drop_last();
        assert forall|i: int| 0 <= i < d.len() implies body_line(#[trigger] d[i]) by {
            assert(d[i] == ls[i]);
        }
        lemma_worktree_section(st0, d);
        assert(body_line(ls[ls.len() - 1]));
        lemma_worktree_step(st0, d, batch_from(st0, d), ls.last());
        assert(d.push(ls.last()) =~= ls);
    }
}

/// In the status and remote sections body lines only change the flags and
/// counts.
proof fn lemma_quiet_section(st0: BatchState, ls: Seq<Seq<char>>)
    requires
        st0.section != Section::Worktree,
        forall|i: int| 0 <= i < ls.len() ==> body_line(#[trigger] ls[i]),
    ensures
        ({
            let s = batch_from(st0, ls);
            &&& s.section == st0.section
            &&& s.result == st0.result
            &&& s.current_repo == st0.current_repo
            &&& s.worktrees == st0.worktrees
            &&& s.cur_path == st0.cur_path
        }),
    decreases ls.len(),
{
    if ls.len() > 0 {
        let d = ls.drop_last();
        assert forall|i: int| 0 <= i < d.len() implies body_line(#[trigger] d[i]) by {
            assert(d[i] == ls[i]);
        }
        lemma_quiet_section(st0, d);
        let l = ls.last();
        assert(body_line(ls[ls.len() - 1]));
        assert(strip_prefix(l, "___REPO___"@) is None);
    }
}

/// A status line has two status columns: at least two characters, or a
/// first character outside ASCII (whose UTF-8 form has two bytes or more).
pub open spec fn has_two_columns(l: Seq<char>) -> bool {
    l.len() >= 2 || (l.len() > 0 && (l[0] as u32) >= 0x80)
}

/// A status line for an untracked file: `??`.
pub open spec fn untracked_status(l: Seq<char>) -> bool {
    l.len() >= 2 && l[0] == '?' && l[1] == '?'
}

/// A status line whose first column (the index) shows a change: neither
/// ` ` nor `?`.
pub open spec fn staged_status(l: Seq<char>) -> bool {
    has_two_columns(l) && !untracked_status(l) && l[0] != ' ' && l[0] != '?'
}

/// A status line whose second column (the working tree) shows a change:
/// neither ` ` nor `?` (a byte after a non-ASCII first character is neither).
pub open spec fn modified_status(l: Seq<char>) -> bool {
    has_two_columns(l) && !untracked_status(l) && ((l[0] as u32) >= 0x80 || (l[1] != ' ' && l[1]
        != '?'))
}

/// Some status line is staged.
pub open spec fn any_staged(ls: Seq<Seq<char>>) -> bool {
    exists|i: int| 0 <= i < ls.len() && staged_status(#[trigger] ls[i])
}

/// Some status line is modified.
pub open spec fn any_modified(ls: Seq<Seq<char>>) -> bool {
    exists|i: int| 0 <= i < ls.len() && modified_status(#[trigger] ls[i])
}

/// Some status line is untracked.
pub open spec fn any_untracked(ls: Seq<Seq<char>>) -> bool {
    exists|i: int| 0 <= i < ls.len() && untracked_status(#[trigger] ls[i])
}

/// Reading status lines sets each flag exactly when some line shows it.
proof fn lemma_status_flags(st0: BatchState, ls: Seq<Seq<char>>)
    requires
        st0.section == Section::Status,
        forall|i: int| 0 <= i < ls.len() ==> body_line(#[trigger] ls[i]),
    ensures
        ({
            let s = batch_from(st0, ls);
            &&& s.staged == (st0.staged || any_staged(ls))
            &&& s.modified == (st0.modified || any_modified(ls))
            &&& s.untracked == (st0.untracked || any_untracked(ls))
        }),
    decreases ls.len(),
{
    if ls.len() > 0 {
        let d = ls.drop_last();
        let n = ls.len() - 1;
        let l = ls[n];
        assert forall|i: int| 0 <= i < d.len() implies body_line(#[trigger] d[i]) by {
            assert(d[i] == ls[i]);
        }
        lemma_status_flags(st0, d);
        lemma_quiet_section(st0, d);
        assert(body_line(ls[n]));
        assert(strip_prefix(l, "___REPO___"@) is None);
        assert(any_staged(ls) == (any_staged(d) || staged_status(l))) by {
            if any_staged(ls) {
                let i = choose|i: int| 0 <= i < ls.len() && staged_status(#[trigger] ls[i]);
                if i < n {
                    assert(d[i] == ls[i]);
                }
            }
            if any_staged(d) {
                let i = choose|i: int| 0 <= i < d.len() && staged_status(#[trigger] d[i]);
                assert(d[i] == ls[i]);
            }
        }
        assert(any_modified(ls) == (any_modified(d) || modified_status(l))) by {
            if any_modified(ls) {
                let i = choose|i: int| 0 <= i < ls.len() && modified_status(#[trigger] ls[i]);
                if i < n {
                    assert(d[i] == ls[i]);
                }
            }
            if any_modified(d) {
                let i = choose|i: int| 0 <= i < d.len() && modified_status(#[trigger] d[i]);
                assert(d[i] == ls[i]);
            }
        }
        assert(any_untracked(ls) == (any_untracked(d) || untracked_status(l))) by {
            if any_untracked(ls) {
                let i = choose|i: int| 0 <= i < ls.len() && untracked_status(#[trigger] ls[i]);
                if i < n {
                    assert(d[i] == ls[i]);
                }
            }
            if any_untracked(d) {
                let i = choose|i: int| 0 <= i < d.len() && untracked_status(#[trigger] d[i]);
                assert(d[i] == ls[i]);
            }
        }
    }
}

/// Reading the ahead/behind lines leaves the status flags alone.
proof fn lemma_remote_flags(st0: BatchState, ls: Seq<Seq<char>>)
    requires
        st0.section == Section::Remote,
        forall|i: int| 0 <= i < ls.len() ==> body_line(#[trigger] ls[i]),
    ensures
        ({
            let s = batch_from(st0, ls);
            &&& s.staged == st0.staged
            &&& s.modified == st0.modified
            &&& s.untracked == st0.untracked
        }),
    decreases ls.len(),
{
    if ls.len() > 0 {
        let d = ls.drop_last();
        assert forall|i: int| 0 <= i < d.len() implies body_line(#[trigger] d[i]) by {
            assert(d[i] == ls[i]);
        }
        lemma_remote_flags(st0, d);
        lemma_quiet_section(st0, d);
        assert(body_line(ls[ls.len() - 1]));
        assert(strip_prefix(ls.last(), "___REPO___"@) is None);
    }
}

/// Between blocks: no repo open, no worktrees read, no worktree pending.
spec fn idle(st: BatchState) -> bool {
    st.current_repo is None && st.worktrees.len() == 0 && st.cur_path is None
}

/// Every recorded repo has worktrees as the parser records them.
spec fn result_ok(m: Map<Seq<char>, Seq<WorktreeView>>) -> bool {
    forall|k: Seq<char>| #[trigger]
        m.contains_key(k) ==> m[k].len() > 0 && batch_worktrees_ok(m[k])
}

/// Reading one well-formed block between blocks records the block's
/// worktrees under its key exactly when it lists one.
proof fn lemma_block(st: BatchState, b: BatchBlock)
    requires
        idle(st),
        result_ok(st.result),
        block_ok(b),
    ensures
        ({
            let s = batch_from(st, block_lines(b));
            &&& idle(s)
            &&& result_ok(s.result)
            &&& s.result.dom() == if lists_worktree(b.worktree_lines) {
                st.result.dom().insert(block_key(b))
            } else {
                st.result.dom()
            }
            &&& lists_worktree(b.worktree_lines) ==> s.result[block_key(b)][0].working_tree == Some(
                working_info(
                    any_staged(b.status_lines),
                    any_modified(b.status_lines),
                    any_untracked(b.status_lines),
                ),
            )
        }),
{
    reveal_strlit("___REPO___");
    lemma_markers();
    let r = repo_line(b.path);
    let w = b.worktree_lines;
    let sl = b.status_lines;
    let rl = b.remote_lines;
    let x1 = seq![r];
    let x2 = x1 + w;
    let x3 = x2 + seq!["___STATUS___"@];
    let x4 = x3 + sl;
    let x5 = x4 + seq!["___REMOTE___"@];
    let x6 = x5 + rl;
    assert(block_lines(b) == x6 + seq!["___ENDREPO___"@]);
    // the repo line opens the block
    assert(r.take(10) =~= "___REPO___"@);
    assert(r.skip(10) =~= b.path);
    assert(strip_prefix(r, "___REPO___"@) == Some(b.path));
    lemma_batch_from_one(st, r);
    let s1 = batch_from(st, x1);
    assert(s1.result == st.result);
    // the worktree section
    lemma_batch_from_concat(st, x1, w);
    lemma_worktree_section(s1, w);
    let s2 = batch_from(st, x2);
    // the status marker pushes the last worktree
    lemma_batch_from_concat(st, x2, seq!["___STATUS___"@]);
    lemma_batch_from_one(s2, "___STATUS___"@);
    let s3 = batch_from(st, x3);
    assert(s3.worktrees == flushed(
        s2.worktrees,
        s2.cur_path,
        s2.cur_branch,
        s2.is_first,
        false,
        false,
        false,
        0,
        0,
    ));
    assert(s3.worktrees.len() > 0 <==> lists_worktree(w));
    assert(fresh_worktrees(s3.worktrees)) by {
        let ws = s3.worktrees;
        assert forall|i: int| 0 <= i < ws.len() implies (#[trigger] ws[i]).commit is None
            && !ws[i].is_current && ws[i].remote is None && ws[i].working_tree == Some(
            working_info(false, false, false),
        ) && (i > 0 ==> !ws[i].is_main) by {
            if i < s2.worktrees.len() {
                assert(ws[i] == s2.worktrees[i]);
            }
        }
    }
    // status lines
    lemma_batch_from_concat(st, x3, sl);
    lemma_quiet_section(s3, sl);
    lemma_status_flags(s3, sl);
    let s4 = batch_from(st, x4);
    lemma_batch_from_concat(st, x4, seq!["___REMOTE___"@]);
    lemma_batch_from_one(s4, "___REMOTE___"@);
    let s5 = batch_from(st, x5);
    lemma_batch_from_concat(st, x5, rl);
    lemma_quiet_section(s5, rl);
    lemma_remote_flags(s5, rl);
    let s6 = batch_from(st, x6);
    assert(s6.worktrees == s3.worktrees);
    // the end marker records the block
    lemma_batch_from_concat(st, x6, seq!["___ENDREPO___"@]);
    lemma_batch_from_one(s6, "___ENDREPO___"@);
    let s7 = batch_from(st, block_lines(b));
    let ws = s3.worktrees;
    let wts = if ws.len() > 0 {
        ws.update(0, with_block_status(ws[0], s6))
    } else {
        ws
    };
    assert(s7.result == recorded(st.result, Some(block_key(b)), wts));
    assert(batch_worktrees_ok(wts)) by {
        assert forall|i: int| 0 <= i < wts.len() implies (#[trigger] wts[i]).commit is None
            && !wts[i].is_current && (i > 0 ==> !wts[i].is_main && wts[i].remote is None
            && wts[i].working_tree == Some(working_info(false, false, false))) by {
            assert(ws[i].commit is None);
        }
    }
    assert(s7.result.dom() =~= if lists_worktree(w) {
        st.result.dom().insert(block_key(b))
    } else {
        st.result.dom()
    });
}

/// Reading well-formed blocks from the start records exactly the keys of
/// the blocks that list a worktree.
proof fn lemma_blocks(bs: Seq<BatchBlock>)
    requires
        forall|j: int| 0 <= j < bs.len() ==> block_ok(#[trigger] bs[j]),
    ensures
        ({
            let s = batch_from(batch_init(), blocks_lines(bs));
            &&& idle(s)
            &&& result_ok(s.result)
            &&& forall|k: Seq<char>|
                s.result.contains_key(k) <==> exists|j: int|
                    0 <= j < bs.len() && lists_worktree(bs[j].worktree_lines) && #[trigger] block_key(
                        bs[j],
                    ) == k
        }),
    decreases bs.len(),
{
    if bs.len() == 0 {
        assert(batch_from(batch_init(), blocks_lines(bs)) == batch_init());
    } else {
        let d = bs.drop_last();
        let b = bs.last();
        assert forall|j: int| 0 <= j < d.len() implies block_ok(#[trigger] d[j]) by {
            assert(d[j] == bs[j]);
        }
        lemma_blocks(d);
        assert(block_ok(bs[bs.len() - 1]));
        let p = batch_from(batch_init(), blocks_lines(d));
        lemma_batch_from_concat(batch_init(), blocks_lines(d), block_lines(b));
        lemma_block(p, b);
        let s = batch_from(batch_init(), blocks_lines(bs));
        assert forall|k: Seq<char>|
            s.result.contains_key(k) <==> exists|j: int|
                0 <= j < bs.len() && lists_worktree(bs[j].worktree_lines) && #[trigger] block_key(
                    bs[j],
                ) == k by {
            if s.result.contains_key(k) {
                if p.result.contains_key(k) {
                    let j = choose|j: int|
                        0 <= j < d.len() && lists_worktree(d[j].worktree_lines) && #[trigger] block_key(
                            d[j],
                        ) == k;
                    assert(d[j] == bs[j]);
                } else {
                    assert(bs[bs.len() - 1] == b);
                }
            }
            if exists|j: int|
                0 <= j < bs.len() && lists_worktree(bs[j].worktree_lines) && #[trigger] block_key(
                    bs[j],
                ) == k {
                let j = choose|j: int|
                    0 <= j < bs.len() && lists_worktree(bs[j].worktree_lines) && #[trigger] block_key(
                        bs[j],
                    ) == k;
                if j < d.len() {
                    assert(d[j] == bs[j]);
                    assert(p.result.contains_key(k));
                }
            }
        }
    }
}

/// Every line of well-formed blocks reads back as itself.
proof fn lemma_blocks_whole(bs: Seq<BatchBlock>)
    requires
        forall|j: int| 0 <= j < bs.len() ==> block_ok(#[trigger] bs[j]),
    ensures
        forall|i: int|
            0 <= i < blocks_lines(bs).len() ==> no_nl(#[trigger] blocks_lines(bs)[i]) && !ends_cr(
                blocks_lines(bs)[i],
            ),
    decreases bs.len(),
{
    if bs.len() > 0 {
        let d = bs.drop_last();
        let b = bs.last();
        assert forall|j: int| 0 <= j < d.len() implies block_ok(#[trigger] d[j]) by {
            assert(d[j] == bs[j]);
        }
        lemma_blocks_whole(d);
        assert(block_ok(bs[bs.len() - 1]));
        lemma_markers();
        let bl = block_lines(b);
        let r = repo_line(b.path);
        let w = b.worktree_lines;
        let sl = b.status_lines;
        let rl = b.remote_lines;
        assert forall|i: int| 0 <= i < bl.len() implies whole_line(#[trigger] bl[i]) by {
            let a = w.len() + 1;
            let c = a + 1 + sl.len();
            let e = c + 1 + rl.len();
            if i == 0 {
                assert(bl[i] == r);
            } else if i < a {
                assert(bl[i] == w[i - 1]);
            } else if i == a {
                assert(bl[i] == "___STATUS___"@);
            } else if i < c {
                assert(bl[i] == sl[i - a - 1]);
            } else if i == c {
                assert(bl[i] == "___REMOTE___"@);
            } else if i < e {
                assert(bl[i] == rl[i - c - 1]);
            } else {
                assert(bl[i] == "___ENDREPO___"@);
            }
        }
        let all = blocks_lines(bs);
        assert forall|i: int| 0 <= i < all.len() implies no_nl(#[trigger] all[i]) && !ends_cr(
            all[i],
        ) by {
            let dl = blocks_lines(d);
            if i < dl.len() {
                assert(all[i] == dl[i]);
            } else {
                assert(all[i] == bl[i - dl.len()]);
            }
        }
    }
}

/// Parsing well-formed batch output (blocks as the batch listing script
/// prints them) records a repo, under its path without trailing `/`,
/// exactly when its block lists a worktree with a branch. Every recorded
/// repo has at least one worktree; none has a commit or is current, and
/// every worktree after the first is not the main one and has no
/// ahead/behind counts and no status flags (those go to the first).
pub proof fn law_batch_output(bs: Seq<BatchBlock>)
    requires
        forall|j: int| 0 <= j < bs.len() ==> block_ok(#[trigger] bs[j]),
    ensures
        forall|k: Seq<char>|
            parse_batch_output(batch_text(bs)).contains_key(k) <==> exists|j: int|
                0 <= j < bs.len() && lists_worktree(bs[j].worktree_lines) && #[trigger] block_key(
                    bs[j],
                ) == k,
        forall|k: Seq<char>| #[trigger]
            parse_batch_output(batch_text(bs)).contains_key(k) ==> parse_batch_output(
                batch_text(bs),
            )[k].len() > 0 && batch_worktrees_ok(parse_batch_output(batch_text(bs))[k]),
{
    let ls = blocks_lines(bs);
    lemma_blocks_whole(bs);
    lemma_lines_of_join(ls, Seq::empty());
    assert(join_lines(ls) + Seq::<char>::empty() =~= join_lines(ls));
    assert(lines_acc(Seq::<char>::empty(), Seq::<char>::empty()) =~= Seq::<Seq<char>>::empty());
    assert(lines_of(batch_text(bs)) =~= ls);
    lemma_batch_run_from(ls);
    lemma_blocks(bs);
}

/// The status flags of a repo's first worktree, as parsed from well-formed
/// batch output, come from the status lines of the repo's last block: staged
/// exactly when some line's first column shows a change, modified exactly
/// when some line's second column does, each column on its own, and
/// untracked exactly when some line is `??`.
pub proof fn law_batch_status(bs: Seq<BatchBlock>)
    requires
        bs.len() > 0,
        forall|j: int| 0 <= j < bs.len() ==> block_ok(#[trigger] bs[j]),
        lists_worktree(bs.last().worktree_lines),
    ensures
        ({
            let r = parse_batch_output(batch_text(bs));
            let b = bs.last();
            &&& r.contains_key(block_key(b))
            &&& r[block_key(b)][0].working_tree == Some(
                working_info(
                    any_staged(b.status_lines),
                    any_modified(b.status_lines),
                    any_untracked(b.status_lines),
                ),
            )
        }),
{
    let ls = blocks_lines(bs);
    lemma_blocks_whole(bs);
    lemma_lines_of_join(ls, Seq::empty());
    assert(join_lines(ls) + Seq::<char>::empty() =~= join_lines(ls));
    assert(lines_acc(Seq::<char>::empty(), Seq::<char>::empty()) =~= Seq::<Seq<char>>::empty());
    assert(lines_of(batch_text(bs)) =~= ls);
    lemma_batch_run_from(ls);
    let d = bs.drop_last();
    let b = bs.last();
    assert forall|j: int| 0 <= j < d.len() implies block_ok(#[trigger] d[j]) by {
        assert(d[j] == bs[j]);
    }
    lemma_blocks(d);
    assert(block_ok(bs[bs.len() - 1]));
    let p = batch_from(batch_init(), blocks_lines(d));
    lemma_batch_from_concat(batch_init(), blocks_lines(d), block_lines(b));
    lemma_block(p, b);
}

} // verus!
