//! zmx sessions as the ghostreelite command sees them: `zmx list` lines are
//! read as they are, and a new session takes the plain `repo.branch` name
//! while it is free.
use vstd::prelude::*;

pub use crate::ghostty_lib::zmx::{
    SessionView, ZmxSession, attach_command, find_session, find_worktree_sessions, kill_session,
    list_command, repo_name_from_path, session_name,
};
use crate::ghostty_lib::zmx::{
    is_next_numbered_name, is_session_line, is_taken, name_taken, next_session_name_from_base,
    parse_fields, session_name_of, session_of_fields, session_views,
};
use crate::text::{chars_of, lines, lines_of, starts_with, views};

verus! {

/// The sessions described by a list of lines, in order, each line read
/// whole as tab-separated `key=value` fields.
pub open spec fn parse_plain_lines(ls: Seq<Seq<char>>) -> Seq<SessionView>
    decreases ls.len(),
{
    if ls.len() == 0 {
        Seq::empty()
    } else {
        let prev = parse_plain_lines(ls.drop_last());
        if is_session_line(ls.last()) {
            match session_of_fields(ls.last()) {
                Some(s) => prev.push(s),
                None => prev,
            }
        } else {
            prev
        }
    }
}

/// The sessions that `zmx list` output describes.
pub open spec fn parse_plain_output(output: Seq<char>) -> Seq<SessionView> {
    parse_plain_lines(lines_of(output))
}

/// Parse zmx list output: tab-separated key=value pairs per line.
pub fn parse_zmx_list(output: &str) -> (r: Vec<ZmxSession>)
    ensures
        session_views(r@) == parse_plain_output(output@),
{
    let ls = lines(&chars_of(output));
    let no_sessions = chars_of("no sessions");
    let mut r: Vec<ZmxSession> = Vec::new();
    let mut i: usize = 0;
    assert(views(ls@).take(0) =~= Seq::<Seq<char>>::empty());
    assert(session_views(r@) =~= Seq::<SessionView>::empty());
    while i < ls.len()
        invariant
            i <= ls.len(),
            views(ls@) == lines_of(output@),
            no_sessions@ == "no sessions"@,
            session_views(r@) == parse_plain_lines(views(ls@).take(i as int)),
        decreases ls.len() - i,
    {
        let ghost pre = views(ls@).take(i + 1);
        assert(pre.drop_last() =~= views(ls@).take(i as int));
        assert(pre.last() == ls@[i as int]@);
        let line = &ls[i];
        if line.len() > 0 && !starts_with(line, &no_sessions) {
            match parse_fields(line) {
                Some(s) => {
                    let ghost before = session_views(r@);
                    r.push(s);
                    assert(session_views(r@) =~= before.push(s@));
                },
                None => {},
            }
        }
        i = i + 1;
    }
    assert(views(ls@).take(i as int) =~= views(ls@));
    r
}

/// List all zmx sessions, from the output of the list command (`None` when
/// it failed, which counts as no sessions).
pub fn list_sessions(output: Option<&str>) -> (r: Vec<ZmxSession>)
    ensures
        session_views(r@) == match output {
            Some(o) => parse_plain_output(o@),
            None => Seq::<SessionView>::empty(),
        },
{
    match output {
        Some(o) => parse_zmx_list(o),
        None => {
            let r: Vec<ZmxSession> = Vec::new();
            assert(session_views(r@) =~= Seq::<SessionView>::empty());
            r
        },
    }
}

/// Generate the next available session name for a new split:
/// `repo.branch` while no session has it, else `repo.branch.i` for the
/// least free `i` from 2 on.
pub fn next_session_name(repo_name: &str, branch: &str, sessions: &Vec<ZmxSession>) -> (r: String)
    ensures
        !name_taken(sessions@, session_name_of(repo_name@, branch@)) ==> r@ == session_name_of(repo_name@, branch@),
        name_taken(sessions@, session_name_of(repo_name@, branch@)) ==> is_next_numbered_name(
            r@,
            session_name_of(repo_name@, branch@),
            sessions@,
        ),
{
    let base = session_name(repo_name, branch);
    if !is_taken(sessions, &base) {
        return base;
    }
    next_session_name_from_base(base.as_str(), sessions)
}

} // verus!
