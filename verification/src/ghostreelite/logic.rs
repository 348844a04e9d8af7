//! Choices of the worktree picker: which session a worktree shows, which
//! action a key asks for, which item a selection names.
use vstd::prelude::*;

use crate::ghostty_lib::zmx::{ZmxSession, first_named, session_name, session_name_of};
use crate::text::str_eq;

verus! {

/// Find the primary zmx session for a worktree by repo name and branch.
pub fn find_session_for_worktree<'a>(sessions: &'a Vec<ZmxSession>, repo_name: &str, branch: &str) -> (r: Option<
    &'a ZmxSession,
>)
    ensures
        match r {
            Some(s) => first_named(sessions@, session_name_of(repo_name@, branch@)) == Some(*s),
            None => first_named(sessions@, session_name_of(repo_name@, branch@)) is None,
        },
{
    let name = session_name(repo_name, branch);
    let mut i: usize = 0;
    assert(sessions@.skip(0) =~= sessions@);
    while i < sessions.len()
        invariant
            i <= sessions@.len(),
            name@ == session_name_of(repo_name@, branch@),
            first_named(sessions@.skip(i as int), name@) == first_named(sessions@, name@),
        decreases sessions.len() - i,
    {
        assert(sessions@.skip(i as int).drop_first() =~= sessions@.skip(i + 1));
        assert(sessions@.skip(i as int)[0] == sessions@[i as int]);
        if str_eq(sessions[i].name.as_str(), name.as_str()) {
            return Some(&sessions[i]);
        }
        i = i + 1;
    }
    None
}

/// Determine the picker action from a key event.
#[derive(Debug, Clone, Copy, PartialEq, Eq, Structural)]
pub enum PickerAction {
    /// Open/reattach the selected worktree
    Open,
    /// Create a new zmx session in a new tab
    NewSession,
    /// Split right
    SplitRight,
    /// Split down
    SplitDown,
    /// Create a new worktree
    NewWorktree,
    /// Remove dialog
    Remove,
}

/// The action of a key: ctrl with `a`, `d`, `n`, `s`, `v` asks for a new
/// worktree, removal, a new session, a split right or down; any other key opens.
pub open spec fn picker_action(is_ctrl: bool, key_char: Option<char>) -> PickerAction {
    if is_ctrl {
        match key_char {
            Some('a') => PickerAction::NewWorktree,
            Some('d') => PickerAction::Remove,
            Some('n') => PickerAction::NewSession,
            Some('s') => PickerAction::SplitRight,
            Some('v') => PickerAction::SplitDown,
            _ => PickerAction::Open,
        }
    } else {
        PickerAction::Open
    }
}

/// Resolve picker action from ctrl+key combination.
pub fn resolve_picker_action(is_ctrl: bool, key_char: Option<char>) -> (r: PickerAction)
    ensures
        r == picker_action(is_ctrl, key_char),
{
    if is_ctrl {
        match key_char {
            Some('a') => PickerAction::NewWorktree,
            Some('d') => PickerAction::Remove,
            Some('n') => PickerAction::NewSession,
            Some('s') => PickerAction::SplitRight,
            Some('v') => PickerAction::SplitDown,
            _ => PickerAction::Open,
        }
    } else {
        PickerAction::Open
    }
}

/// The index paired with the first item whose text is `text`.
pub open spec fn selected_index(items: Seq<(String, usize)>, text: Seq<char>) -> Option<usize>
    decreases items.len(),
{
    if items.len() == 0 {
        None
    } else if items[0].0@ == text {
        Some(items[0].1)
    } else {
        selected_index(items.drop_first(), text)
    }
}

/// Match a picker selection text back to an index in the items list.
pub fn match_picker_selection(items: &Vec<(String, usize)>, selected_text: &str) -> (r: Option<usize>)
    ensures
        r == selected_index(items@, selected_text@),
{
    let mut i: usize = 0;
    assert(items@.skip(0) =~= items@);
    while i < items.len()
        invariant
            i <= items@.len(),
            selected_index(items@.skip(i as int), selected_text@) == selected_index(items@, selected_text@),
        decreases items.len() - i,
    {
        assert(items@.skip(i as int).drop_first() =~= items@.skip(i + 1));
        assert(items@.skip(i as int)[0] == items@[i as int]);
        if str_eq(items[i].0.as_str(), selected_text) {
            return Some(items[i].1);
        }
        i = i + 1;
    }
    None
}

} // verus!
