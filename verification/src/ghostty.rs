//! The AppleScript programs that drive Ghostty, as the ghostreelite command uses them.
pub use crate::ghostty_lib::ghostty::{
    applescript_escape, build_interactive_command, build_split_script, build_tab_script,
    equalize_splits, focus_terminal, is_available, open, script_outcome, shell_escape_single,
    split_at, terminal_exists, terminal_exists_script,
};
