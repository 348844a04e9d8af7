//! Which Ghostty terminals show which zmx sessions, as the ghostreelite command keeps it.
pub use crate::ghostty_lib::state::TerminalState;
