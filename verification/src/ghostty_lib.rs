pub mod cmd;
pub mod ghostty;
pub mod remote;
pub mod state;
pub mod worktree;
pub mod zmx;
pub mod batch_output;
