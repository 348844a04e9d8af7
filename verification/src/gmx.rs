pub mod config;
pub mod keybinds;
pub mod session;
pub mod commands;
