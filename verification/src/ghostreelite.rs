pub mod discovery;
pub mod logic;
pub mod commands;
