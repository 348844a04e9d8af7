pub mod text;
pub mod lines;
pub mod sort;
pub mod strmap;
pub mod ghostty_lib;
pub mod gmx;
pub mod config;
pub mod ghostreelite;
pub mod display;
pub mod paint;
pub mod zmx;
pub mod ghostty;
pub mod state;
