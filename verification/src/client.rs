//! Everything a syrinx front-end decides: modes, typing, hotkeys, transcripts,
//! sessions, configuration and the background daemon.

pub mod bulk;
pub mod cli;
pub mod config;
pub mod daemon;
pub mod hotkey;
pub mod icon;
pub mod inject;
pub mod ipc;
pub mod mode;
pub mod preview;
pub mod save;
pub mod segment;
pub mod session;
pub mod state;
pub mod stream;
pub mod tray;
pub mod windows_input;
