//! Configuration persistence for a long-running server wrapper.
//!
//! The library defines the settings document (`Config` and its sections),
//! a reversible textual codec for it, a merger for command-line overrides,
//! and the debouncing state machine behind the file-change watcher.
//! File I/O and the watcher thread themselves live with the caller; the
//! logic that decides what they do is verified here.

pub mod codec;
pub mod config;
pub mod errors;
pub mod level;
pub mod watch;
