//! Discovery, filtering, and random selection of locally installed Steam games.
//!
//! The library parses the client's line-oriented key/value manifest files,
//! resolves additional library roots, filters out non-game entries
//! (runtimes, redistributables, soundtracks), and picks one surviving entry
//! uniformly at random.  All file reading and process spawning is left to
//! the surrounding application; the functions here work on plain strings.

pub mod catalog;
pub mod filter;
pub mod steam;
pub mod text;
pub mod vdf;
