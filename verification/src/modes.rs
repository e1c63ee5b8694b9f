//! Game modes: Jeopardy, King of the Hill, Attack/Defense and Workshop.
//!
//! Each mode is a deterministic state machine over typed commands. The
//! serialized JSON adapters of the modes live outside the library.

pub mod attack_defense;
pub mod jeopardy;
pub mod koth;
pub mod workshop;
