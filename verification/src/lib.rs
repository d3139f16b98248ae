//! Resolves a Twitch VOD page address into the address of its stream
//! manifest and hands the result to a configured command.

pub mod cli;
pub mod config;
pub mod error;
pub mod info;
pub mod resolutions;
pub mod substitutions;
pub mod template;
pub mod text;
