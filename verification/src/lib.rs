//! Verified core of a command-line companion for a daily puzzle website:
//! persistent progress state with a textual codec, an input cache keyed by
//! (year, day), construction and classification of the website requests,
//! and rendering of HTML responses for the terminal.

pub mod cache;
pub mod cli;
pub mod error;
pub mod persist;
pub mod render;
pub mod state;
pub mod text;
pub mod web;
