//! Verified core of the `tl` download tool: configuration merging, command-line
//! overrides, task planning, chunk scheduling and progress bookkeeping.
pub mod text;
pub mod headers;
pub mod cli;
pub mod config;
pub mod callback;
pub mod download;
pub mod engine;
