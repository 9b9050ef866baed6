//! Consult another coding agent and keep everything it said.

pub mod cli;
pub mod config;
pub mod delegate;
pub mod json;
pub mod launch;
pub mod laws;
pub mod mcp;
pub mod ordered;
pub mod path;
pub mod quota;
pub mod report;
pub mod run;
pub mod stream;
pub mod testing;
pub mod text;
pub mod time;
pub mod transcript;
