//! What the operations of this library are for.
//!
//! The contracts beside the code say how each result is made up; the laws here say what a caller
//! relies on: that nothing a delegate said is lost, that a follow-up continues the session it is
//! meant for, that an account's credentials arrive, that every account is asked.
//! Each speaks of inputs and results and of as little in between as it can.

pub mod claude;
pub mod codex;
pub mod config;
pub mod failure;
pub mod launch;
pub mod messages;
pub mod paging;
pub mod paths;
pub mod process;
pub mod quota;
pub mod render;
pub mod report;
pub mod run;
pub mod settle;
pub mod text;
pub mod transcript;
