//! The MCP surface: nine tools over one run store.
//!
//! # Why these tools, in this shape
//!
//! Both hosts cap how long a tool call may block — Codex at sixty seconds by default, Anthropic's
//! at ten minutes — and a review runs for far longer than either.
//! So no tool waits for a review: `start` returns an id the moment the child is running, and the
//! child is detached so it survives an agentmux restart.
//! `ask` is the same thing with a bounded wait folded in, for the common case where the answer
//! arrives quickly.
//!
//! Every tool returns plain text and always names a path.
//! The text is a bounded convenience; the file is the deliverable.

pub mod params;
pub mod render;
pub mod tools;
