//! Local-first research ingest: what is sent into an Obsidian vault becomes a job, its
//! text is extracted, and a note on it is filed under a project.
//!
//! The library decides and computes. It opens no file, runs no program and speaks to
//! no network: whoever uses it hands in what was read, and carries out what it says.

pub mod bytes;
pub mod clock;
pub mod command;
pub mod config;
pub mod daemon;
pub mod drop_server;
pub mod extract;
pub mod files;
pub mod form;
pub mod grok;
pub mod hash;
pub mod http;
pub mod ids;
pub mod incoming;
pub mod job;
pub mod json;
pub mod mcp;
pub mod media;
pub mod native;
pub mod notes;
pub mod numbers;
pub mod order;
pub mod pages;
pub mod paths;
pub mod process;
pub mod queue;
pub mod report;
pub mod search;
pub mod slug;
pub mod split;
pub mod text;
pub mod tools;
pub mod vault;
pub mod watch;
