//! Verified core of the Artifex MCP server: command-line settings, the
//! texts the server hands to language models, the tool results it returns,
//! and the dependency-override logic of its development tasks.

pub mod cli;
pub mod overrider;
pub mod service;
pub mod source;
pub mod tasks;
pub mod text;
