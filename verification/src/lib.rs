//! Building blocks of a ReAct agent, each with a machine-checked contract.

pub mod bash;
pub mod builtin;
pub mod bytes;
pub mod config;
pub mod diff_preview;
pub mod encoding;
pub mod engine;
pub mod error;
pub mod error_recovery;
pub mod event;
pub mod factory;
pub mod file;
pub mod http;
pub mod json;
pub mod memory;
pub mod middleware;
pub mod openai;
pub mod provider;
pub mod render;
pub mod repl;
pub mod retry;
pub mod sanitize;
pub mod skills;
pub mod state;
pub mod summary;
pub mod text;
pub mod tool;
pub mod types;
pub mod validate;
