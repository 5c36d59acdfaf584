pub mod assoc;
pub mod browse;
pub mod cli;
pub mod config;
pub mod error;
pub mod events;
pub mod java;
pub mod json;
pub mod json_text;
pub mod logging;
pub mod lsp;
pub mod mcp;
pub mod models;
pub mod paths;
pub mod project;
pub mod requests;
pub mod runtime;
pub mod service;
pub mod session;
pub mod text;
pub mod toon;
pub mod uri;
pub mod watcher;
pub mod ui;
