//! The rules of a deployment panel for Docker Compose projects: which versions a service offers,
//! how a deployment proceeds and is undone, what is recorded of it, and what the panel shows.
//!
//! Nothing here reads a file, runs a command or opens a connection. What the outside world
//! answers comes in as an argument, and what has to be done there goes out as a value.
pub mod compose;
pub mod compose_laws;
pub mod config;
pub mod config_laws;
pub mod deployment;
pub mod deployment_laws;
pub mod duplicate;
pub mod entry_laws;
pub mod error;
pub mod github;
pub mod history_laws;
pub mod host_laws;
pub mod operation_laws;
pub mod ordered;
pub mod outside;
pub mod page_laws;
pub mod paths;
pub mod registry;
pub mod state;
pub mod storage;
pub mod storage_laws;
pub mod system;
pub mod table;
pub mod text;
pub mod text_laws;
pub mod update;
pub mod update_laws;
pub mod update_run;
pub mod version_laws;
pub mod web;
