//! File-first HTTP request tooling: placeholder expansion, environment
//! resolution, request-definition parsing, and curl-command import.
pub mod artifacts;
pub mod config;
pub mod envfile;
pub mod envmap;
pub mod errors;
pub mod executor;
pub mod headers;
pub mod importer;
pub mod parser;
pub mod placeholder;
pub mod strkit;
pub mod substitute;
pub mod template;
pub mod web;
