//! Pure core of a keyboard-driven terminal client for GitHub pull requests.

pub mod action;
pub mod api;
pub mod auth;
pub mod cmd;
pub mod diff;
pub mod graphql;
pub mod input_map;
pub mod keys;
pub mod markdown;
pub mod laws;
pub mod msg;
pub mod pr_files;
pub mod pull_list;
pub mod pulls;
pub mod rate_limit;
pub mod reducer;
pub mod repo;
pub mod resolver;
pub mod state;
pub mod syntax;
pub mod style;
pub mod text;
pub mod word;
pub mod workers;
