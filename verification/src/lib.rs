//! Declarative management of Tenzir pipelines: the verified core.

pub mod apply;
pub mod auth;
pub mod cli;
pub mod client;
pub mod config;
pub mod converge;
pub mod error;
pub mod insights;
pub mod ext;
pub mod model;
pub mod output;
pub mod paths;
pub mod project;
pub mod pull;
pub mod status;
pub mod symbols;
pub mod reconcile;
pub mod table;
pub mod text;
