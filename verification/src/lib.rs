use vstd::prelude::*;

pub mod error;
pub mod json;
pub mod text;
pub mod domain;
pub mod project_resolver;
pub mod mcp;
pub mod codecks_api;
pub mod config;
pub mod transport;
