//! Merge engine for composite OpenAPI descriptions.
//!
//! Several independently authored OpenAPI documents are combined into one:
//! component definitions are renamed under a per-application prefix, every
//! internal `$ref` is rewritten in lockstep, and path templates are mounted
//! under per-application external paths.

pub mod config;
pub mod document;
pub mod joiner;
pub mod loader;
pub mod paths;
pub mod refs;
pub mod rewrite;
