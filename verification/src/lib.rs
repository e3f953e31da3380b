//! Usage-reporting core of a GraphQL observability agent.
//!
//! The crate normalizes GraphQL operations, extracts the schema coordinates
//! they touch, assembles usage reports and holds the decision logic of the
//! schema registry poller. Every function is verified against a contract over
//! the mathematical views of the data it handles, but for the few in
//! `cache`, `digest` and `minify` that call the `lru`, `md5`, `sha2` and
//! `graphql_parser` crates: their contracts are taken on trust. Parsing a
//! text and printing a syntax tree are left to the caller, who hands both to
//! the processor as functions.

pub mod text;
pub mod ast;
pub mod schema;
pub mod ordering;
pub mod normalize;
pub mod coordinates;
pub mod cache;
pub mod digest;
pub mod minify;
pub mod processor;
pub mod literals;
pub mod agent;
pub mod context;
pub mod usage;
pub mod registry;
pub mod registry_logger;
pub mod logger;
pub mod local_tracer;


