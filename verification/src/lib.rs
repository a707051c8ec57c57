//! A local DNS filtering daemon: rule parsing and matching, query
//! classification, response caching, upstream selection, configuration
//! parsing and query statistics, each with a machine-checked contract.

pub mod text;
pub mod filter;
pub mod net;
pub mod app_config;
pub mod message;
pub mod collections;
pub mod cache;
pub mod matchers;
pub mod rules;
pub mod stats;
pub mod storage;
pub mod dns;
pub mod upstream;
pub mod config;
pub mod domain_rules;
pub mod server;
pub mod metrics;
pub mod dashboard;
pub mod daemon;
