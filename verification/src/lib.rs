//! Verified core of a Bugzilla client: attachment payload extraction,
//! response classification, search query construction and auth detection
//! decisions.

pub mod adjacency;
pub mod attachment;
pub mod auth;
pub mod cli;
pub mod client;
pub mod error;
pub mod fields;
pub mod json;
pub mod lookup;
pub mod redact;
pub mod response;
pub mod search;
pub mod server;
pub mod text;
pub mod types;
pub mod wire;
