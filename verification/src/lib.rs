//! The Blocker: a domain blocker for DNS queries.
//!
//! The library holds the logic, each function with its contract: domain
//! normalisation, block and allow rules, the engine that decides on a domain,
//! rule-list loading, DNS packets, the decisions of the DNS server and of the
//! HTTP API, the command-line options, and the tray's decisions. The laws
//! that span several operations are in `laws` (and, for DNS packets, in
//! `dns`).

pub mod text;
pub mod error;
pub mod domain;
pub mod rule;
pub mod event;
pub mod engine;
pub mod loader;
pub mod dns;
pub mod server;
pub mod store;
pub mod api;
pub mod cli;
pub mod laws;
pub mod ui;

pub use domain::normalize_domain;
pub use engine::{BlockDecision, BlockerEngine};
pub use error::BlockerError;
pub use event::{BlockAction, BlockEvent};
pub use loader::{load_rules_from_text, LoadedRules, RuleLoadIssue, RuleLoadReport};
pub use rule::{Rule, RuleSet};
