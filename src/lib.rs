//! An event-subscription and matching engine over an append-only ledger.
//!
//! Clients register subscriptions (sets of program/function rules); the
//! monitor scans newly finalized blocks, matches every transition against the
//! live subscriptions and accumulates the matches per subscription until a
//! client drains them.
pub mod action;
pub mod events;
pub mod ledger;
pub mod payload;
pub mod match_index;
pub mod subscription;
pub mod monitor;
pub mod display;
pub mod laws;
pub mod network;

pub use action::ChainAction;
pub use display::{fmt_id, id_text, parse_id_text};
pub use events::{EventManifest, EventManifests};
pub use ledger::{Transaction, Transition};
pub use match_index::{MatchIndex, SubscriptionID};
pub use monitor::Monitor;
pub use network::network_name;
pub use payload::{EventPayLoad, matches_in_block};
pub use subscription::Subscription;
