//! Dispute-coordinator vote-import and escalation engine.
//!
//! Tracks per-candidate validator votes, detects and confirms disputes,
//! applies spam-resistance accounting, and decides when a dispute must
//! trigger participation, chain reversion or validator disabling.

pub mod coordinator;
pub mod disabled;
pub mod environment;
pub mod import;
pub mod keymap;
pub mod laws;
pub mod mq;
pub mod pvf;
pub mod quorum;
pub mod spam_slots;
pub mod status;
pub mod util;
pub mod votes;
