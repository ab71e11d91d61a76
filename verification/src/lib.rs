//! A conversational kernel library: protocol vocabulary, context ledger,
//! history compaction, and the decision logic of the streaming tool-call
//! engine and the turn scheduler, with machine-checked contracts.

pub mod clock;
pub mod config;
pub mod compact;
pub mod engine;
pub mod json;
pub mod ledger;
pub mod protocol;
pub mod runtime;
pub mod text;
pub mod wire;
