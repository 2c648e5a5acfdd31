//! The per-turn prompt envelope sent to agent CLIs, and its removal for display.
pub mod envelope;
pub mod skills;
