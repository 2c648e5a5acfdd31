//! Verified core of the Agentero research-vault assistant.

pub mod citation;
pub mod doctor;
pub mod prompt;
pub mod scholar;
pub mod session;
pub mod text;
pub mod venues;
pub mod web;
