//! The TCGdex data model and the pure parts of talking to its API.

pub mod card;
pub mod client;
pub mod error;
pub mod query;
pub mod serie;
pub mod set;
