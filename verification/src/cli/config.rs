//! The parsed command line.

use vstd::prelude::*;

verus! {

/// The command and the card region to query (`en`, `fr`, `de`, `ja`, ...).
#[derive(Debug, Clone)]
pub struct Config {
    pub command: Command,
    pub region: String,
}

/// What to show.
#[derive(Debug, Clone)]
pub enum Command {
    /// Full details for a single card.
    Card { id: String },
    /// Cards by name, optionally of one rarity.
    Search { name: String, rarity: Option<String> },
    /// A set and every card in it.
    CardSet { id: String },
    /// Sets by name, all of them if no name is given.
    Sets { name: Option<String> },
}

} // verus!
