//! Terminal rendering of Pokémon TCG cards and sets from TCGdex data.

pub mod cli;
pub mod order;
pub mod render;
pub mod tcgdex;
pub mod text;
