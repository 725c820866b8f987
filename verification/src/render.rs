//! Everything that turns TCGdex records into terminal lines.

pub mod style;
pub mod frame;
pub mod pricing;
pub mod list;
pub mod image;
pub mod sets;
pub mod card;
