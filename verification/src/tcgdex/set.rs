//! Sets: the brief form the list endpoint returns and the full set page.

use vstd::prelude::*;

use super::card::CardBrief;
use super::serie::SerieBrief;

verus! {

/// One entry of the set list.
#[derive(Debug, Clone)]
pub struct SetBrief {
    pub id: String,
    pub name: String,
    pub logo: Option<String>,
    pub symbol: Option<String>,
    pub card_count: CardCount,
}

/// A set with its metadata and every card in it.
#[derive(Debug, Clone)]
pub struct CardSet {
    pub id: String,
    pub name: String,
    pub logo: Option<String>,
    pub symbol: Option<String>,
    pub card_count: CardCount,
    pub serie: SerieBrief,
    pub tcg_online: Option<String>,
    pub release_date: String,
    pub legal: Legal,
    pub boosters: Option<Vec<Booster>>,
    pub cards: Vec<CardBrief>,
}

/// How many cards a set holds, by print kind.
#[derive(Debug, Clone, Copy)]
pub struct CardCount {
    pub total: u32,
    pub official: u32,
    pub reverse: Option<u32>,
    pub holo: Option<u32>,
    pub first_ed: Option<u32>,
}

/// Format legality of a set.
#[derive(Debug, Clone, Copy)]
pub struct Legal {
    pub expanded: bool,
    pub standard: bool,
}

/// A booster pack of a set.
#[derive(Debug, Clone)]
pub struct Booster {
    pub id: String,
    pub name: String,
    pub logo: Option<String>,
    pub artwork_front: Option<String>,
    pub artwork_back: Option<String>,
}

} // verus!
