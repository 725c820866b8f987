//! Cards: the brief form search returns and the full card record.

use vstd::prelude::*;
use vstd::string::*;

use crate::text::{
    ascii_lower, chars_of, dec, dec_padded, dec_string, eq_ignore_ascii_case, join, join_strings, push_char,
    push_char_n, push_dec, str_eq, string_of, strs, trim_char, trim_char_vec,
};
use super::set::SetBrief;

verus! {

/// The characters of an optional string.
pub open spec fn opt_view(o: Option<String>) -> Option<Seq<char>> {
    match o {
        Some(s) => Some(s@),
        None => None,
    }
}

/// One search hit.
#[derive(Debug, Clone)]
pub struct CardBrief {
    pub id: String,
    pub local_id: String,
    pub name: String,
    pub image: Option<String>,
}

impl CardBrief {
    /// `id: <id>, name: <name>`.
    pub fn describe(&self) -> (r: String)
        ensures
            r@ == "id: "@ + self.id@ + ", name: "@ + self.name@,
    {
        let mut s = String::from_str("id: ");
        s.append(self.id.as_str());
        s.append(", name: ");
        s.append(self.name.as_str());
        s
    }
}

/// A full card record.
///
/// `level` holds the compact JSON text of the API's `level` value
/// (a number or a string), as `serde_json` prints it.
#[derive(Debug, Clone)]
pub struct Card {
    pub id: String,
    pub local_id: String,
    pub name: String,
    pub image: Option<String>,
    pub category: String,
    pub illustrator: Option<String>,
    pub rarity: Option<String>,
    pub set: SetBrief,
    pub variants: Variant,
    pub boosters: Vec<Booster>,
    pub pricing: Option<Pricing>,
    pub updated: Option<String>,
    pub regulation_mark: Option<String>,
    pub legal: Option<Legal>,
    pub dex_id: Vec<u32>,
    pub hp: Option<u16>,
    pub types: Option<Vec<String>>,
    pub evolve_from: Option<String>,
    pub description: Option<String>,
    pub level: Option<String>,
    pub stage: Option<String>,
    pub suffix: Option<String>,
    pub item: Option<HeldItem>,
    pub abilities: Vec<Ability>,
    pub attacks: Vec<Attack>,
    pub weaknesses: Vec<Weakness>,
    pub resistances: Vec<Resistance>,
    pub retreat: u8,
    pub effect: Option<String>,
    pub trainer_type: Option<String>,
    pub energy_type: Option<String>,
}

/// `#007`: the number left-padded with zeros to three digits.
pub open spec fn dex_entry(d: u32) -> Seq<char> {
    seq!['#'] + dec_padded(d as nat, 3)
}

/// The dex numbers joined with `/`, or nothing when there are none.
pub open spec fn dex_text(ids: Seq<u32>) -> Option<Seq<char>> {
    if ids.len() == 0 {
        None
    } else {
        Some(join(ids.map_values(|d: u32| dex_entry(d)), "/"@))
    }
}

/// The JSON text of a value with surrounding quotes removed, or nothing
/// when that leaves the empty string.
pub open spec fn display_text(json: Seq<char>) -> Option<Seq<char>> {
    let t = trim_char(json, '"');
    if t.len() == 0 {
        None
    } else {
        Some(t)
    }
}

/// `display_text` of an optional value.
pub open spec fn display_opt(json: Option<String>) -> Option<Seq<char>> {
    match json {
        Some(j) => display_text(j@),
        None => None,
    }
}

/// A value's JSON text shown without its quotes: `"\"120+\""` shows as
/// `120+`, `"30"` as `30`; an empty text shows as nothing.
pub fn display_value(json: &str) -> (r: Option<String>)
    ensures
        opt_view(r) == display_text(json@),
{
    let t = trim_char_vec(&chars_of(json), '"');
    if t.len() == 0 {
        None
    } else {
        Some(string_of(&t))
    }
}

impl Card {
    /// Address of the small artwork: the image base with `/low.png`.
    pub fn image_url(&self) -> (r: Option<String>)
        ensures
            opt_view(r) == match self.image {
                Some(base) => Some(base@ + "/low.png"@),
                None => None,
            },
    {
        match &self.image {
            Some(base) => {
                let mut s = base.clone();
                s.append("/low.png");
                Some(s)
            },
            None => None,
        }
    }

    /// The category is "pokemon", ignoring ASCII case.
    pub fn is_pokemon(&self) -> (r: bool)
        ensures
            r == (ascii_lower(self.category@) == ascii_lower("pokemon"@)),
    {
        eq_ignore_ascii_case(self.category.as_str(), "pokemon")
    }

    /// The category is "trainer", ignoring ASCII case.
    pub fn is_trainer(&self) -> (r: bool)
        ensures
            r == (ascii_lower(self.category@) == ascii_lower("trainer"@)),
    {
        eq_ignore_ascii_case(self.category.as_str(), "trainer")
    }

    /// The category is "energy", ignoring ASCII case.
    pub fn is_energy(&self) -> (r: bool)
        ensures
            r == (ascii_lower(self.category@) == ascii_lower("energy"@)),
    {
        eq_ignore_ascii_case(self.category.as_str(), "energy")
    }

    /// `local/official`, e.g. `147/131`.
    pub fn number(&self) -> (r: String)
        ensures
            r@ == self.local_id@ + "/"@ + dec(self.set.card_count.official as nat),
    {
        let mut s = self.local_id.clone();
        s.append("/");
        push_dec(&mut s, self.set.card_count.official as u64);
        s
    }

    /// National dex numbers as `#006/#025`, or nothing when there are none.
    pub fn dex_label(&self) -> (r: Option<String>)
        ensures
            opt_view(r) == dex_text(self.dex_id@),
    {
        if self.dex_id.len() == 0 {
            return None;
        }
        let mut parts: Vec<String> = Vec::new();
        let mut i: usize = 0;
        while i < self.dex_id.len()
            invariant
                i <= self.dex_id.len(),
                strs(parts@) == self.dex_id@.subrange(0, i as int).map_values(
                    |d: u32| dex_entry(d),
                ),
            decreases self.dex_id.len() - i,
        {
            let d = self.dex_id[i];
            let digits = dec_string(d as u64);
            let mut p = String::new();
            push_char(&mut p, '#');
            if digits.as_str().unicode_len() < 3 {
                push_char_n(&mut p, '0', 3 - digits.as_str().unicode_len());
            }
            p.append(digits.as_str());
            assert(p@ =~= dex_entry(d));
            let ghost before = strs(parts@);
            parts.push(p);
            assert(strs(parts@) =~= before.push(dex_entry(d)));
            i = i + 1;
            assert(self.dex_id@.subrange(0, i as int).map_values(|d: u32| dex_entry(d))
                =~= self.dex_id@.subrange(0, i - 1).map_values(|d: u32| dex_entry(d)).push(
                dex_entry(d),
            ));
        }
        assert(self.dex_id@.subrange(0, self.dex_id@.len() as int) =~= self.dex_id@);
        Some(join_strings(&parts, "/"))
    }

    /// The level as shown: its JSON text without quotes, if not empty.
    pub fn level_str(&self) -> (r: Option<String>)
        ensures
            opt_view(r) == display_opt(self.level),
    {
        match &self.level {
            Some(j) => display_value(j.as_str()),
            None => None,
        }
    }
}

/// Which print variants exist of a card.
#[derive(Debug, Clone, Copy, Default)]
pub struct Variant {
    pub first_edition: bool,
    pub holo: bool,
    pub normal: bool,
    pub reverse: bool,
    pub w_promo: bool,
}

/// A booster pack a card can be pulled from.
#[derive(Debug, Clone)]
pub struct Booster {
    pub id: String,
    pub name: String,
    pub logo: Option<String>,
    pub artwork_front: Option<String>,
    pub artwork_back: Option<String>,
}

/// Format legality of a card.
#[derive(Debug, Clone, Copy)]
pub struct Legal {
    pub standard: bool,
    pub expanded: bool,
}

/// An ability (`kind` is e.g. "Ability" or "Poké-POWER").
#[derive(Debug, Clone)]
pub struct Ability {
    pub kind: String,
    pub name: String,
    pub effect: String,
}

/// A Pokémon tool attached to the card.
#[derive(Debug, Clone)]
pub struct HeldItem {
    pub name: String,
    pub effect: String,
}

/// An attack. `damage` holds the compact JSON text of the API's
/// `damage` value (a number or a string such as `"30+"`).
#[derive(Debug, Clone)]
pub struct Attack {
    pub cost: Vec<String>,
    pub name: String,
    pub effect: Option<String>,
    pub damage: Option<String>,
}

impl Attack {
    /// The damage as shown: its JSON text without quotes, if not empty.
    pub fn damage_str(&self) -> (r: Option<String>)
        ensures
            opt_view(r) == display_opt(self.damage),
    {
        match &self.damage {
            Some(j) => display_value(j.as_str()),
            None => None,
        }
    }
}

/// A weakness or resistance: an energy type and a modifier such as `×2`.
#[derive(Debug, Clone)]
pub struct Weakness {
    pub weakness_type: String,
    pub value: String,
}

pub type Resistance = Weakness;

/// A market price as the footer shows it: whether it is above zero
/// (the API sends 0 for a price it does not have) and the amount written
/// out, with cents below 100 (`1.25`) and without from 100 on (`120`).
#[derive(Debug, Clone)]
pub struct Price {
    pub positive: bool,
    pub amount: String,
}

/// Market prices from both marketplaces.
#[derive(Debug, Clone)]
pub struct Pricing {
    pub cardmarket: Option<Cardmarket>,
    pub tcgplayer: Option<TcgPlayer>,
}

/// Cardmarket prices, plain and holo.
#[derive(Debug, Clone)]
pub struct Cardmarket {
    pub updated: Option<String>,
    pub unit: String,
    pub avg: Option<Price>,
    pub low: Option<Price>,
    pub trend: Option<Price>,
    pub avg1: Option<Price>,
    pub avg7: Option<Price>,
    pub avg30: Option<Price>,
    pub avg_holo: Option<Price>,
    pub low_holo: Option<Price>,
    pub trend_holo: Option<Price>,
    pub avg1_holo: Option<Price>,
    pub avg7_holo: Option<Price>,
    pub avg30_holo: Option<Price>,
}

/// No variant name occurs twice.
pub open spec fn names_unique(vs: Seq<(String, TcgPlayerPrice)>) -> bool {
    forall|i: int, j: int| 0 <= i < j < vs.len() ==> vs[i].0@ != vs[j].0@
}

/// TCGplayer prices, one entry per print variant name (each name once, as
/// in the API's object of variants), in any order.
#[derive(Debug)]
pub struct TcgPlayer {
    updated: Option<String>,
    unit: String,
    variants: Vec<(String, TcgPlayerPrice)>,
}

impl TcgPlayer {
    #[verifier::type_invariant]
    spec fn names_once(self) -> bool {
        names_unique(self.variants@)
    }

    /// When the prices were last updated.
    pub closed spec fn updated_view(&self) -> Option<Seq<char>> {
        opt_view(self.updated)
    }

    /// The currency of the prices.
    pub closed spec fn unit_view(&self) -> Seq<char> {
        self.unit@
    }

    /// The variants with their prices.
    pub closed spec fn entries(&self) -> Seq<(String, TcgPlayerPrice)> {
        self.variants@
    }

    /// The prices, or nothing when a variant name occurs twice.
    pub fn new(updated: Option<String>, unit: String, variants: Vec<(String, TcgPlayerPrice)>) -> (r:
        Option<Self>)
        ensures
            r is Some <==> names_unique(variants@),
            r matches Some(t) ==> t.updated_view() == opt_view(updated) && t.unit_view() == unit@
                && t.entries() == variants@,
    {
        let mut i: usize = 0;
        while i < variants.len()
            invariant
                i <= variants@.len(),
                forall|a: int, b: int| 0 <= a < b < i ==> variants@[a].0@ != variants@[b].0@,
            decreases variants@.len() - i,
        {
            let mut j: usize = 0;
            while j < i
                invariant
                    j <= i < variants@.len(),
                    forall|a: int| 0 <= a < j ==> variants@[a].0@ != variants@[i as int].0@,
                decreases i - j,
            {
                if str_eq(variants[j].0.as_str(), variants[i].0.as_str()) {
                    assert(!names_unique(variants@));
                    return None;
                }
                j = j + 1;
            }
            i = i + 1;
        }
        Some(TcgPlayer { updated, unit, variants })
    }

    /// When the prices were last updated.
    pub fn updated(&self) -> (r: &Option<String>)
        ensures
            opt_view(*r) == self.updated_view(),
    {
        &self.updated
    }

    /// The currency of the prices.
    pub fn unit(&self) -> (r: &str)
        ensures
            r@ == self.unit_view(),
    {
        self.unit.as_str()
    }

    /// The variants with their prices; no name occurs twice.
    pub fn variants(&self) -> (r: &Vec<(String, TcgPlayerPrice)>)
        ensures
            r@ == self.entries(),
            names_unique(r@),
    {
        proof {
            use_type_invariant(self);
        }
        &self.variants
    }
}

impl Clone for TcgPlayer {
    fn clone(&self) -> (r: Self) {
        proof {
            use_type_invariant(self);
        }
        let mut variants: Vec<(String, TcgPlayerPrice)> = Vec::new();
        let mut i: usize = 0;
        while i < self.variants.len()
            invariant
                i <= self.variants@.len(),
                names_unique(self.variants@),
                variants@.len() == i,
                forall|k: int| 0 <= k < i ==> #[trigger] variants@[k].0@ == self.variants@[k].0@,
            decreases self.variants@.len() - i,
        {
            let name = self.variants[i].0.clone();
            variants.push((name, self.variants[i].1.clone()));
            i = i + 1;
        }
        assert(names_unique(variants@)) by {
            assert forall|a: int, b: int| 0 <= a < b < variants@.len() implies variants@[a].0@
                != variants@[b].0@ by {
                assert(variants@[a].0@ == self.variants@[a].0@);
                assert(variants@[b].0@ == self.variants@[b].0@);
            }
        }
        TcgPlayer { updated: self.updated.clone(), unit: self.unit.clone(), variants }
    }
}

/// TCGplayer prices of one print variant.
#[derive(Debug, Clone)]
pub struct TcgPlayerPrice {
    pub low_price: Option<Price>,
    pub mid_price: Option<Price>,
    pub high_price: Option<Price>,
    pub market_price: Option<Price>,
    pub direct_low_price: Option<Price>,
}

} // verus!
