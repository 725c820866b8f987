use cardex::render::card::{accent_for, card_lines, card_page_lines, inner_width, suffix_shown, write_card};
use cardex::render::frame::{beside, Frame};
use cardex::render::style::{
    bar, bold, dim, fg, holo, italic, legal_badges, rarity_badge, shade, type_rgb, variant_badges,
    vis_width, Rgb, ENERGY_RGB, GOLD, TRAINER_RGB,
};
use cardex::tcgdex::card::{
    display_value, Ability, Attack, Booster, Card, CardBrief, HeldItem, Legal, Price, Pricing,
    TcgPlayer, TcgPlayerPrice, Variant, Weakness,
};
use cardex::tcgdex::set::{CardCount, SetBrief};

fn charmander() -> Card {
    Card {
        id: "base1-46".into(),
        local_id: "46".into(),
        name: "Charmander".into(),
        image: Some("https://assets.tcgdex.net/en/base/base1/46".into()),
        category: "Pokemon".into(),
        illustrator: Some("Mitsuhiro Arita".into()),
        rarity: Some("Common".into()),
        set: SetBrief {
            id: "base1".into(),
            name: "Base Set".into(),
            logo: None,
            symbol: None,
            card_count: CardCount { total: 102, official: 102, reverse: None, holo: None, first_ed: None },
        },
        variants: Variant { first_edition: false, holo: false, normal: true, reverse: false, w_promo: false },
        boosters: vec![],
        pricing: None,
        updated: None,
        regulation_mark: None,
        legal: None,
        dex_id: vec![4],
        hp: Some(70),
        types: Some(vec!["Fire".into()]),
        evolve_from: None,
        description: Some("It has a preference for hot things.".into()),
        level: None,
        stage: Some("Basic".into()),
        suffix: None,
        item: None,
        abilities: vec![],
        attacks: vec![Attack {
            cost: vec!["Fire".into()],
            name: "Ember".into(),
            effect: Some("Discard an Energy from this Pokémon.".into()),
            damage: Some("30".into()),
        }],
        weaknesses: vec![Weakness { weakness_type: "Water".into(), value: "×2".into() }],
        resistances: vec![],
        retreat: 1,
        effect: None,
        trainer_type: None,
        energy_type: None,
    }
}

fn trainer(name: &str) -> Card {
    let mut c = charmander();
    c.name = name.into();
    c.category = "Trainer".into();
    c.types = None;
    c.hp = None;
    c.stage = None;
    c.dex_id = vec![];
    c.attacks = vec![];
    c.weaknesses = vec![];
    c.retreat = 0;
    c.description = None;
    c.trainer_type = Some("Item".into());
    c.effect = Some("Search your deck for a card.".into());
    c
}

fn hues_for(name: &str) -> Vec<Rgb> {
    name.chars().enumerate().map(|(i, _)| (i as u8, 100, 200)).collect()
}

#[test]
fn card_helpers() {
    let mut c = charmander();
    assert_eq!(c.image_url().as_deref(), Some("https://assets.tcgdex.net/en/base/base1/46/low.png"));
    assert!(c.is_pokemon() && !c.is_trainer() && !c.is_energy());
    assert_eq!(c.number(), "46/102");
    assert_eq!(c.dex_label().as_deref(), Some("#004"));
    c.dex_id = vec![6, 25, 1000];
    assert_eq!(c.dex_label().as_deref(), Some("#006/#025/#1000"));
    c.dex_id = vec![];
    assert_eq!(c.dex_label(), None);
    c.level = Some("\"X\"".into());
    assert_eq!(c.level_str().as_deref(), Some("X"));
    c.level = Some("12".into());
    assert_eq!(c.level_str().as_deref(), Some("12"));
    c.level = Some("\"\"".into());
    assert_eq!(c.level_str(), None);
    c.image = None;
    assert_eq!(c.image_url(), None);
    c.category = "POKEMON".into();
    assert!(c.is_pokemon());
    assert!(trainer("Potion").is_trainer());
}

#[test]
fn attack_damage_text() {
    let a = |d: Option<&str>| Attack { cost: vec![], name: "x".into(), effect: None, damage: d.map(String::from) };
    assert_eq!(a(Some("30")).damage_str().as_deref(), Some("30"));
    assert_eq!(a(Some("\"30+\"")).damage_str().as_deref(), Some("30+"));
    assert_eq!(a(Some("\"\"")).damage_str(), None);
    assert_eq!(a(None).damage_str(), None);
    assert_eq!(display_value("\"120×\"").as_deref(), Some("120×"));
}

#[test]
fn brief_description() {
    let b = CardBrief { id: "base1-4".into(), local_id: "4".into(), name: "Charizard".into(), image: None };
    assert_eq!(b.describe(), "id: base1-4, name: Charizard");
}

#[test]
fn accent_colours() {
    assert_eq!(accent_for(&charmander()), type_rgb("Fire"));
    assert_eq!(accent_for(&trainer("Potion")), TRAINER_RGB);
    let mut e = trainer("Fire Energy");
    e.category = "Energy".into();
    assert_eq!(accent_for(&e), type_rgb("Fire"));
    e.name = "Double Colorless Energy".into();
    assert_eq!(accent_for(&e), (200, 200, 200));
    e.name = "Basic  energy   Water".into();
    assert_eq!(accent_for(&e), (200, 200, 200));
    e.name = "ENERGY  Water".into();
    assert_eq!(accent_for(&e), type_rgb("Water"));
    e.name = "Energy".into();
    assert_eq!(accent_for(&e), ENERGY_RGB);
    let mut other = trainer("Thing");
    other.category = "Other".into();
    assert_eq!(accent_for(&other), type_rgb("Colorless"));
    let mut typed = trainer("Thing");
    typed.types = Some(vec![]);
    assert_eq!(accent_for(&typed), TRAINER_RGB);
}

#[test]
fn pokemon_panel() {
    let c = charmander();
    let accent = type_rgb("Fire");
    let lines = card_lines(&c, 50, &hues_for(&c.name));

    let mut f = Frame::new(50, accent);
    f.top();
    f.split(&format!("{} {}", fg("▌", accent), bold(&fg("Charmander", accent))), &format!("{} {}", bold(&fg("70", accent)), dim("HP")));
    f.split(&format!("  {}", [dim("Basic"), fg("Fire", type_rgb("Fire"))].join(&dim(" · "))), &bar(2, 12, accent));
    f.row(&format!("  {}", fg("#004", shade(accent, 70))));
    f.rule();
    f.split(&format!("{}  {}", fg("●", type_rgb("Fire")), bold("Ember")), &bold(&fg("30", accent)));
    f.row(&format!("    {}", dim("Discard an Energy from this Pokémon.")));
    f.rule();
    f.split(
        &format!("{} {}{}", dim("Weakness"), fg("●", type_rgb("Water")), "×2"),
        &format!("{} {}", dim("Retreat"), fg("●", shade(accent, 75))),
    );
    f.rule();
    f.row(&dim(&italic("“It has a preference for hot things.”")));
    f.rule();
    f.split(&format!("{} {}", fg("Base Set", shade(accent, 80)), dim("· 46/102")), &rarity_badge("Common"));
    f.split(&dim("Illus. Mitsuhiro Arita"), &variant_badges(&c.variants));
    f.bottom();
    assert_eq!(&lines, f.lines());
    for l in &lines {
        assert_eq!(vis_width(l), 54);
    }
}

#[test]
fn trainer_panel_has_no_battle_rows() {
    let c = trainer("Potion");
    let accent = TRAINER_RGB;
    let lines = card_lines(&c, 50, &hues_for(&c.name));
    let mut f = Frame::new(50, accent);
    f.top();
    f.split(&format!("{} {}", fg("▌", accent), bold(&fg("Potion", accent))), "");
    f.split(&format!("  {}", [fg("Trainer", accent), dim("Item")].join(&dim(" · "))), "");
    f.rule();
    f.row(&dim("Search your deck for a card."));
    f.rule();
    f.split(&format!("{} {}", fg("Base Set", shade(accent, 80)), dim("· 46/102")), &rarity_badge("Common"));
    f.split(&dim("Illus. Mitsuhiro Arita"), &variant_badges(&c.variants));
    f.bottom();
    assert_eq!(&lines, f.lines());
}

#[test]
fn body_blocks_are_separated_by_blank_rows() {
    let mut c = charmander();
    c.abilities = vec![Ability { kind: "Ability".into(), name: "Blaze".into(), effect: "Burns.".into() }];
    c.item = Some(HeldItem { name: "Tool".into(), effect: "Helps.".into() });
    c.effect = Some("Rule text.".into());
    let accent = type_rgb("Fire");
    let lines = card_lines(&c, 50, &hues_for(&c.name));
    let mut f = Frame::new(50, accent);
    f.rule();
    f.row(&format!("{} {}", fg("◈ Ability", accent), bold("Blaze")));
    f.row(&format!("    {}", dim("Burns.")));
    f.blank();
    f.split(&format!("{}  {}", fg("●", type_rgb("Fire")), bold("Ember")), &bold(&fg("30", accent)));
    f.row(&format!("    {}", dim("Discard an Energy from this Pokémon.")));
    f.blank();
    f.row(&dim("Rule text."));
    f.blank();
    f.row(&format!("{} {}", fg("⚙ Held item", accent), bold("Tool")));
    f.row(&format!("    {}", dim("Helps.")));
    let body = f.lines();
    assert_eq!(&lines[4..4 + body.len()], &body[..]);
}

#[test]
fn name_suffix_compares_in_lower_case() {
    let accent = type_rgb("Fire");
    let mut c = charmander();
    c.name = "Charizard ex".into();
    c.suffix = Some("EX".into());
    let lines = card_lines(&c, 50, &hues_for(&c.name));
    assert!(lines[1].contains(&format!("{} {}", fg("▌", accent), bold(&fg("Charizard ex", accent)))));
    assert!(!lines[1].contains(&fg("EX", GOLD)));

    c.name = "ŸVELTAL".into();
    c.suffix = Some("ÿveltal".into());
    let lines = card_lines(&c, 50, &hues_for(&c.name));
    assert!(!lines[1].contains(&fg("ÿveltal", GOLD)));

    c.name = "Pikachu".into();
    c.suffix = Some("V".into());
    let lines = card_lines(&c, 50, &hues_for(&c.name));
    assert!(lines[1].contains(&format!("{} {}", bold(&fg("Pikachu", accent)), fg("V", GOLD))));
}

#[test]
fn rare_names_are_rainbow() {
    let mut c = charmander();
    c.rarity = Some("Rare Holo".into());
    let hues = hues_for(&c.name);
    let lines = card_lines(&c, 50, &hues);
    assert!(lines[1].contains(&holo("Charmander", &hues)));
}

#[test]
fn footer_legality_packs_and_prices() {
    let mut c = charmander();
    c.regulation_mark = Some("G".into());
    c.legal = Some(Legal { standard: true, expanded: true });
    c.updated = Some("2024-05-01T10:00:00Z".into());
    c.boosters = vec![
        Booster { id: "a".into(), name: "Charizard".into(), logo: None, artwork_front: None, artwork_back: None },
        Booster { id: "b".into(), name: "Blastoise".into(), logo: None, artwork_front: None, artwork_back: None },
    ];
    c.pricing = Some(Pricing {
        cardmarket: None,
        tcgplayer: TcgPlayer::new(
            None,
            "USD".into(),
            vec![(
                "normal".into(),
                TcgPlayerPrice {
                    low_price: Some(Price { positive: true, amount: "0.10".into() }),
                    mid_price: None,
                    high_price: None,
                    market_price: None,
                    direct_low_price: None,
                },
            )],
        ),
    });
    let lines = card_lines(&c, 50, &hues_for(&c.name));
    let accent = type_rgb("Fire");
    let mut f = Frame::new(50, accent);
    f.split(&format!("{} {}", fg("[G]", GOLD), legal_badges(true, true)), &dim("upd. 2024-05-01"));
    f.row(&dim("Packs: Charizard, Blastoise"));
    f.rule();
    f.split(&dim("TCGplayer"), &fg("", GOLD));
    f.split(&format!("  {}", dim("normal")), &fg("low $0.10", GOLD));
    f.bottom();
    let tail = f.lines();
    assert_eq!(&lines[lines.len() - tail.len()..], &tail[..]);
}

#[test]
fn inner_width_fills_the_terminal_within_bounds() {
    assert_eq!(inner_width(100, None), 80);
    assert_eq!(inner_width(100, Some(34)), 57);
    assert_eq!(inner_width(40, None), 50);
    assert_eq!(inner_width(0, Some(usize::MAX)), 50);
    assert_eq!(inner_width(1000, Some(34)), 80);
}

#[test]
fn page_puts_art_beside_the_panel() {
    let c = charmander();
    let hues = hues_for(&c.name);
    let art: Vec<String> = (0..24).map(|_| "A".repeat(34)).collect();
    let page = card_page_lines(&c, &art, 34, 100, &hues);
    let panel = card_lines(&c, 57, &hues);
    let both = beside(&art, &panel, 3);
    let mut want = vec![String::new()];
    want.extend(both.iter().map(|l| format!("  {l}")));
    want.push(String::new());
    assert_eq!(page, want);

    let bare = card_page_lines(&c, &Vec::new(), 34, 100, &hues);
    assert_eq!(bare[1], format!("  {}", card_lines(&c, 80, &hues)[0]));
}

#[test]
fn card_for_the_current_terminal() {
    let c = charmander();
    let hues = hues_for(&c.name);
    let out = write_card(&c, &Vec::new(), 0, &hues);
    assert_eq!(out.first().map(String::as_str), Some(""));
    assert_eq!(out.last().map(String::as_str), Some(""));
    assert_eq!(out.len(), card_lines(&c, 80, &hues).len() + 2);
}

#[test]
fn suffix_is_shown_unless_the_name_holds_it() {
    assert!(!suffix_shown("charizard ex", "ex"));
    assert!(suffix_shown("pikachu", "v"));
    assert!(!suffix_shown("anything", ""));
}
