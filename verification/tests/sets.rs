use cardex::render::sets::{card_grid, count_detail, count_summary, set_lines, write_sets, SET_RGB};
use cardex::render::style::{bold, dim, legal_badges, shade, vis_width, Rgb, GOLD};
use cardex::tcgdex::card::CardBrief;
use cardex::tcgdex::serie::SerieBrief;
use cardex::tcgdex::set::{Booster, CardCount, CardSet, Legal, SetBrief};

fn esc_fg(s: &str, (r, g, b): Rgb) -> String {
    format!("\x1b[38;2;{r};{g};{b}m{s}\x1b[39m")
}

fn count(total: u32, official: u32) -> CardCount {
    CardCount { total, official, reverse: None, holo: None, first_ed: None }
}

fn brief(id: &str, local: &str, name: &str) -> CardBrief {
    CardBrief { id: id.into(), local_id: local.into(), name: name.into(), image: None }
}

#[test]
fn summaries_count_secret_rares() {
    assert_eq!(count_summary(&count(201, 189)), "189 cards · +12 secret");
    assert_eq!(count_summary(&count(189, 189)), "189 cards");
    assert_eq!(count_summary(&count(100, 102)), "102 cards");
}

#[test]
fn details_list_the_print_counts_present() {
    let n = |v: u32, l: &str| format!("{} {}", bold(&v.to_string()), dim(l));
    let c = CardCount { total: 201, official: 189, reverse: Some(143), holo: Some(0), first_ed: Some(4) };
    assert_eq!(
        count_detail(&c),
        [n(189, "official"), n(201, "total"), n(143, "reverse"), n(4, "1st ed")].join(&dim(" · "))
    );
    assert_eq!(count_detail(&count(5, 5)), [n(5, "official"), n(5, "total")].join(&dim(" · ")));
}

#[test]
fn set_list() {
    let sets = vec![
        SetBrief { id: "swsh3".into(), name: "Darkness Ablaze".into(), logo: None, symbol: None, card_count: count(201, 189) },
        SetBrief { id: "base1".into(), name: "Base Set".into(), logo: None, symbol: None, card_count: count(102, 102) },
    ];
    let out = write_sets(&sets);
    let want = vec![
        String::new(),
        format!("  {}", bold("2 sets")),
        String::new(),
        format!("  {} {}  {}", esc_fg("▌", SET_RGB), bold("Darkness Ablaze"), dim("swsh3")),
        format!("    {}", dim("189 cards · +12 secret")),
        format!("  {} {}  {}", esc_fg("▌", SET_RGB), bold("Base Set"), dim("base1")),
        format!("    {}", dim("102 cards")),
        String::new(),
    ];
    assert_eq!(out, want);
    assert_eq!(write_sets(&[]), vec![String::new(), format!("  {}", bold("0 sets")), String::new(), String::new()]);
}

#[test]
fn index_is_column_major_and_sorted() {
    let cards = vec![brief("s-10", "10", "Caterpie"), brief("s-1", "1", "Bulbasaur"), brief("s-2", "2", "Ivysaur")];
    let grid = card_grid(&cards, 40);
    assert_eq!(
        grid,
        vec![
            format!("{}  Bulbasaur    {}  Caterpie", dim("   1"), dim("  10")),
            format!("{}  Ivysaur", dim("   2")),
        ]
    );
}

#[test]
fn index_cuts_long_names_and_keeps_one_column_when_narrow() {
    let long = "Abcdefghijklmnopqrstuvwxyz";
    let cards = vec![brief("s-1", "1", long), brief("s-2", "2", "B")];
    let grid = card_grid(&cards, 10);
    assert_eq!(grid.len(), 2);
    assert_eq!(grid[0], format!("{}  Abcdefghijklmnopqrstu…", dim("   1")));
    assert_eq!(grid[1], format!("{}  B", dim("   2")));
    assert!(card_grid(&[], 80).is_empty());
}

fn sample_set() -> CardSet {
    CardSet {
        id: "swsh3".into(),
        name: "Darkness Ablaze".into(),
        logo: Some("https://assets.tcgdex.net/en/swsh/swsh3/logo".into()),
        symbol: None,
        card_count: count(3, 2),
        serie: SerieBrief { id: "swsh".into(), name: "Sword & Shield".into() },
        tcg_online: Some("DAA".into()),
        release_date: "2020-08-14".into(),
        legal: Legal { expanded: true, standard: false },
        boosters: Some(vec![Booster { id: "b1".into(), name: "Charizard".into(), logo: None, artwork_front: None, artwork_back: None }]),
        cards: vec![brief("swsh3-2", "2", "Ivysaur"), brief("swsh3-1", "1", "Bulbasaur"), brief("swsh3-3", "3", "Venusaur")],
    }
}

#[test]
fn set_page_without_pictures() {
    let s = sample_set();
    let out = set_lines(&s, &Vec::new(), None, 100);
    let border = shade(SET_RGB, 55);
    let b = esc_fg("│", border);
    assert_eq!(out[0], "");
    assert_eq!(out[1], format!("  {}", esc_fg(&format!("╭{}╮", "─".repeat(82)), border)));
    let name = format!("{} {} {}", " ".repeat(6), esc_fg("▌", SET_RGB), bold(&esc_fg("Darkness Ablaze", GOLD)));
    let gap = 80 - (6 + 1 + 1 + 1 + 15) - 5;
    assert_eq!(out[2], format!("  {b} {name}{}{} {b}", " ".repeat(gap), dim("swsh3")));
    let meta = [esc_fg("Sword & Shield", SET_RGB), dim("released 2020-08-14"), dim("TCGO DAA")].join(&dim(" · "));
    let meta_row = format!("{}   {meta}", " ".repeat(6));
    assert_eq!(out[3], format!("  {b} {meta_row}{} {b}", " ".repeat(80 - vis_width(&meta_row))));
    let legal = legal_badges(false, true);
    assert_eq!(out[6], format!("  {b} {legal}{} {b}", " ".repeat(80 - vis_width(&legal))));
    let packs = dim("Packs: Charizard");
    assert_eq!(out[7], format!("  {b} {packs}{} {b}", " ".repeat(80 - 16)));
    assert_eq!(out[8], format!("  {}", esc_fg(&format!("╰{}╯", "─".repeat(82)), border)));
    for line in &out[1..9] {
        assert_eq!(vis_width(line), 86);
    }
    assert_eq!(out[9], "");
    assert_eq!(out[10], format!("  {}", bold("3 cards")));
    assert_eq!(out[11], format!("  {}  Bulbasaur    {}  Ivysaur      {}  Venusaur", dim("   1"), dim("   2"), dim("   3")));
    assert_eq!(out[12], "");
    assert_eq!(out.len(), 13);
}

#[test]
fn set_page_with_a_logo_and_symbol() {
    let s = sample_set();
    let logo: Vec<String> = (0..8).map(|_| "L".repeat(36)).collect();
    let symbol: Vec<String> = vec!["SSSSSS".into(), "TTTTTT".into()];
    let out = set_lines(&s, &logo, Some(&symbol), 100);
    // inner = 100 - (2 + 36 + 3 + 4) = 55, logo beside the 8-line box.
    assert!(out[1].starts_with(&format!("  {}   ", "L".repeat(36))));
    assert_eq!(vis_width(&out[1]), 2 + 36 + 3 + 59);
    assert!(out[2].contains("SSSSSS"));
    assert!(out[3].contains("TTTTTT"));
}
