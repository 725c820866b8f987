use cardex::render::list::{group_by_set, local_key, parse_u32, render_list, set_of};
use cardex::render::style::{bold, dim, Rgb};
use cardex::tcgdex::card::CardBrief;

fn esc_fg(s: &str, (r, g, b): Rgb) -> String {
    format!("\x1b[38;2;{r};{g};{b}m{s}\x1b[39m")
}

fn brief(id: &str, local: &str, name: &str) -> CardBrief {
    CardBrief { id: id.into(), local_id: local.into(), name: name.into(), image: None }
}

fn wheel() -> Vec<Rgb> {
    (0..360u32).map(|i| ((i % 256) as u8, (i / 256) as u8, 7)).collect()
}

#[test]
fn set_of_an_id() {
    assert_eq!(set_of("swsh3-136"), "swsh3");
    assert_eq!(set_of("sv08.5-147"), "sv08.5");
    assert_eq!(set_of("a-b-c"), "a-b");
    assert_eq!(set_of("base1"), "base1");
    assert_eq!(set_of("-4"), "");
}

#[test]
fn local_numbers_parse_like_u32() {
    let p = |s: &str| parse_u32(&s.chars().collect());
    assert_eq!(p("4"), Some(4));
    assert_eq!(p("020"), Some(20));
    assert_eq!(p("+7"), Some(7));
    assert_eq!(p("4294967295"), Some(u32::MAX));
    assert_eq!(p("4294967296"), None);
    assert_eq!(p("SWSH261"), None);
    assert_eq!(p(""), None);
    assert_eq!(p("+"), None);
    assert_eq!(p("-1"), None);
    assert_eq!(local_key("20"), (20, "20".to_string()));
    assert_eq!(local_key("SWSH261"), (u32::MAX, "SWSH261".to_string()));
    assert!(local_key("4") < local_key("20"));
    assert!(local_key("999") < local_key("SWSH001"));
}

#[test]
fn grouping_sorts_by_set_then_number() {
    let cards = vec![
        brief("swsh3-20", "20", "Charizard VMAX"),
        brief("base1-4", "4", "Charizard"),
        brief("swsh3-4", "4", "Charmander"),
        brief("swsh3-SWSH261", "SWSH261", "Promo"),
        brief("base1-11", "11", "Nidoking"),
    ];
    let groups = group_by_set(&cards);
    assert_eq!(groups.len(), 2);
    assert_eq!(groups[0].0, "base1");
    let ids0: Vec<&str> = groups[0].1.iter().map(|c| c.id.as_str()).collect();
    assert_eq!(ids0, vec!["base1-4", "base1-11"]);
    assert_eq!(groups[1].0, "swsh3");
    let ids1: Vec<&str> = groups[1].1.iter().map(|c| c.id.as_str()).collect();
    assert_eq!(ids1, vec!["swsh3-4", "swsh3-20", "swsh3-SWSH261"]);
}

#[test]
fn grouping_keeps_equal_keys_in_input_order() {
    let cards = vec![brief("s-1", "1", "first"), brief("s-1", "1", "second")];
    let groups = group_by_set(&cards);
    assert_eq!(groups.len(), 1);
    assert_eq!(groups[0].1[0].name, "first");
    assert_eq!(groups[0].1[1].name, "second");
}

#[test]
fn listing_of_search_results() {
    let hues = wheel();
    let cards = vec![
        brief("swsh3-20", "20", "Charizard VMAX"),
        brief("base1-4", "4", "Charizard"),
        brief("swsh3-19", "19", "Charizard V"),
    ];
    let out = render_list("charizard", &cards, &hues);
    let row = |c: &CardBrief| format!("    {}  {}  {}", dim(&format!("{:>7}", c.local_id)), c.name, dim(&c.id));
    let header = |set: &str, n: usize, accent: Rgb| {
        format!("  {} {} {}", esc_fg("▌", accent), bold(&esc_fg(set, accent)), dim(&format!("· {n}")))
    };
    let want = vec![
        String::new(),
        format!("  {} {}", bold("3 cards"), dim("matching “charizard” · 2 sets")),
        String::new(),
        header("base1", 1, hues[0]),
        row(&cards[1]),
        header("swsh3", 2, hues[47]),
        row(&cards[2]),
        row(&cards[0]),
        String::new(),
    ];
    assert_eq!(out, want);
}

#[test]
fn group_colours_step_round_the_wheel() {
    let hues = wheel();
    let cards: Vec<CardBrief> =
        (0..9).map(|i| brief(&format!("set{i}-1"), "1", "x")).collect();
    let out = render_list("x", &cards, &hues);
    // Header of group 8 (the ninth set) is hue (8 * 47) % 360 = 16.
    let header8 = &out[3 + 2 * 8];
    assert!(header8.contains(&esc_fg("▌", hues[16])));
    let used: Vec<usize> = (0..9).map(|i| (i * 47) % 360).collect();
    for (g, k) in used.iter().enumerate() {
        assert!(out[3 + 2 * g].contains(&esc_fg("▌", hues[*k])));
    }
    let mut distinct = used.clone();
    distinct.sort();
    distinct.dedup();
    assert_eq!(distinct.len(), used.len());
}

#[test]
fn listing_with_no_results() {
    let out = render_list("mew", &[], &wheel());
    assert_eq!(out, vec![String::new(), format!("  {}", dim("No cards matching “mew”")), String::new()]);
}
