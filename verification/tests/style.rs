use cardex::render::style::{
    bar, bold, cols_from, dim, fg, holo, is_rare, italic, legal_badges, lerp, rarity_badge, shade, term_cols,
    type_rgb, variant_badges, vis_width, wrap, Rgb, GOLD, GREEN,
};
use cardex::tcgdex::card::Variant;

fn esc_fg(s: &str, (r, g, b): Rgb) -> String {
    format!("\x1b[38;2;{r};{g};{b}m{s}\x1b[39m")
}

/// The float hue wheel the terminal output is drawn with.
fn hsv(h: f32, s: f32, v: f32) -> Rgb {
    let c = v * s;
    let x = c * (1.0 - ((h / 60.0) % 2.0 - 1.0).abs());
    let m = v - c;
    let (r, g, b) = match (h / 60.0) as u32 % 6 {
        0 => (c, x, 0.0),
        1 => (x, c, 0.0),
        2 => (0.0, c, x),
        3 => (0.0, x, c),
        4 => (x, 0.0, c),
        _ => (c, 0.0, x),
    };
    (((r + m) * 255.0) as u8, ((g + m) * 255.0) as u8, ((b + m) * 255.0) as u8)
}

fn float_holo(s: &str) -> String {
    let n = s.chars().count().max(1) as f32;
    s.chars()
        .enumerate()
        .map(|(i, ch)| bold(&esc_fg(&ch.to_string(), hsv(300.0 * i as f32 / n, 0.55, 1.0))))
        .collect()
}

#[test]
fn sgr_wrappers_are_exact() {
    assert_eq!(fg("Fire", (240, 128, 48)), "\x1b[38;2;240;128;48mFire\x1b[39m");
    assert_eq!(bold("x"), "\x1b[1mx\x1b[22m");
    assert_eq!(dim("x"), "\x1b[2mx\x1b[22m");
    assert_eq!(italic("x"), "\x1b[3mx\x1b[23m");
    assert_eq!(fg("", (0, 0, 0)), "\x1b[38;2;0;0;0m\x1b[39m");
}

#[test]
fn type_colours() {
    assert_eq!(type_rgb("Grass"), (120, 200, 80));
    assert_eq!(type_rgb("Fire"), (240, 128, 48));
    assert_eq!(type_rgb("Water"), (104, 144, 240));
    assert_eq!(type_rgb("Lightning"), (248, 208, 48));
    assert_eq!(type_rgb("Psychic"), (248, 88, 136));
    assert_eq!(type_rgb("Fighting"), (192, 48, 40));
    assert_eq!(type_rgb("Darkness"), (112, 88, 72));
    assert_eq!(type_rgb("Metal"), (184, 184, 208));
    assert_eq!(type_rgb("Fairy"), (238, 153, 172));
    assert_eq!(type_rgb("Dragon"), (112, 56, 248));
    assert_eq!(type_rgb("Colorless"), (200, 200, 200));
    assert_eq!(type_rgb("fire"), (200, 200, 200));
}

#[test]
fn shade_matches_float_scaling() {
    assert_eq!(shade((240, 128, 48), 55), (132, 70, 26));
    assert_eq!(shade((255, 255, 255), 100), (255, 255, 255));
    assert_eq!(shade((255, 255, 255), 0), (0, 0, 0));
    let colours: [Rgb; 6] =
        [(240, 128, 48), (104, 144, 240), (248, 88, 136), (220, 180, 120), (255, 200, 60), (1, 2, 3)];
    for c in colours {
        for (pct, k) in [(55u8, 0.55f32), (75, 0.75), (80, 0.8), (70, 0.7), (35, 0.35)] {
            let want = ((c.0 as f32 * k) as u8, (c.1 as f32 * k) as u8, (c.2 as f32 * k) as u8);
            assert_eq!(shade(c, pct), want, "{c:?} at {pct}%");
        }
    }
}

#[test]
fn lerp_endpoints_and_middle() {
    let a = (240, 128, 48);
    let b = (132, 70, 26);
    assert_eq!(lerp(a, b, 0, 10), a);
    assert_eq!(lerp(a, b, 10, 10), b);
    assert_eq!(lerp((0, 0, 0), (100, 200, 50), 1, 2), (50, 100, 25));
    assert_eq!(lerp((100, 200, 50), (0, 0, 0), 1, 4), (75, 150, 37));
}

#[test]
fn colour_maths_saturates_like_a_float_cast() {
    assert_eq!(shade((200, 100, 50), 200), (255, 200, 100));
    assert_eq!(lerp((0, 0, 0), (100, 200, 50), 3, 2), (150, 255, 75));
    assert_eq!(lerp((100, 200, 50), (0, 0, 0), 3, 1), (0, 0, 0));
    let t = 1.5f32;
    let mix = |x: u8, y: u8| (x as f32 + (y as f32 - x as f32) * t) as u8;
    assert_eq!(lerp((10, 250, 40), (90, 5, 200), 3, 2), (mix(10, 90), mix(250, 5), mix(40, 200)));
}

#[test]
fn lerp_matches_float_interpolation_on_a_divider() {
    let accent = (240, 128, 48);
    let border = shade(accent, 55);
    let n: u64 = 56;
    for i in 0..n {
        let t = i as f32 / (n - 1) as f32;
        let mix = |x: u8, y: u8| (x as f32 + (y as f32 - x as f32) * t) as u8;
        let want = (mix(accent.0, border.0), mix(accent.1, border.1), mix(accent.2, border.2));
        assert_eq!(lerp(accent, border, i, n - 1), want, "cell {i}");
    }
}

#[test]
fn holo_colours_each_character() {
    let hues = vec![(1, 2, 3), (4, 5, 6)];
    assert_eq!(
        holo("ab", &hues),
        format!("{}{}", bold(&esc_fg("a", (1, 2, 3))), bold(&esc_fg("b", (4, 5, 6))))
    );
    assert_eq!(holo("", &vec![]), "");
}

#[test]
fn bar_fills_and_clamps() {
    let a = (240, 128, 48);
    let off = shade(a, 35);
    assert_eq!(bar(4, 6, a), format!("{}{}", esc_fg("▰▰▰▰", a), esc_fg("▱▱", off)));
    assert_eq!(bar(9, 3, a), format!("{}{}", esc_fg("▰▰▰", a), esc_fg("", off)));
    assert_eq!(vis_width(&bar(0, 12, a)), 12);
    assert_eq!(vis_width(&bar(5, 12, a)), 12);
}

#[test]
fn rarity() {
    assert!(!is_rare(None));
    assert!(!is_rare(Some("Common")));
    assert!(!is_rare(Some("Uncommon")));
    assert!(!is_rare(Some("None")));
    assert!(is_rare(Some("Rare Holo")));
    assert!(is_rare(Some("Double Rare")));
}

#[test]
fn rarity_badges() {
    assert_eq!(rarity_badge("Promo"), format!("{} {}", dim("Promo"), esc_fg("✦", GOLD)));
    assert_eq!(rarity_badge("Uncommon"), format!("{} {}", dim("Uncommon"), dim("◆")));
    assert_eq!(rarity_badge("Common"), format!("{} {}", dim("Common"), dim("●")));
    assert_eq!(rarity_badge("Hyper Rare"), format!("{} {}", dim("Hyper Rare"), float_holo("★★★")));
    assert_eq!(rarity_badge("Double Rare"), format!("{} {}", dim("Double Rare"), float_holo("★★")));
    assert_eq!(rarity_badge("Rare"), format!("{} {}", dim("Rare"), esc_fg("★", GOLD)));
    assert_eq!(rarity_badge("None"), format!("{} {}", dim("None"), dim("◇")));
}

#[test]
fn variants_in_fixed_order() {
    let all = Variant { first_edition: true, holo: true, normal: true, reverse: true, w_promo: true };
    assert_eq!(
        variant_badges(&all),
        [
            dim("normal"),
            esc_fg("reverse", (80, 200, 220)),
            esc_fg("holo", (240, 190, 60)),
            esc_fg("1st ed", (250, 230, 100)),
            esc_fg("W promo", (220, 100, 220)),
        ]
        .join("  ")
    );
    assert_eq!(variant_badges(&Variant::default()), "");
}

#[test]
fn legality() {
    assert_eq!(
        legal_badges(true, false),
        format!("{} {}  {} {}", dim("Standard"), esc_fg("✓", GREEN), dim("Expanded"), dim("✗"))
    );
}

#[test]
fn measured_columns_or_the_fallback() {
    assert_eq!(cols_from(Some(120), 100), 120);
    assert_eq!(cols_from(None, 100), 100);
}

#[test]
fn terminal_columns_fall_back() {
    let c = term_cols(100);
    assert!(c == 100 || (c > 0 && c <= u16::MAX as usize));
}

#[test]
fn visible_width_skips_escapes() {
    assert_eq!(vis_width("plain"), 5);
    assert_eq!(vis_width(&fg("Fire", (240, 128, 48))), 4);
    assert_eq!(vis_width(&bold(&dim("ab"))), 2);
    assert_eq!(vis_width("★ é"), 3);
    assert_eq!(vis_width(""), 0);
    assert_eq!(vis_width(&holo("abc", &vec![(1, 1, 1), (2, 2, 2), (3, 3, 3)])), 3);
}

#[test]
fn greedy_wrap() {
    assert_eq!(wrap("the quick brown fox", 9), vec!["the quick", "brown fox"]);
    assert_eq!(wrap("  a   b  ", 10), vec!["a b"]);
    assert_eq!(wrap("", 10), vec![""]);
    assert_eq!(wrap("supercalifragilistic is long", 5), vec!["supercalifragilistic", "is", "long"]);
    for line in wrap("one two three four five six seven", 10) {
        assert!(line.chars().count() <= 10);
    }
    assert_eq!(wrap("one two three four", 10).join(" "), "one two three four");
}

#[test]
fn wrapping_is_greedy() {
    let lines = wrap("aa bb cc dd e", 5);
    assert_eq!(lines, vec!["aa bb", "cc dd", "e"]);
    for pair in lines.windows(2) {
        let next_word = pair[1].split(' ').next().unwrap();
        assert!(pair[0].chars().count() + 1 + next_word.chars().count() > 5);
    }
    let words: Vec<&str> = lines.iter().flat_map(|l| l.split(' ')).collect();
    assert_eq!(words, vec!["aa", "bb", "cc", "dd", "e"]);
}
