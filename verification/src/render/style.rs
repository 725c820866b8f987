//! ANSI colour and text primitives — nothing in here knows what a card is.

use vstd::prelude::*;
use vstd::string::*;

use crate::tcgdex::card::Variant;
use crate::text::{
    ascii_lower, ascii_lower_vec, chars_eq, chars_of, contains, contains_str, dec, digit, join,
    join_strings, lemma_words_tail, push_dec, repeat, repeat_str, split_whitespace, str_eq,
    string_of, strs, words,
};

verus! {

pub type Rgb = (u8, u8, u8);

pub const GOLD: Rgb = (255, 200, 60);

pub const GREEN: Rgb = (90, 200, 120);

pub const TRAINER_RGB: Rgb = (120, 150, 190);

pub const ENERGY_RGB: Rgb = (190, 190, 190);

/// The accent colour of an energy type; a light grey for anything else.
pub open spec fn type_color(t: Seq<char>) -> Rgb {
    if t == "Grass"@ {
        (120, 200, 80)
    } else if t == "Fire"@ {
        (240, 128, 48)
    } else if t == "Water"@ {
        (104, 144, 240)
    } else if t == "Lightning"@ {
        (248, 208, 48)
    } else if t == "Psychic"@ {
        (248, 88, 136)
    } else if t == "Fighting"@ {
        (192, 48, 40)
    } else if t == "Darkness"@ {
        (112, 88, 72)
    } else if t == "Metal"@ {
        (184, 184, 208)
    } else if t == "Fairy"@ {
        (238, 153, 172)
    } else if t == "Dragon"@ {
        (112, 56, 248)
    } else {
        (200, 200, 200)
    }
}

pub fn type_rgb(t: &str) -> (r: Rgb)
    ensures
        r == type_color(t@),
{
    if str_eq(t, "Grass") {
        (120, 200, 80)
    } else if str_eq(t, "Fire") {
        (240, 128, 48)
    } else if str_eq(t, "Water") {
        (104, 144, 240)
    } else if str_eq(t, "Lightning") {
        (248, 208, 48)
    } else if str_eq(t, "Psychic") {
        (248, 88, 136)
    } else if str_eq(t, "Fighting") {
        (192, 48, 40)
    } else if str_eq(t, "Darkness") {
        (112, 88, 72)
    } else if str_eq(t, "Metal") {
        (184, 184, 208)
    } else if str_eq(t, "Fairy") {
        (238, 153, 172)
    } else if str_eq(t, "Dragon") {
        (112, 56, 248)
    } else {
        (200, 200, 200)
    }
}

// ── SGR wrappers ─────────────────────────────────────────────────────

/// `s` in the 24-bit foreground colour `c`, followed by the reset of the
/// foreground colour only (`39m`), so it composes inside bold and dim.
pub open spec fn fg_text(s: Seq<char>, c: Rgb) -> Seq<char> {
    "\x1b[38;2;"@ + dec(c.0 as nat) + ";"@ + dec(c.1 as nat) + ";"@ + dec(c.2 as nat) + "m"@ + s
        + "\x1b[39m"@
}

/// `s` in bold, followed by normal intensity (`22m`).
pub open spec fn bold_text(s: Seq<char>) -> Seq<char> {
    "\x1b[1m"@ + s + "\x1b[22m"@
}

/// `s` dimmed, followed by normal intensity (`22m`).
pub open spec fn dim_text(s: Seq<char>) -> Seq<char> {
    "\x1b[2m"@ + s + "\x1b[22m"@
}

/// `s` in italics, followed by the end of italics (`23m`).
pub open spec fn italic_text(s: Seq<char>) -> Seq<char> {
    "\x1b[3m"@ + s + "\x1b[23m"@
}

/// Foreground colour. Resets only the colour (`39m`), so it composes
/// inside `bold`/`dim` without cancelling them.
pub fn fg(s: &str, c: Rgb) -> (r: String)
    ensures
        r@ == fg_text(s@, c),
{
    let mut r = String::from_str("\x1b[38;2;");
    push_dec(&mut r, c.0 as u64);
    r.append(";");
    push_dec(&mut r, c.1 as u64);
    r.append(";");
    push_dec(&mut r, c.2 as u64);
    r.append("m");
    r.append(s);
    r.append("\x1b[39m");
    r
}

pub fn bold(s: &str) -> (r: String)
    ensures
        r@ == bold_text(s@),
{
    let mut r = String::from_str("\x1b[1m");
    r.append(s);
    r.append("\x1b[22m");
    r
}

pub fn dim(s: &str) -> (r: String)
    ensures
        r@ == dim_text(s@),
{
    let mut r = String::from_str("\x1b[2m");
    r.append(s);
    r.append("\x1b[22m");
    r
}

pub fn italic(s: &str) -> (r: String)
    ensures
        r@ == italic_text(s@),
{
    let mut r = String::from_str("\x1b[3m");
    r.append(s);
    r.append("\x1b[23m");
    r
}

// ── Colour maths ─────────────────────────────────────────────────────

/// A channel value, saturated to `0..=255` as a float-to-`u8` cast does.
pub open spec fn saturate(v: int) -> u8 {
    if v < 0 {
        0
    } else if v > 255 {
        255
    } else {
        v as u8
    }
}

/// Each channel scaled to `percent`/100, rounded down (and saturated).
pub open spec fn shaded(c: Rgb, percent: nat) -> Rgb {
    (
        saturate((c.0 as nat * percent / 100) as int),
        saturate((c.1 as nat * percent / 100) as int),
        saturate((c.2 as nat * percent / 100) as int),
    )
}

/// Shading at 0% gives black and at 100% leaves the colour unchanged.
pub proof fn lemma_shade_ends(c: Rgb)
    ensures
        shaded(c, 0) == (0u8, 0u8, 0u8),
        shaded(c, 100) == c,
{
}

fn scale_channel(x: u8, percent: u8) -> (r: u8)
    ensures
        r == saturate((x as nat * percent as nat / 100) as int),
{
    assert(x as nat * percent as nat <= 255 * 255) by (nonlinear_arith);
    let v = (x as u32 * percent as u32) / 100;
    if v > 255 {
        255
    } else {
        v as u8
    }
}

/// Multiply a colour by `percent`/100 (0 = black, 100 = unchanged).
pub fn shade(c: Rgb, percent: u8) -> (r: Rgb)
    ensures
        r == shaded(c, percent as nat),
{
    (scale_channel(c.0, percent), scale_channel(c.1, percent), scale_channel(c.2, percent))
}

/// The channel `num`/`den` of the way from `x` to `y` (beyond `y` when
/// `num > den`), rounded down and saturated.
pub open spec fn mix(x: u8, y: u8, num: nat, den: nat) -> u8 {
    saturate(x as int + ((y as int - x as int) * num as int) / den as int)
}

/// The colour `num`/`den` of the way from `a` to `b`, each channel rounded down.
pub open spec fn blend(a: Rgb, b: Rgb, num: nat, den: nat) -> Rgb {
    (mix(a.0, b.0, num, den), mix(a.1, b.1, num, den), mix(a.2, b.2, num, den))
}

/// A blend starts at `a` and ends at `b`: a divider fades from the
/// accent (its first cell) to the border (its last).
pub proof fn lemma_blend_ends(a: Rgb, b: Rgb, den: nat)
    requires
        den > 0,
    ensures
        blend(a, b, 0, den) == a,
        blend(a, b, den, den) == b,
{
    let d = den as int;
    assert forall|x: u8, y: u8| #[trigger] mix(x, y, 0, den) == x && mix(x, y, den, den) == y by {
        assert((y as int - x as int) * 0 == 0);
        assert(0int / d == 0);
        assert((y as int - x as int) * d == d * (y as int - x as int)) by (nonlinear_arith);
        vstd::arithmetic::div_mod::lemma_div_multiples_vanish(y as int - x as int, d);
    }
    assert(mix(a.0, b.0, 0, den) == a.0 && mix(a.0, b.0, den, den) == b.0);
    assert(mix(a.1, b.1, 0, den) == a.1 && mix(a.1, b.1, den, den) == b.1);
    assert(mix(a.2, b.2, 0, den) == a.2 && mix(a.2, b.2, den, den) == b.2);
}

proof fn lemma_floor_neg(d: int, num: int, den: int)
    requires
        0 <= d,
        0 <= num,
        0 < den,
    ensures
        (-(d * num)) / den == -((d * num + den - 1) / den),
{
    assert(d * num >= 0) by (nonlinear_arith)
        requires
            0 <= d,
            0 <= num,
    ;
    let p = d * num;
    let q = (p + den - 1) / den;
    let r = (p + den - 1) % den;
    vstd::arithmetic::div_mod::lemma_fundamental_div_mod(p + den - 1, den);
    vstd::arithmetic::div_mod::lemma_mod_bound(p + den - 1, den);
    // p + den - 1 == q * den + r with 0 <= r < den, so -p == -q * den + (den - 1 - r)
    assert(-p == (-q) * den + (den - 1 - r)) by (nonlinear_arith)
        requires
            p + den - 1 == den * q + r,
    ;
    vstd::arithmetic::div_mod::lemma_fundamental_div_mod_converse(-p, den, -q, den - 1 - r);
}

fn mix_channel(x: u8, y: u8, num: u64, den: u64) -> (r: u8)
    requires
        0 < den,
    ensures
        r == mix(x, y, num as nat, den as nat),
{
    let n: i128 = num as i128;
    let dn: i128 = den as i128;
    let q: i128 = if y >= x {
        let d: i128 = (y - x) as i128;
        assert(0 <= d * n <= 255 * 0xffff_ffff_ffff_ffff) by (nonlinear_arith)
            requires
                0 <= d <= 255,
                0 <= n <= 0xffff_ffff_ffff_ffff,
        ;
        proof {
            assert((y as int - x as int) * num as int == d * n);
        }
        d * n / dn
    } else {
        let d: i128 = (x - y) as i128;
        assert(0 <= d * n <= 255 * 0xffff_ffff_ffff_ffff) by (nonlinear_arith)
            requires
                0 <= d <= 255,
                0 <= n <= 0xffff_ffff_ffff_ffff,
        ;
        proof {
            lemma_floor_neg(d as int, n as int, dn as int);
            assert((y as int - x as int) * num as int == -(d * n)) by (nonlinear_arith)
                requires
                    d == x - y,
                    n == num,
            ;
        }
        -((d * n + dn - 1) / dn)
    };
    assert(q == ((y as int - x as int) * num as int) / den as int);
    let v: i128 = x as i128 + q;
    if v < 0 {
        0
    } else if v > 255 {
        255
    } else {
        v as u8
    }
}

/// The colour `num`/`den` of the way from `a` to `b`.
pub fn lerp(a: Rgb, b: Rgb, num: u64, den: u64) -> (r: Rgb)
    requires
        0 < den,
    ensures
        r == blend(a, b, num as nat, den as nat),
{
    (mix_channel(a.0, b.0, num, den), mix_channel(a.1, b.1, num, den), mix_channel(a.2, b.2, num, den))
}

// ── Flourishes ───────────────────────────────────────────────────────

/// Each character of `s` in bold and in its own colour from `hues`.
pub open spec fn holo_text(s: Seq<char>, hues: Seq<Rgb>) -> Seq<char>
    decreases s.len(),
{
    if s.len() == 0 || hues.len() == 0 {
        Seq::empty()
    } else {
        holo_text(s.drop_last(), hues.drop_last()) + bold_text(fg_text(seq![s.last()], hues.last()))
    }
}

/// Rainbow-foil text — each character gets its own hue, `hues[i]` for the
/// `i`-th character.
pub fn holo(s: &str, hues: &Vec<Rgb>) -> (r: String)
    requires
        hues@.len() == s@.len(),
    ensures
        r@ == holo_text(s@, hues@),
{
    let v = chars_of(s);
    let mut r = String::new();
    let mut i: usize = 0;
    while i < v.len()
        invariant
            i <= v.len(),
            v@ == s@,
            hues@.len() == v@.len(),
            r@ == holo_text(v@.subrange(0, i as int), hues@.subrange(0, i as int)),
        decreases v.len() - i,
    {
        let one = string_of(&vec![v[i]]);
        let colored = fg(one.as_str(), hues[i]);
        let b = bold(colored.as_str());
        r.append(b.as_str());
        i = i + 1;
        let ghost sp = v@.subrange(0, i as int);
        let ghost hp = hues@.subrange(0, i as int);
        assert(sp.drop_last() =~= v@.subrange(0, i - 1));
        assert(hp.drop_last() =~= hues@.subrange(0, i - 1));
        assert(one@ =~= seq![sp.last()]);
    }
    assert(v@.subrange(0, v.len() as int) =~= v@);
    assert(hues@.subrange(0, v.len() as int) =~= hues@);
    r
}

/// Rainbow text is as wide as the text: one column per character, each in
/// its own colour.
pub proof fn lemma_holo_width(s: Seq<char>, hues: Seq<Rgb>)
    requires
        hues.len() == s.len(),
        forall|i: int| 0 <= i < s.len() ==> s[i] != '\x1b',
    ensures
        visible(holo_text(s, hues)) == s.len(),
        escapes_closed(holo_text(s, hues)),
    decreases s.len(),
{
    if s.len() > 0 {
        let c = seq![s.last()];
        lemma_holo_width(s.drop_last(), hues.drop_last());
        lemma_plain_width(c);
        lemma_style_width(c, hues.last());
        lemma_style_width(fg_text(c, hues.last()), hues.last());
        lemma_visible_concat(
            holo_text(s.drop_last(), hues.drop_last()),
            bold_text(fg_text(c, hues.last())),
        );
    } else {
        assert(holo_text(s, hues) =~= Seq::<char>::empty());
    }
}

/// `▰▰▰▰▱▱`: `filled` (at most `cells`) filled cells in the accent, the
/// rest empty in the accent at 35%.
pub open spec fn bar_text(filled: nat, cells: nat, accent: Rgb) -> Seq<char> {
    let f = if filled <= cells { filled } else { cells };
    fg_text(repeat("▰"@, f), accent) + fg_text(repeat("▱"@, (cells - f) as nat), shaded(accent, 35))
}

/// `▰▰▰▰▱▱` — `filled` out of `cells`.
pub fn bar(filled: usize, cells: usize, accent: Rgb) -> (r: String)
    ensures
        r@ == bar_text(filled as nat, cells as nat, accent),
{
    let f = if filled <= cells {
        filled
    } else {
        cells
    };
    let on = repeat_str("▰", f);
    let off = repeat_str("▱", cells - f);
    let mut r = fg(on.as_str(), accent);
    let rest = fg(off.as_str(), shade(accent, 35));
    r.append(rest.as_str());
    r
}

/// Rare means: given, and its lower case neither contains "common" nor is "none".
pub open spec fn rare(rarity: Option<Seq<char>>) -> bool {
    match rarity {
        None => false,
        Some(r) => !(contains(ascii_lower(r), "common"@) || ascii_lower(r) == "none"@),
    }
}

pub fn is_rare(rarity: Option<&str>) -> (b: bool)
    ensures
        b == rare(
            match rarity {
                Some(r) => Some(r@),
                None => None,
            },
        ),
{
    match rarity {
        None => false,
        Some(r) => {
            let l = ascii_lower_vec(r);
            !(contains_str(&l, "common") || chars_eq(&l, &chars_of("none")))
        },
    }
}

/// The rainbow hues of a three-star glyph.
pub open spec fn three_star_hues() -> Seq<Rgb> {
    seq![(255u8, 114u8, 114u8), (161u8, 255u8, 114u8), (114u8, 208u8, 255u8)]
}

/// The rainbow hues of a two-star glyph.
pub open spec fn two_star_hues() -> Seq<Rgb> {
    seq![(255u8, 114u8, 114u8), (114u8, 255u8, 184u8)]
}

/// The glyph that goes with a lower-cased rarity name.
pub open spec fn rarity_glyph(l: Seq<char>) -> Seq<char> {
    if contains(l, "promo"@) {
        fg_text("✦"@, GOLD)
    } else if contains(l, "uncommon"@) {
        dim_text("◆"@)
    } else if contains(l, "common"@) {
        dim_text("●"@)
    } else if contains(l, "hyper"@) || contains(l, "rainbow"@) || contains(l, "secret"@)
        || contains(l, "gold"@) {
        holo_text("★★★"@, three_star_hues())
    } else if contains(l, "ultra"@) || contains(l, "special"@) || contains(l, "illustration"@)
        || contains(l, "double"@) {
        holo_text("★★"@, two_star_hues())
    } else if contains(l, "rare"@) || contains(l, "holo"@) {
        fg_text("★"@, GOLD)
    } else {
        dim_text("◇"@)
    }
}

/// The rarity name dimmed, a space, and its glyph.
pub open spec fn rarity_badge_text(rarity: Seq<char>) -> Seq<char> {
    dim_text(rarity) + " "@ + rarity_glyph(ascii_lower(rarity))
}

fn glyph_for(l: &Vec<char>) -> (r: String)
    ensures
        r@ == rarity_glyph(l@),
{
    if contains_str(l, "promo") {
        fg("✦", GOLD)
    } else if contains_str(l, "uncommon") {
        dim("◆")
    } else if contains_str(l, "common") {
        dim("●")
    } else if contains_str(l, "hyper") || contains_str(l, "rainbow") || contains_str(l, "secret")
        || contains_str(l, "gold") {
        let hues: Vec<Rgb> = vec![(255u8, 114u8, 114u8), (161u8, 255u8, 114u8), (114u8, 208u8, 255u8)];
        proof {
            reveal_strlit("★★★");
            assert(hues@ =~= three_star_hues());
        }
        holo("★★★", &hues)
    } else if contains_str(l, "ultra") || contains_str(l, "special") || contains_str(
        l,
        "illustration",
    ) || contains_str(l, "double") {
        let hues: Vec<Rgb> = vec![(255u8, 114u8, 114u8), (114u8, 255u8, 184u8)];
        proof {
            reveal_strlit("★★");
            assert(hues@ =~= two_star_hues());
        }
        holo("★★", &hues)
    } else if contains_str(l, "rare") || contains_str(l, "holo") {
        fg("★", GOLD)
    } else {
        dim("◇")
    }
}

/// "Double Rare ★★" — rarity name plus a glyph that scales with it.
pub fn rarity_badge(rarity: &str) -> (r: String)
    ensures
        r@ == rarity_badge_text(rarity@),
{
    let l = ascii_lower_vec(rarity);
    let glyph = glyph_for(&l);
    let mut r = dim(rarity);
    r.append(" ");
    r.append(glyph.as_str());
    r
}

/// The badges of the variants a card exists in, in a fixed order.
pub open spec fn variant_parts(v: Variant) -> Seq<Seq<char>> {
    let a = if v.normal {
        seq![dim_text("normal"@)]
    } else {
        Seq::empty()
    };
    let b = if v.reverse {
        a.push(fg_text("reverse"@, (80, 200, 220)))
    } else {
        a
    };
    let c = if v.holo {
        b.push(fg_text("holo"@, (240, 190, 60)))
    } else {
        b
    };
    let d = if v.first_edition {
        c.push(fg_text("1st ed"@, (250, 230, 100)))
    } else {
        c
    };
    if v.w_promo {
        d.push(fg_text("W promo"@, (220, 100, 220)))
    } else {
        d
    }
}

pub fn variant_badges(v: &Variant) -> (r: String)
    ensures
        r@ == join(variant_parts(*v), "  "@),
{
    let mut out: Vec<String> = Vec::new();
    if v.normal {
        out.push(dim("normal"));
    }
    if v.reverse {
        out.push(fg("reverse", (80, 200, 220)));
    }
    if v.holo {
        out.push(fg("holo", (240, 190, 60)));
    }
    if v.first_edition {
        out.push(fg("1st ed", (250, 230, 100)));
    }
    if v.w_promo {
        out.push(fg("W promo", (220, 100, 220)));
    }
    assert(strs(out@) =~= variant_parts(*v));
    join_strings(&out, "  ")
}

/// A green tick for yes, a dimmed cross for no.
pub open spec fn tick(ok: bool) -> Seq<char> {
    if ok {
        fg_text("✓"@, GREEN)
    } else {
        dim_text("✗"@)
    }
}

/// "Standard ✓  Expanded ✗"
pub open spec fn legal_text(standard: bool, expanded: bool) -> Seq<char> {
    dim_text("Standard"@) + " "@ + tick(standard) + "  "@ + dim_text("Expanded"@) + " "@ + tick(
        expanded,
    )
}

fn tick_exec(ok: bool) -> (r: String)
    ensures
        r@ == tick(ok),
{
    if ok {
        fg("✓", GREEN)
    } else {
        dim("✗")
    }
}

/// "Standard ✓  Expanded ✗"
pub fn legal_badges(standard: bool, expanded: bool) -> (r: String)
    ensures
        r@ == legal_text(standard, expanded),
{
    let mut r = dim("Standard");
    r.append(" ");
    r.append(tick_exec(standard).as_str());
    r.append("  ");
    r.append(dim("Expanded").as_str());
    r.append(" ");
    r.append(tick_exec(expanded).as_str());
    r
}

// ── Text measurement ─────────────────────────────────────────────────

/// `terminal_size::terminal_size`: the width of the first of stdout,
/// stderr and stdin that is a terminal. The answer depends on the process's
/// environment, so nothing is stated of it beyond what the crate checks:
/// a reported width is never zero.
#[verifier::external_body]
fn terminal_width() -> (r: Option<u16>)
    ensures
        r matches Some(w) ==> w > 0,
{
    terminal_size::terminal_size().map(|(terminal_size::Width(w), _)| w)
}

/// The columns that `term_cols` reports for a measured terminal width.
pub open spec fn cols_or(measured: Option<u16>, fallback: usize) -> usize {
    match measured {
        Some(w) => w as usize,
        None => fallback,
    }
}

/// The columns for a measured terminal width, or `fallback` when there
/// is none.
pub fn cols_from(measured: Option<u16>, fallback: usize) -> (r: usize)
    ensures
        r == cols_or(measured, fallback),
{
    match measured {
        Some(w) => w as usize,
        None => fallback,
    }
}

/// Terminal width in columns, or `fallback` when it can't be read
/// (piped output, tests).
pub fn term_cols(fallback: usize) -> (r: usize)
    ensures
        exists|m: Option<u16>| (m matches Some(w) ==> w > 0) && r == cols_or(m, fallback),
        r == fallback || (0 < r <= u16::MAX),
{
    let w = terminal_width();
    cols_from(w, fallback)
}

pub open spec fn is_ascii_alpha(c: char) -> bool {
    ('a' <= c && c <= 'z') || ('A' <= c && c <= 'Z')
}

/// Scans `s` tracking whether an escape sequence is open: the number of
/// visible characters so far and the escape state. An escape opens at
/// ESC and closes at the next ASCII letter; nothing in between is visible.
pub open spec fn vis_scan(s: Seq<char>) -> (nat, bool)
    decreases s.len(),
{
    if s.len() == 0 {
        (0, false)
    } else {
        let (w, esc) = vis_scan(s.drop_last());
        let c = s.last();
        if esc {
            (w, !is_ascii_alpha(c))
        } else if c == '\x1b' {
            (w, true)
        } else {
            (w + 1, false)
        }
    }
}

/// On-screen width of `s`.
pub open spec fn visible(s: Seq<char>) -> nat {
    vis_scan(s).0
}

proof fn lemma_vis_scan_bound(s: Seq<char>)
    ensures
        vis_scan(s).0 <= s.len(),
    decreases s.len(),
{
    if s.len() > 0 {
        lemma_vis_scan_bound(s.drop_last());
    }
}

/// On-screen width, ignoring ANSI escape sequences.
pub fn vis_width(s: &str) -> (r: usize)
    ensures
        r == visible(s@),
{
    let v = chars_of(s);
    let mut width: usize = 0;
    let mut in_escape = false;
    let mut i: usize = 0;
    while i < v.len()
        invariant
            i <= v.len(),
            v@ == s@,
            (width as nat, in_escape) == vis_scan(v@.subrange(0, i as int)),
        decreases v.len() - i,
    {
        proof {
            lemma_vis_scan_bound(v@.subrange(0, i as int));
        }
        let ch = v[i];
        if in_escape {
            if ('a' <= ch && ch <= 'z') || ('A' <= ch && ch <= 'Z') {
                in_escape = false;
            }
        } else if ch == '\x1b' {
            in_escape = true;
        } else {
            width = width + 1;
        }
        i = i + 1;
        assert(v@.subrange(0, i as int).drop_last() =~= v@.subrange(0, i - 1));
    }
    assert(v@.subrange(0, v.len() as int) =~= v@);
    width
}

// ── Width laws ───────────────────────────────────────────────────────

/// Every escape sequence opened in `s` has been closed by its letter.
pub open spec fn escapes_closed(s: Seq<char>) -> bool {
    !vis_scan(s).1
}

/// Widths add up across a cut where no escape sequence is open.
pub proof fn lemma_visible_concat(a: Seq<char>, b: Seq<char>)
    requires
        escapes_closed(a),
    ensures
        visible(a + b) == visible(a) + visible(b),
        escapes_closed(a + b) == escapes_closed(b),
    decreases b.len(),
{
    if b.len() == 0 {
        assert(a + b =~= a);
    } else {
        lemma_visible_concat(a, b.drop_last());
        assert((a + b).drop_last() =~= a + b.drop_last());
        assert((a + b).last() == b.last());
    }
}

/// Text without an escape character is as wide as it is long.
pub proof fn lemma_plain_width(s: Seq<char>)
    requires
        forall|i: int| 0 <= i < s.len() ==> s[i] != '\x1b',
    ensures
        visible(s) == s.len(),
        escapes_closed(s),
    decreases s.len(),
{
    if s.len() > 0 {
        lemma_plain_width(s.drop_last());
    }
}

proof fn lemma_escape_open(mid: Seq<char>)
    requires
        forall|i: int| 0 <= i < mid.len() ==> !is_ascii_alpha(#[trigger] mid[i]),
    ensures
        vis_scan(seq!['\x1b'] + mid) == (0nat, true),
    decreases mid.len(),
{
    let t = seq!['\x1b'] + mid;
    if mid.len() == 0 {
        assert(t.drop_last() =~= Seq::<char>::empty());
        assert(vis_scan(t.drop_last()) == (0nat, false));
        assert(t.last() == '\x1b');
    } else {
        lemma_escape_open(mid.drop_last());
        assert(t.drop_last() =~= seq!['\x1b'] + mid.drop_last());
        assert(t.last() == mid[mid.len() - 1]);
        assert(!is_ascii_alpha(mid[mid.len() - 1]));
    }
}

/// An escape sequence (ESC, non-letters, a closing letter) takes no width.
pub proof fn lemma_escape(mid: Seq<char>, end: char)
    requires
        forall|i: int| 0 <= i < mid.len() ==> !is_ascii_alpha(#[trigger] mid[i]),
        is_ascii_alpha(end),
    ensures
        vis_scan(seq!['\x1b'] + mid + seq![end]) == (0nat, false),
{
    lemma_escape_open(mid);
    assert((seq!['\x1b'] + mid + seq![end]).drop_last() =~= seq!['\x1b'] + mid);
}

pub proof fn lemma_dec_digits(n: nat)
    ensures
        forall|i: int| 0 <= i < dec(n).len() ==> '0' <= #[trigger] dec(n)[i] <= '9',
    decreases n,
{
    let d = (n % 10) as nat;
    assert(48 <= 48 + d <= 57);
    assert('0' <= digit(d) <= '9');
    if n >= 10 {
        lemma_dec_digits(n / 10);
        assert forall|i: int| 0 <= i < dec(n).len() implies '0' <= #[trigger] dec(n)[i] <= '9' by {
            if i < dec(n / 10).len() {
                assert(dec(n)[i] == dec(n / 10)[i]);
            }
        }
    }
}

/// The colour-setting prefix of `fg_text` takes no width.
pub proof fn lemma_fg_prefix(c: Rgb)
    ensures
        vis_scan(
            "\x1b[38;2;"@ + dec(c.0 as nat) + ";"@ + dec(c.1 as nat) + ";"@ + dec(c.2 as nat) + "m"@,
        ) == (0nat, false),
{
    reveal_strlit("\x1b[38;2;");
    reveal_strlit(";");
    reveal_strlit("m");
    lemma_dec_digits(c.0 as nat);
    lemma_dec_digits(c.1 as nat);
    lemma_dec_digits(c.2 as nat);
    let mid = seq!['[', '3', '8', ';', '2', ';'] + dec(c.0 as nat) + seq![';'] + dec(c.1 as nat)
        + seq![';'] + dec(c.2 as nat);
    assert forall|i: int| 0 <= i < mid.len() implies !is_ascii_alpha(#[trigger] mid[i]) by {
        let a = dec(c.0 as nat).len();
        let b = dec(c.1 as nat).len();
        if 6 <= i < 6 + a {
            assert(mid[i] == dec(c.0 as nat)[i - 6]);
        } else if 7 + a <= i < 7 + a + b {
            assert(mid[i] == dec(c.1 as nat)[i - 7 - a]);
        } else if 8 + a + b <= i {
            assert(mid[i] == dec(c.2 as nat)[i - 8 - a - b]);
        }
    }
    lemma_escape(mid, 'm');
    assert("\x1b[38;2;"@ + dec(c.0 as nat) + ";"@ + dec(c.1 as nat) + ";"@ + dec(c.2 as nat) + "m"@
        =~= seq!['\x1b'] + mid + seq!['m']);
}

/// A fixed escape sequence `ESC [ <digits> m` takes no width.
pub proof fn lemma_sgr(code: Seq<char>)
    requires
        forall|i: int| 0 <= i < code.len() ==> '0' <= #[trigger] code[i] <= '9',
    ensures
        vis_scan(seq!['\x1b', '['] + code + seq!['m']) == (0nat, false),
{
    let mid = seq!['['] + code;
    assert forall|i: int| 0 <= i < mid.len() implies !is_ascii_alpha(#[trigger] mid[i]) by {
        if i > 0 {
            assert(mid[i] == code[i - 1]);
        }
    }
    lemma_escape(mid, 'm');
    assert(seq!['\x1b', '['] + code + seq!['m'] =~= seq!['\x1b'] + mid + seq!['m']);
}

/// Colouring, bold, dim and italics add escape sequences only: the text
/// keeps its on-screen width, and no escape is left open.
pub proof fn lemma_style_width(s: Seq<char>, c: Rgb)
    requires
        escapes_closed(s),
    ensures
        visible(fg_text(s, c)) == visible(s),
        escapes_closed(fg_text(s, c)),
        visible(bold_text(s)) == visible(s),
        escapes_closed(bold_text(s)),
        visible(dim_text(s)) == visible(s),
        escapes_closed(dim_text(s)),
        visible(italic_text(s)) == visible(s),
        escapes_closed(italic_text(s)),
{
    reveal_strlit("\x1b[39m");
    reveal_strlit("\x1b[1m");
    reveal_strlit("\x1b[2m");
    reveal_strlit("\x1b[3m");
    reveal_strlit("\x1b[22m");
    reveal_strlit("\x1b[23m");
    lemma_sgr(seq!['3', '9']);
    lemma_sgr(seq!['1']);
    lemma_sgr(seq!['2']);
    lemma_sgr(seq!['3']);
    lemma_sgr(seq!['2', '2']);
    lemma_sgr(seq!['2', '3']);
    assert("\x1b[39m"@ =~= seq!['\x1b', '['] + seq!['3', '9'] + seq!['m']);
    assert("\x1b[1m"@ =~= seq!['\x1b', '['] + seq!['1'] + seq!['m']);
    assert("\x1b[2m"@ =~= seq!['\x1b', '['] + seq!['2'] + seq!['m']);
    assert("\x1b[3m"@ =~= seq!['\x1b', '['] + seq!['3'] + seq!['m']);
    assert("\x1b[22m"@ =~= seq!['\x1b', '['] + seq!['2', '2'] + seq!['m']);
    assert("\x1b[23m"@ =~= seq!['\x1b', '['] + seq!['2', '3'] + seq!['m']);
    let p = "\x1b[38;2;"@ + dec(c.0 as nat) + ";"@ + dec(c.1 as nat) + ";"@ + dec(c.2 as nat) + "m"@;
    lemma_fg_prefix(c);
    lemma_visible_concat(p, s);
    lemma_visible_concat(p + s, "\x1b[39m"@);
    lemma_visible_concat("\x1b[1m"@, s);
    lemma_visible_concat("\x1b[1m"@ + s, "\x1b[22m"@);
    lemma_visible_concat("\x1b[2m"@, s);
    lemma_visible_concat("\x1b[2m"@ + s, "\x1b[22m"@);
    lemma_visible_concat("\x1b[3m"@, s);
    lemma_visible_concat("\x1b[3m"@ + s, "\x1b[23m"@);
}

/// `s` repeated `n` times is `n` times as wide.
pub proof fn lemma_repeat_width(s: Seq<char>, n: nat)
    requires
        escapes_closed(s),
    ensures
        visible(repeat(s, n)) == n * visible(s),
        escapes_closed(repeat(s, n)),
    decreases n,
{
    if n == 0 {
        assert(repeat(s, 0) =~= Seq::<char>::empty());
    } else {
        let m = (n - 1) as nat;
        lemma_repeat_width(s, m);
        lemma_visible_concat(repeat(s, m), s);
        assert(m * visible(s) + visible(s) == n * visible(s)) by (nonlinear_arith)
            requires
                m + 1 == n,
        ;
    }
}

/// A bar is always `cells` columns wide, however many are filled.
pub proof fn lemma_bar_width(filled: nat, cells: nat, accent: Rgb)
    ensures
        visible(bar_text(filled, cells, accent)) == cells,
        escapes_closed(bar_text(filled, cells, accent)),
{
    reveal_strlit("▰");
    reveal_strlit("▱");
    lemma_plain_width("▰"@);
    lemma_plain_width("▱"@);
    let f = if filled <= cells {
        filled
    } else {
        cells
    };
    let on = repeat("▰"@, f);
    let off = repeat("▱"@, (cells - f) as nat);
    lemma_repeat_width("▰"@, f);
    lemma_repeat_width("▱"@, (cells - f) as nat);
    lemma_style_width(on, accent);
    lemma_style_width(off, shaded(accent, 35));
    lemma_visible_concat(fg_text(on, accent), fg_text(off, shaded(accent, 35)));
}

/// One step of the greedy wrap: `w` joins the last line after a space,
/// or starts a new line when the last line is not empty and would grow
/// past `width`.
pub open spec fn wrap_step(lines: Seq<Seq<char>>, w: Seq<char>, width: nat) -> Seq<Seq<char>> {
    let cur = lines.last();
    if cur.len() > 0 && cur.len() + 1 + w.len() > width {
        lines.push(w)
    } else if cur.len() == 0 {
        lines.update(lines.len() - 1, w)
    } else {
        lines.update(lines.len() - 1, cur + seq![' '] + w)
    }
}

/// The words laid out greedily in lines of at most `width` characters
/// (a single longer word gets a line of its own); always at least one line.
pub open spec fn wrap_words(ws: Seq<Seq<char>>, width: nat) -> Seq<Seq<char>>
    decreases ws.len(),
{
    if ws.len() == 0 {
        seq![Seq::empty()]
    } else {
        wrap_step(wrap_words(ws.drop_last(), width), ws.last(), width)
    }
}

/// The lines of `s` word-wrapped to `width`.
pub open spec fn wrapped(s: Seq<char>, width: nat) -> Seq<Seq<char>> {
    wrap_words(words(s), width)
}

proof fn lemma_join_push(ws: Seq<Seq<char>>, sep: Seq<char>, w: Seq<char>)
    requires
        ws.len() >= 1,
    ensures
        join(ws.push(w), sep) == join(ws, sep) + sep + w,
{
    assert(ws.push(w).drop_last() =~= ws);
}

proof fn lemma_join_extend_last(ls: Seq<Seq<char>>, sep: Seq<char>, w: Seq<char>)
    requires
        ls.len() >= 1,
    ensures
        join(ls.update(ls.len() - 1, ls.last() + sep + w), sep) == join(ls, sep) + sep + w,
{
    let nl = ls.update(ls.len() - 1, ls.last() + sep + w);
    if ls.len() == 1 {
        assert(nl[0] == ls[0] + sep + w);
    } else {
        assert(nl.drop_last() =~= ls.drop_last());
        assert(join(nl, sep) =~= join(ls, sep) + sep + w);
    }
}

proof fn lemma_wrap_words_facts(ws: Seq<Seq<char>>, width: nat)
    requires
        forall|k: int| 0 <= k < ws.len() ==> #[trigger] ws[k].len() > 0,
    ensures
        wrap_words(ws, width).len() >= 1,
        (wrap_words(ws, width).last().len() == 0) == (ws.len() == 0),
        join(wrap_words(ws, width), seq![' ']) == join(ws, seq![' ']),
        (forall|k: int| 0 <= k < ws.len() ==> #[trigger] ws[k].len() <= width) ==> forall|i: int|
            0 <= i < wrap_words(ws, width).len() ==> #[trigger] wrap_words(ws, width)[i].len()
                <= width,
    decreases ws.len(),
{
    if ws.len() == 0 {
        assert(wrap_words(ws, width) =~= seq![Seq::<char>::empty()]);
    } else {
        let pre = ws.drop_last();
        let w = ws.last();
        assert(w.len() > 0);
        lemma_wrap_words_facts(pre, width);
        let ls = wrap_words(pre, width);
        let cur = ls.last();
        let sp = seq![' '];
        if cur.len() > 0 && cur.len() + 1 + w.len() > width {
            lemma_join_push(ls, sp, w);
            lemma_join_push(pre, sp, w);
            assert(pre.push(w) =~= ws);
            if forall|k: int| 0 <= k < ws.len() ==> #[trigger] ws[k].len() <= width {
                assert(ws[ws.len() - 1].len() <= width);
                assert forall|k: int| 0 <= k < pre.len() implies #[trigger] pre[k].len() <= width by {
                    assert(pre[k] == ws[k]);
                }
            }
        } else if cur.len() == 0 {
            assert(pre.len() == 0);
            assert(ls =~= seq![Seq::<char>::empty()]);
            assert(ws =~= seq![w]);
            assert(wrap_words(ws, width) =~= seq![w]);
            if forall|k: int| 0 <= k < ws.len() ==> #[trigger] ws[k].len() <= width {
                assert(ws[0].len() <= width);
            }
        } else {
            lemma_join_extend_last(ls, sp, w);
            lemma_join_push(pre, sp, w);
            assert(pre.push(w) =~= ws);
            assert(ls.last() + sp + w =~= cur + seq![' '] + w);
            if forall|k: int| 0 <= k < ws.len() ==> #[trigger] ws[k].len() <= width {
                assert forall|k: int| 0 <= k < pre.len() implies #[trigger] pre[k].len() <= width by {
                    assert(pre[k] == ws[k]);
                }
            }
        }
    }
}

/// Wrapping gives at least one line, never makes a line wider than
/// `width` when no single word is, and loses nothing: the lines joined
/// with single spaces are the words joined with single spaces.
pub proof fn lemma_wrap_law(s: Seq<char>, width: nat)
    ensures
        wrapped(s, width).len() >= 1,
        join(wrapped(s, width), seq![' ']) == join(words(s), seq![' ']),
        (forall|k: int| 0 <= k < words(s).len() ==> #[trigger] words(s)[k].len() <= width)
            ==> forall|i: int|
            0 <= i < wrapped(s, width).len() ==> #[trigger] wrapped(s, width)[i].len() <= width,
{
    lemma_words_tail(s);
    lemma_wrap_words_facts(words(s), width);
}

/// Where the lines of `wrap_words(ws, width)` start and end in `ws`: line
/// `i` holds the words from `b[i]` up to (not including) `b[i + 1]`.
pub open spec fn wrap_bounds(ws: Seq<Seq<char>>, width: nat) -> Seq<int>
    decreases ws.len(),
{
    if ws.len() == 0 {
        seq![0int, 0int]
    } else {
        let b = wrap_bounds(ws.drop_last(), width);
        let cur = wrap_words(ws.drop_last(), width).last();
        let w = ws.last();
        if cur.len() > 0 && cur.len() + 1 + w.len() > width {
            b.push(ws.len() as int)
        } else {
            b.update(b.len() - 1, ws.len() as int)
        }
    }
}

/// The shape of a greedy wrap: the bounds cut the words into the lines,
/// each line its words joined by single spaces, no line empty unless
/// there are no words; a line of two or more words fits in `width`; and
/// no line could have taken the first word of the next.
pub open spec fn greedy_wrap(ws: Seq<Seq<char>>, ls: Seq<Seq<char>>, b: Seq<int>, width: nat) -> bool {
    &&& b.len() == ls.len() + 1
    &&& b[0] == 0
    &&& b[ls.len() as int] == ws.len()
    &&& forall|i: int| 0 <= i <= ls.len() ==> 0 <= #[trigger] b[i] <= ws.len()
    &&& forall|i: int| 0 <= i < ls.len() ==> #[trigger] b[i] <= b[i + 1]
    &&& ws.len() > 0 ==> forall|i: int| 0 <= i < ls.len() ==> #[trigger] b[i] < b[i + 1]
    &&& forall|i: int|
        0 <= i < ls.len() ==> #[trigger] ls[i] == join(ws.subrange(b[i], b[i + 1]), seq![' '])
    &&& forall|i: int| 0 <= i < ls.len() && b[i + 1] - b[i] >= 2 ==> #[trigger] ls[i].len() <= width
    &&& forall|i: int|
        0 <= i < ls.len() - 1 ==> #[trigger] ls[i].len() + 1 + ws[b[i + 1]].len() > width
}

proof fn lemma_subrange_push(pre: Seq<Seq<char>>, w: Seq<char>)
    ensures
        forall|x: int, y: int|
            0 <= x <= y <= pre.len() ==> #[trigger] pre.push(w).subrange(x, y) == pre.subrange(x, y),
        forall|x: int| 0 <= x < pre.len() ==> #[trigger] pre.push(w)[x] == pre[x],
{
    assert forall|x: int, y: int| 0 <= x <= y <= pre.len() implies #[trigger] pre.push(w).subrange(
        x,
        y,
    ) == pre.subrange(x, y) by {
        assert(pre.push(w).subrange(x, y) =~= pre.subrange(x, y));
    }
}

#[verifier::spinoff_prover]
proof fn lemma_greedy_new_line(
    pre: Seq<Seq<char>>,
    w: Seq<char>,
    l0: Seq<Seq<char>>,
    b0: Seq<int>,
    width: nat,
)
    requires
        greedy_wrap(pre, l0, b0, width),
        pre.len() > 0,
        l0.len() >= 1,
        l0.last().len() + 1 + w.len() > width,
    ensures
        greedy_wrap(pre.push(w), l0.push(w), b0.push(pre.len() + 1int), width),
{
    let ws = pre.push(w);
    let ls = l0.push(w);
    let b = b0.push(pre.len() + 1int);
    let n = pre.len() as int;
    lemma_subrange_push(pre, w);
    assert(ws.subrange(n, n + 1) =~= seq![w]);
    assert(b[l0.len() as int] == n);
    assert forall|i: int| 0 <= i < ls.len() implies #[trigger] ls[i] == join(
        ws.subrange(b[i], b[i + 1]),
        seq![' '],
    ) by {
        if i < l0.len() {
            assert(ls[i] == l0[i]);
            assert(b[i] == b0[i] && b[i + 1] == b0[i + 1]);
        }
    }
    assert forall|i: int| 0 <= i < ls.len() - 1 implies #[trigger] ls[i].len() + 1 + ws[b[i
        + 1]].len() > width by {
        assert(ls[i] == l0[i]);
        if i < l0.len() - 1 {
            assert(b[i + 1] == b0[i + 1]);
            assert(ws[b0[i + 1]] == pre[b0[i + 1]]);
        } else {
            assert(ws[n] == w);
        }
    }
    assert forall|i: int| 0 <= i <= ls.len() implies 0 <= #[trigger] b[i] <= ws.len() by {
        if i < b0.len() {
            assert(b[i] == b0[i]);
        }
    }
    assert forall|i: int| 0 <= i < ls.len() implies #[trigger] b[i] < b[i + 1] by {
        if i < l0.len() {
            assert(b[i] == b0[i]);
        }
    }
    assert forall|i: int| 0 <= i < ls.len() && b[i + 1] - b[i] >= 2 implies #[trigger] ls[
        i].len() <= width by {
        assert(i < l0.len());
        assert(ls[i] == l0[i]);
        assert(b[i] == b0[i] && b[i + 1] == b0[i + 1]);
    }
}

#[verifier::spinoff_prover]
proof fn lemma_greedy_extend(
    pre: Seq<Seq<char>>,
    w: Seq<char>,
    l0: Seq<Seq<char>>,
    b0: Seq<int>,
    width: nat,
)
    requires
        greedy_wrap(pre, l0, b0, width),
        pre.len() > 0,
        l0.len() >= 1,
        l0.last().len() + 1 + w.len() <= width,
    ensures
        greedy_wrap(
            pre.push(w),
            l0.update(l0.len() - 1, l0.last() + seq![' '] + w),
            b0.update(l0.len() as int, pre.len() + 1int),
            width,
        ),
{
    let sp = seq![' '];
    let ws = pre.push(w);
    let k = l0.len() - 1;
    let ls = l0.update(k, l0.last() + sp + w);
    let b = b0.update(k + 1, pre.len() + 1int);
    let n = pre.len() as int;
    lemma_subrange_push(pre, w);
    assert(b0[k + 1] == n);
    assert(b0[k] < n);
    let part = pre.subrange(b0[k], n);
    assert(l0[k] == join(part, sp));
    lemma_join_push(part, sp, w);
    assert(ws.subrange(b0[k], n + 1) =~= part.push(w));
    assert forall|i: int| 0 <= i < ls.len() implies #[trigger] ls[i] == join(
        ws.subrange(b[i], b[i + 1]),
        sp,
    ) by {
        if i < k {
            assert(ls[i] == l0[i]);
            assert(b[i] == b0[i] && b[i + 1] == b0[i + 1]);
        }
    }
    assert forall|i: int| 0 <= i < ls.len() - 1 implies #[trigger] ls[i].len() + 1 + ws[b[i
        + 1]].len() > width by {
        assert(ls[i] == l0[i]);
        assert(b[i + 1] == b0[i + 1]);
        assert(ws[b0[i + 1]] == pre[b0[i + 1]]);
    }
    assert forall|i: int| 0 <= i <= ls.len() implies 0 <= #[trigger] b[i] <= ws.len() by {
        if i <= k {
            assert(b[i] == b0[i]);
        }
    }
    assert forall|i: int| 0 <= i < ls.len() implies #[trigger] b[i] < b[i + 1] by {
        if i < k {
            assert(b[i] == b0[i] && b[i + 1] == b0[i + 1]);
        }
    }
    assert forall|i: int| 0 <= i < ls.len() && b[i + 1] - b[i] >= 2 implies #[trigger] ls[
        i].len() <= width by {
        if i < k {
            assert(ls[i] == l0[i]);
            assert(b[i] == b0[i] && b[i + 1] == b0[i + 1]);
        }
    }
}

proof fn lemma_greedy(ws: Seq<Seq<char>>, width: nat)
    requires
        forall|k: int| 0 <= k < ws.len() ==> #[trigger] ws[k].len() > 0,
    ensures
        greedy_wrap(ws, wrap_words(ws, width), wrap_bounds(ws, width), width),
    decreases ws.len(),
{
    if ws.len() == 0 {
        let ls = wrap_words(ws, width);
        assert(ls =~= seq![Seq::<char>::empty()]);
        assert(ws.subrange(0, 0) =~= Seq::<Seq<char>>::empty());
    } else {
        let pre = ws.drop_last();
        let w = ws.last();
        assert(pre.push(w) =~= ws);
        assert(w.len() > 0);
        lemma_greedy(pre, width);
        lemma_wrap_words_facts(pre, width);
        let l0 = wrap_words(pre, width);
        let b0 = wrap_bounds(pre, width);
        let cur = l0.last();
        if cur.len() > 0 && cur.len() + 1 + w.len() > width {
            lemma_greedy_new_line(pre, w, l0, b0, width);
        } else if cur.len() == 0 {
            assert(pre.len() == 0);
            let ls = wrap_words(ws, width);
            let b = wrap_bounds(ws, width);
            assert(l0 =~= seq![Seq::<char>::empty()]);
            assert(ls =~= seq![w]);
            assert(b =~= seq![0int, 1int]);
            assert(ws.subrange(0, 1) =~= seq![w]);
            assert(ls[0] == join(ws.subrange(b[0], b[1]), seq![' ']));
        } else {
            lemma_greedy_extend(pre, w, l0, b0, width);
        }
    }
}

/// Greedy wrapping, stated whole: the lines are the words of `s` in order,
/// each line its words joined by single spaces (`wrap_bounds` says which),
/// no line empty unless `s` has no words; a line of two or more words
/// fits in `width`; no line could have taken the next line's first word;
/// and with no word wider than `width`, no line is.
pub proof fn lemma_wrap_greedy_law(s: Seq<char>, width: nat)
    ensures
        greedy_wrap(words(s), wrapped(s, width), wrap_bounds(words(s), width), width),
        (forall|k: int| 0 <= k < words(s).len() ==> #[trigger] words(s)[k].len() <= width)
            ==> forall|i: int|
            0 <= i < wrapped(s, width).len() ==> #[trigger] wrapped(s, width)[i].len() <= width,
{
    lemma_words_tail(s);
    lemma_greedy(words(s), width);
    lemma_wrap_words_facts(words(s), width);
}

fn copy_chars(v: &Vec<char>) -> (r: Vec<char>)
    ensures
        r@ == v@,
{
    let mut r: Vec<char> = Vec::new();
    let mut i: usize = 0;
    while i < v.len()
        invariant
            i <= v.len(),
            r@ == v@.subrange(0, i as int),
        decreases v.len() - i,
    {
        r.push(v[i]);
        i = i + 1;
        assert(r@ =~= v@.subrange(0, i as int));
    }
    assert(r@ =~= v@);
    r
}

/// Greedy word-wrap on plain (un-styled) text.
pub fn wrap(s: &str, width: usize) -> (r: Vec<String>)
    ensures
        strs(r@) == wrapped(s@, width as nat),
{
    let ws = split_whitespace(s);
    let ghost wv = ws@.map_values(|w: Vec<char>| w@);
    let mut done: Vec<Vec<char>> = Vec::new();
    let mut cur: Vec<char> = Vec::new();
    let mut k: usize = 0;
    while k < ws.len()
        invariant
            k <= ws.len(),
            wv == ws@.map_values(|w: Vec<char>| w@),
            done@.map_values(|l: Vec<char>| l@).push(cur@) == wrap_words(
                wv.subrange(0, k as int),
                width as nat,
            ),
        decreases ws.len() - k,
    {
        let word = &ws[k];
        let ghost before = done@.map_values(|l: Vec<char>| l@);
        let ghost cur0 = cur@;
        let ghost prefix = wv.subrange(0, k + 1);
        assert(prefix.drop_last() =~= wv.subrange(0, k as int));
        assert(prefix.last() == word@);
        let wl = word.len();
        let too_long = cur.len() > 0 && (wl >= width || cur.len() >= width - wl);
        if too_long {
            let line = cur;
            done.push(line);
            cur = copy_chars(word);
            assert(done@.map_values(|l: Vec<char>| l@) =~= before.push(cur0));
        } else if cur.len() == 0 {
            cur = copy_chars(word);
            assert(before.push(cur0).update(before.len() as int, word@) =~= before.push(cur@));
        } else {
            cur.push(' ');
            let mut j: usize = 0;
            while j < word.len()
                invariant
                    j <= word.len(),
                    cur@ == cur0 + seq![' '] + word@.subrange(0, j as int),
                decreases word.len() - j,
            {
                cur.push(word[j]);
                j = j + 1;
                assert(cur@ =~= cur0 + seq![' '] + word@.subrange(0, j as int));
            }
            assert(word@.subrange(0, word.len() as int) =~= word@);
            assert(before.push(cur0).update(before.len() as int, cur0 + seq![' '] + word@)
                =~= before.push(cur@));
        }
        k = k + 1;
    }
    assert(wv.subrange(0, ws.len() as int) =~= wv);
    done.push(cur);
    let mut r: Vec<String> = Vec::new();
    let mut i: usize = 0;
    while i < done.len()
        invariant
            i <= done.len(),
            strs(r@) == done@.map_values(|l: Vec<char>| l@).subrange(0, i as int),
        decreases done.len() - i,
    {
        let ghost before = strs(r@);
        r.push(string_of(&done[i]));
        assert(strs(r@) =~= before.push(done@[i as int]@));
        i = i + 1;
        assert(strs(r@) =~= done@.map_values(|l: Vec<char>| l@).subrange(0, i as int));
    }
    assert(done@.map_values(|l: Vec<char>| l@).subrange(0, done.len() as int) =~= done@.map_values(
        |l: Vec<char>| l@,
    ));
    r
}

} // verus!
