//! Card layout: a framed, type-coloured info panel beside the art.

use vstd::prelude::*;
use vstd::string::*;

use super::frame::{
    beside, beside_lines, lemma_row_shows, lemma_split_shows, row_text, rule_text, split_text, Frame,
};
use super::pricing::{order_fits, rows, rows_for, rows_in_order};
use super::sets::{clamp, margined, sat_sub};
use super::style::{
    bar, bar_text, bold, bold_text, dim, dim_text, fg, fg_text, holo, holo_text, is_rare, italic,
    italic_text, legal_badges, legal_text, rare, rarity_badge, rarity_badge_text, shade, shaded,
    term_cols, type_color, type_rgb, variant_badges, variant_parts, wrap, wrapped, Rgb, ENERGY_RGB,
    GOLD, TRAINER_RGB,
};
use crate::tcgdex::card::{
    dex_text, display_opt, opt_view, Ability, Attack, Card, HeldItem, Weakness,
};
use crate::text::{
    ascii_lower, chars_of, contains, contains_vec, dec, eq_ignore_ascii_case, join, join_strings,
    lemma_contains_concat, lemma_contains_self, lemma_join_contains,
    push_char_n, push_dec, repeat, repeat_str, spaces, split_whitespace, strs, words,
};

verus! {

/// Used when the terminal width can't be read (piped output, tests).
const FALLBACK_COLS: usize = 100;

const INDENT: usize = 4;

const HP_BAR_CELLS: usize = 12;

const HP_MAX: usize = 340;

/// Every card's art is drawn at exactly this many lines.
pub const ART_ROWS: usize = 24;

const PAD_LEFT: usize = 2;

const GUTTER: usize = 3;

// ───────────────────────────────────────────────────────────────────────
// Trusted: Unicode lower case
// ───────────────────────────────────────────────────────────────────────

/// What `str::to_lowercase` gives for these characters (full Unicode
/// case mapping, a function of the text alone).
pub uninterp spec fn unicode_lower(s: Seq<char>) -> Seq<char>;

/// `str::to_lowercase`.
#[verifier::external_body]
fn to_lowercase(s: &str) -> (r: String)
    ensures
        r@ == unicode_lower(s@),
{
    s.to_lowercase()
}

// ───────────────────────────────────────────────────────────────────────
// Accent
// ───────────────────────────────────────────────────────────────────────

/// The category is `k`, ignoring ASCII case.
pub open spec fn is_category(c: Card, k: Seq<char>) -> bool {
    ascii_lower(c.category@) == ascii_lower(k)
}

/// The first word that is not "energy" (ignoring ASCII case).
pub open spec fn first_non_energy(ws: Seq<Seq<char>>) -> Option<Seq<char>>
    decreases ws.len(),
{
    if ws.len() == 0 {
        None
    } else if ascii_lower(ws[0]) != ascii_lower("energy"@) {
        Some(ws[0])
    } else {
        first_non_energy(ws.drop_first())
    }
}

/// The accent of a card without types: trainer blue, the colour of the
/// type word in an energy's name ("Fire Energy"), or colourless grey.
pub open spec fn untyped_accent(c: Card) -> Rgb {
    if is_category(c, "trainer"@) {
        TRAINER_RGB
    } else if is_category(c, "energy"@) {
        match first_non_energy(words(c.name@)) {
            Some(w) => type_color(w),
            None => ENERGY_RGB,
        }
    } else {
        type_color("Colorless"@)
    }
}

/// The colour a card is drawn in: its first type's.
pub open spec fn accent_of(c: Card) -> Rgb {
    match c.types {
        Some(t) => if t@.len() > 0 {
            type_color(t@[0]@)
        } else {
            untyped_accent(c)
        },
        None => untyped_accent(c),
    }
}

#[verifier::spinoff_prover]
#[verifier::rlimit(30)]
fn first_non_energy_exec(name: &str) -> (r: Option<Vec<char>>)
    ensures
        match r {
            Some(w) => first_non_energy(words(name@)) == Some(w@),
            None => first_non_energy(words(name@)) is None,
        },
{
    let ws = split_whitespace(name);
    let ghost wv = ws@.map_values(|w: Vec<char>| w@);
    let energy = crate::text::ascii_lower_vec("energy");
    let mut i: usize = 0;
    assert(wv.skip(0) =~= wv);
    while i < ws.len()
        invariant
            i <= ws@.len(),
            wv == ws@.map_values(|w: Vec<char>| w@),
            wv == words(name@),
            energy@ == ascii_lower("energy"@),
            first_non_energy(wv) == first_non_energy(wv.skip(i as int)),
        decreases ws@.len() - i,
    {
        let mut lw: Vec<char> = Vec::new();
        let mut k: usize = 0;
        while k < ws[i].len()
            invariant
                i < ws@.len(),
                k <= ws@[i as int]@.len(),
                lw@ == ascii_lower(ws@[i as int]@.subrange(0, k as int)),
            decreases ws@[i as int]@.len() - k,
        {
            lw.push(crate::text::lower_char_exec(ws[i][k]));
            k = k + 1;
            assert(lw@ =~= ascii_lower(ws@[i as int]@.subrange(0, k as int)));
        }
        assert(ws@[i as int]@.subrange(0, k as int) =~= ws@[i as int]@);
        assert(wv.skip(i as int)[0] == ws@[i as int]@);
        if !crate::text::chars_eq(&lw, &energy) {
            let mut out: Vec<char> = Vec::new();
            let mut j: usize = 0;
            while j < ws[i].len()
                invariant
                    i < ws@.len(),
                    j <= ws@[i as int]@.len(),
                    out@ == ws@[i as int]@.subrange(0, j as int),
                decreases ws@[i as int]@.len() - j,
            {
                out.push(ws[i][j]);
                j = j + 1;
                assert(out@ =~= ws@[i as int]@.subrange(0, j as int));
            }
            assert(out@ =~= ws@[i as int]@);
            return Some(out);
        }
        assert(wv.skip(i as int).drop_first() =~= wv.skip(i + 1));
        i = i + 1;
    }
    assert(wv.skip(i as int) =~= Seq::<Seq<char>>::empty());
    None
}

/// The colour a card is drawn in.
#[verifier::spinoff_prover]
#[verifier::rlimit(30)]
pub fn accent_for(c: &Card) -> (r: Rgb)
    ensures
        r == accent_of(*c),
{
    if let Some(t) = &c.types {
        if t.len() > 0 {
            return type_rgb(t[0].as_str());
        }
    }
    if eq_ignore_ascii_case(c.category.as_str(), "trainer") {
        TRAINER_RGB
    } else if eq_ignore_ascii_case(c.category.as_str(), "energy") {
        match first_non_energy_exec(c.name.as_str()) {
            Some(w) => type_rgb(crate::text::string_of(&w).as_str()),
            None => ENERGY_RGB,
        }
    } else {
        type_rgb("Colorless")
    }
}

// ───────────────────────────────────────────────────────────────────────
// Text blocks
// ───────────────────────────────────────────────────────────────────────

/// `text` wrapped to the box width less `indent`, each line dimmed and
/// indented.
pub open spec fn text_rows(border: Rgb, inner: nat, text: Seq<char>, indent: nat) -> Seq<Seq<char>> {
    wrapped(text, (inner - indent) as nat).map_values(
        |l: Seq<char>| row_text(border, inner, spaces(indent) + dim_text(l)),
    )
}

#[verifier::spinoff_prover]
#[verifier::rlimit(30)]
fn push_text(f: &mut Frame, text: &str, indent: usize)
    requires
        indent <= old(f).inner_spec(),
    ensures
        final(f).same_box(old(f)),
        final(f).text() == old(f).text() + text_rows(
            old(f).border_color(),
            old(f).inner_spec(),
            text@,
            indent as nat,
        ),
{
    let lines = wrap(text, f.inner() - indent);
    let ghost start = f.text();
    let ghost want = text_rows(f.border_color(), f.inner_spec(), text@, indent as nat);
    let mut i: usize = 0;
    while i < lines.len()
        invariant
            i <= lines@.len(),
            indent <= f.inner_spec(),
            f.same_box(old(f)),
            strs(lines@) == wrapped(text@, (old(f).inner_spec() - indent) as nat),
            want == text_rows(old(f).border_color(), old(f).inner_spec(), text@, indent as nat),
            f.text() == start + want.subrange(0, i as int),
        decreases lines@.len() - i,
    {
        let mut s = String::new();
        push_char_n(&mut s, ' ', indent);
        s.append(dim(lines[i].as_str()).as_str());
        f.row(s.as_str());
        i = i + 1;
        assert(f.text() =~= start + want.subrange(0, i as int));
    }
    assert(want.subrange(0, lines@.len() as int) =~= want);
}

/// An ability: kind and name, then its effect.
pub open spec fn ability_rows(ab: Ability, accent: Rgb, inner: nat) -> Seq<Seq<char>> {
    let b = shaded(accent, 55);
    seq![row_text(b, inner, fg_text("◈ "@ + ab.kind@, accent) + " "@ + bold_text(ab.name@))]
        + text_rows(b, inner, ab.effect@, 4)
}

#[verifier::spinoff_prover]
#[verifier::rlimit(30)]
fn push_ability(f: &mut Frame, ab: &Ability, accent: Rgb)
    requires
        4 <= old(f).inner_spec(),
        old(f).border_color() == shaded(accent, 55),
    ensures
        final(f).same_box(old(f)),
        final(f).text() == old(f).text() + ability_rows(*ab, accent, old(f).inner_spec()),
{
    let mut head = String::from_str("◈ ");
    head.append(ab.kind.as_str());
    let mut s = fg(head.as_str(), accent);
    s.append(" ");
    s.append(bold(ab.name.as_str()).as_str());
    f.row(s.as_str());
    push_text(f, ab.effect.as_str(), INDENT);
    assert(f.text() =~= old(f).text() + ability_rows(*ab, accent, old(f).inner_spec()));
}

/// One energy dot per cost type, or a dimmed dash for a free attack.
pub open spec fn cost_text(cost: Seq<String>) -> Seq<char> {
    if cost.len() == 0 {
        dim_text("—"@)
    } else {
        join(cost.map_values(|t: String| fg_text("●"@, type_color(t@))), Seq::empty())
    }
}

/// An attack: cost and name with the damage on the right, then its effect.
pub open spec fn attack_rows(a: Attack, accent: Rgb, inner: nat) -> Seq<Seq<char>> {
    let b = shaded(accent, 55);
    let damage = match display_opt(a.damage) {
        Some(d) => bold_text(fg_text(d, accent)),
        None => Seq::empty(),
    };
    seq![split_text(b, inner, cost_text(a.cost@) + "  "@ + bold_text(a.name@), damage)]
        + match a.effect {
        Some(e) => text_rows(b, inner, e@, 4),
        None => Seq::empty(),
    }
}

#[verifier::spinoff_prover]
#[verifier::rlimit(30)]
fn cost_exec(cost: &Vec<String>) -> (r: String)
    ensures
        r@ == cost_text(cost@),
{
    if cost.len() == 0 {
        return dim("—");
    }
    let mut parts: Vec<String> = Vec::new();
    let mut i: usize = 0;
    while i < cost.len()
        invariant
            i <= cost@.len(),
            strs(parts@) == cost@.subrange(0, i as int).map_values(
                |t: String| fg_text("●"@, type_color(t@)),
            ),
        decreases cost@.len() - i,
    {
        let ghost before = strs(parts@);
        parts.push(fg("●", type_rgb(cost[i].as_str())));
        assert(strs(parts@) =~= before.push(fg_text("●"@, type_color(cost@[i as int]@))));
        i = i + 1;
        assert(cost@.subrange(0, i as int).map_values(|t: String| fg_text("●"@, type_color(t@)))
            =~= cost@.subrange(0, i - 1).map_values(|t: String| fg_text("●"@, type_color(t@))).push(
            fg_text("●"@, type_color(cost@[i - 1]@)),
        ));
    }
    assert(cost@.subrange(0, cost@.len() as int) =~= cost@);
    proof {
        reveal_strlit("");
        assert(""@ =~= Seq::<char>::empty());
    }
    join_strings(&parts, "")
}

#[verifier::spinoff_prover]
#[verifier::rlimit(30)]
fn push_attack(f: &mut Frame, a: &Attack, accent: Rgb)
    requires
        4 <= old(f).inner_spec(),
        old(f).border_color() == shaded(accent, 55),
    ensures
        final(f).same_box(old(f)),
        final(f).text() == old(f).text() + attack_rows(*a, accent, old(f).inner_spec()),
{
    let mut left = cost_exec(&a.cost);
    left.append("  ");
    left.append(bold(a.name.as_str()).as_str());
    let damage = match a.damage_str() {
        Some(d) => bold(fg(d.as_str(), accent).as_str()),
        None => String::new(),
    };
    f.split(left.as_str(), damage.as_str());
    let ghost mid = f.text();
    if let Some(effect) = &a.effect {
        push_text(f, effect.as_str(), INDENT);
    }
    assert(f.text() =~= old(f).text() + attack_rows(*a, accent, old(f).inner_spec()));
}

/// The held item: name, then its effect.
pub open spec fn item_rows(item: HeldItem, accent: Rgb, inner: nat) -> Seq<Seq<char>> {
    let b = shaded(accent, 55);
    seq![row_text(b, inner, fg_text("⚙ Held item"@, accent) + " "@ + bold_text(item.name@))]
        + text_rows(b, inner, item.effect@, 4)
}

/// Weaknesses or resistances: a dot in the type's colour and the modifier each.
pub open spec fn modifiers_text(ms: Seq<Weakness>) -> Seq<char> {
    join(ms.map_values(|m: Weakness| fg_text("●"@, type_color(m.weakness_type@)) + m.value@), " "@)
}

#[verifier::spinoff_prover]
#[verifier::rlimit(30)]
fn modifiers(ms: &Vec<Weakness>) -> (r: String)
    ensures
        r@ == modifiers_text(ms@),
{
    let mut parts: Vec<String> = Vec::new();
    let mut i: usize = 0;
    while i < ms.len()
        invariant
            i <= ms@.len(),
            strs(parts@) == ms@.subrange(0, i as int).map_values(
                |m: Weakness| fg_text("●"@, type_color(m.weakness_type@)) + m.value@,
            ),
        decreases ms@.len() - i,
    {
        let mut s = fg("●", type_rgb(ms[i].weakness_type.as_str()));
        s.append(ms[i].value.as_str());
        let ghost before = strs(parts@);
        parts.push(s);
        assert(strs(parts@) =~= before.push(
            fg_text("●"@, type_color(ms@[i as int].weakness_type@)) + ms@[i as int].value@,
        ));
        i = i + 1;
        assert(ms@.subrange(0, i as int).map_values(
            |m: Weakness| fg_text("●"@, type_color(m.weakness_type@)) + m.value@,
        ) =~= ms@.subrange(0, i - 1).map_values(
            |m: Weakness| fg_text("●"@, type_color(m.weakness_type@)) + m.value@,
        ).push(fg_text("●"@, type_color(ms@[i - 1].weakness_type@)) + ms@[i - 1].value@));
    }
    assert(ms@.subrange(0, ms@.len() as int) =~= ms@);
    join_strings(&parts, " ")
}

// ───────────────────────────────────────────────────────────────────────
// Header
// ───────────────────────────────────────────────────────────────────────

/// The name: rainbow for rare cards, else bold in the accent; followed by
/// the suffix in gold unless the name already contains it (in lower case).
#[verifier::opaque]
pub open spec fn name_text(c: Card, accent: Rgb, hues: Seq<Rgb>) -> Seq<char> {
    let base = if rare(opt_view(c.rarity)) {
        holo_text(c.name@, hues)
    } else {
        bold_text(fg_text(c.name@, accent))
    };
    match c.suffix {
        Some(sfx) => if !contains(unicode_lower(c.name@), unicode_lower(sfx@)) {
            base + " "@ + fg_text(sfx@, GOLD)
        } else {
            base
        },
        None => base,
    }
}

/// "120 HP", or nothing.
pub open spec fn hp_text(c: Card, accent: Rgb) -> Seq<char> {
    match c.hp {
        Some(hp) => bold_text(fg_text(dec(hp as nat), accent)) + " "@ + dim_text("HP"@),
        None => Seq::empty(),
    }
}

/// The HP bar: twelve cells, filled in proportion to HP out of 340, at
/// least one.
pub open spec fn hp_bar_text(c: Card, accent: Rgb) -> Seq<char> {
    match c.hp {
        Some(hp) => {
            let f = hp as nat * 12 / 340;
            bar_text(
                if f >= 1 {
                    f
                } else {
                    1
                },
                12,
                accent,
            )
        },
        None => Seq::empty(),
    }
}

/// Pokémon: stage, level, types; others: category and trainer or energy type.
#[verifier::opaque]
pub open spec fn meta_parts(c: Card, accent: Rgb) -> Seq<Seq<char>> {
    if is_category(c, "pokemon"@) {
        (match c.stage {
            Some(s) => seq![dim_text(s@)],
            None => Seq::empty(),
        }) + (match display_opt(c.level) {
            Some(lv) => seq![dim_text("LV."@ + lv)],
            None => Seq::empty(),
        }) + (match c.types {
            Some(ts) => seq![join(ts@.map_values(|t: String| fg_text(t@, type_color(t@))), " "@)],
            None => Seq::empty(),
        })
    } else {
        seq![fg_text(c.category@, accent)] + match c.trainer_type {
            Some(t) => seq![dim_text(t@)],
            None => match c.energy_type {
                Some(t) => seq![dim_text(t@)],
                None => Seq::empty(),
            },
        }
    }
}

/// Dex numbers and what the card evolves from, those present.
pub open spec fn lineage_parts(c: Card, accent: Rgb) -> Seq<Seq<char>> {
    (match dex_text(c.dex_id@) {
        Some(d) => seq![fg_text(d, shaded(accent, 70))],
        None => Seq::empty(),
    }) + (match c.evolve_from {
        Some(from) => seq![dim_text("evolves from "@ + from@)],
        None => Seq::empty(),
    })
}

/// Name ..... HP; meta ..... HP bar; dex · evolves from (if any).
#[verifier::opaque]
pub open spec fn header_rows(c: Card, accent: Rgb, inner: nat, hues: Seq<Rgb>) -> Seq<Seq<char>> {
    let b = shaded(accent, 55);
    let lineage = lineage_parts(c, accent);
    seq![
        split_text(b, inner, fg_text("▌"@, accent) + " "@ + name_text(c, accent, hues), hp_text(c, accent)),
        split_text(b, inner, "  "@ + join(meta_parts(c, accent), dim_text(" · "@)), hp_bar_text(c, accent)),
    ] + if lineage.len() > 0 {
        seq![row_text(b, inner, "  "@ + join(lineage, dim_text(" · "@)))]
    } else {
        Seq::empty()
    }
}

proof fn lemma_header_third(c: Card, accent: Rgb, inner: nat, hues: Seq<Rgb>)
    ensures
        header_rows(c, accent, inner, hues).len() == if lineage_parts(c, accent).len() > 0 {
            3int
        } else {
            2int
        },
        lineage_parts(c, accent).len() > 0 ==> header_rows(c, accent, inner, hues)[2] == row_text(
            shaded(accent, 55),
            inner,
            "  "@ + join(lineage_parts(c, accent), dim_text(" · "@)),
        ),
{
    reveal(header_rows);
}

proof fn lemma_lineage_row_shows(l: Seq<Seq<char>>, accent: Rgb, inner: nat, k: int)
    requires
        0 <= k < l.len(),
    ensures
        contains(row_text(shaded(accent, 55), inner, "  "@ + join(l, dim_text(" · "@))), l[k]),
{
    let sep = dim_text(" · "@);
    lemma_join_contains(l, sep, k);
    lemma_contains_concat("  "@, join(l, sep), Seq::empty(), l[k]);
    assert("  "@ + join(l, sep) + Seq::<char>::empty() =~= "  "@ + join(l, sep));
    lemma_row_shows(shaded(accent, 55), inner, "  "@ + join(l, sep), l[k]);
}

/// The third header row is there exactly when the card has dex numbers
/// or something it evolves from; it shows the dex numbers (`#005`, in the
/// accent at 70%) and then, when the card evolves from `from`,
/// `evolves from <from>` dimmed.
#[verifier::spinoff_prover]
#[verifier::rlimit(60)]
pub proof fn lemma_lineage_law(c: Card, accent: Rgb, inner: nat, hues: Seq<Rgb>)
    ensures
        header_rows(c, accent, inner, hues).len() == if dex_text(c.dex_id@) is Some
            || c.evolve_from is Some {
            3int
        } else {
            2int
        },
        c.evolve_from matches Some(from) ==> contains(
            header_rows(c, accent, inner, hues)[2],
            dim_text("evolves from "@ + from@),
        ),
        dex_text(c.dex_id@) matches Some(d) ==> contains(
            header_rows(c, accent, inner, hues)[2],
            fg_text(d, shaded(accent, 70)),
        ),
        dex_text(c.dex_id@) matches Some(d) ==> (c.evolve_from matches Some(from) ==> lineage_parts(
            c,
            accent,
        ) == seq![fg_text(d, shaded(accent, 70)), dim_text("evolves from "@ + from@)]),
{
    let l = lineage_parts(c, accent);
    lemma_header_third(c, accent, inner, hues);
    if c.evolve_from is Some {
        lemma_lineage_row_shows(l, accent, inner, l.len() - 1);
    }
    if dex_text(c.dex_id@) is Some {
        lemma_lineage_row_shows(l, accent, inner, 0);
    }
}

/// The suffix is shown after the name unless the name, in lower case,
/// already contains it in lower case (`lower_name` and `lower_suffix` are
/// the lower-cased texts).
pub fn suffix_shown(lower_name: &str, lower_suffix: &str) -> (r: bool)
    ensures
        r == !contains(lower_name@, lower_suffix@),
{
    !contains_vec(&chars_of(lower_name), &chars_of(lower_suffix))
}

#[verifier::spinoff_prover]
#[verifier::rlimit(30)]
fn name_exec(c: &Card, accent: Rgb, hues: &Vec<Rgb>) -> (r: String)
    requires
        hues@.len() == c.name@.len(),
    ensures
        r@ == name_text(*c, accent, hues@),
{
    reveal(name_text);
    let rarity: Option<&str> = match &c.rarity {
        Some(r) => Some(r.as_str()),
        None => None,
    };
    let mut name = if is_rare(rarity) {
        holo(c.name.as_str(), hues)
    } else {
        bold(fg(c.name.as_str(), accent).as_str())
    };
    if let Some(sfx) = &c.suffix {
        let lname = to_lowercase(c.name.as_str());
        let lsfx = to_lowercase(sfx.as_str());
        if suffix_shown(lname.as_str(), lsfx.as_str()) {
            name.append(" ");
            name.append(fg(sfx.as_str(), GOLD).as_str());
        }
    }
    name
}

#[verifier::spinoff_prover]
#[verifier::rlimit(30)]
fn meta_exec(c: &Card, accent: Rgb) -> (r: Vec<String>)
    ensures
        strs(r@) == meta_parts(*c, accent),
{
    reveal(meta_parts);
    let mut meta: Vec<String> = Vec::new();
    if c.is_pokemon() {
        if let Some(stage) = &c.stage {
            meta.push(dim(stage.as_str()));
        }
        let ghost m1 = strs(meta@);
        if let Some(lv) = c.level_str() {
            let mut t = String::from_str("LV.");
            t.append(lv.as_str());
            meta.push(dim(t.as_str()));
        }
        let ghost m2 = strs(meta@);
        if let Some(types) = &c.types {
            let mut parts: Vec<String> = Vec::new();
            let mut i: usize = 0;
            while i < types.len()
                invariant
                    i <= types@.len(),
                    strs(parts@) == types@.subrange(0, i as int).map_values(
                        |t: String| fg_text(t@, type_color(t@)),
                    ),
                decreases types@.len() - i,
            {
                let ghost before = strs(parts@);
                parts.push(fg(types[i].as_str(), type_rgb(types[i].as_str())));
                assert(strs(parts@) =~= before.push(
                    fg_text(types@[i as int]@, type_color(types@[i as int]@)),
                ));
                i = i + 1;
                assert(types@.subrange(0, i as int).map_values(
                    |t: String| fg_text(t@, type_color(t@)),
                ) =~= types@.subrange(0, i - 1).map_values(
                    |t: String| fg_text(t@, type_color(t@)),
                ).push(fg_text(types@[i - 1]@, type_color(types@[i - 1]@))));
            }
            assert(types@.subrange(0, types@.len() as int) =~= types@);
            meta.push(join_strings(&parts, " "));
        }
        assert(strs(meta@) =~= meta_parts(*c, accent));
    } else {
        meta.push(fg(c.category.as_str(), accent));
        let t = match &c.trainer_type {
            Some(t) => Some(t),
            None => match &c.energy_type {
                Some(e) => Some(e),
                None => None,
            },
        };
        if let Some(t) = t {
            meta.push(dim(t.as_str()));
        }
        assert(strs(meta@) =~= meta_parts(*c, accent));
    }
    meta
}

#[verifier::spinoff_prover]
#[verifier::rlimit(30)]
fn lineage_exec(c: &Card, accent: Rgb) -> (r: Vec<String>)
    ensures
        strs(r@) == lineage_parts(*c, accent),
{
    let mut lineage: Vec<String> = Vec::new();
    if let Some(dex) = c.dex_label() {
        lineage.push(fg(dex.as_str(), shade(accent, 70)));
    }
    if let Some(from) = &c.evolve_from {
        let mut t = String::from_str("evolves from ");
        t.append(from.as_str());
        lineage.push(dim(t.as_str()));
    }
    assert(strs(lineage@) =~= lineage_parts(*c, accent));
    lineage
}

#[verifier::spinoff_prover]
#[verifier::rlimit(30)]
fn push_header(f: &mut Frame, c: &Card, accent: Rgb, hues: &Vec<Rgb>)
    requires
        hues@.len() == c.name@.len(),
        old(f).border_color() == shaded(accent, 55),
    ensures
        final(f).same_box(old(f)),
        final(f).text() == old(f).text() + header_rows(*c, accent, old(f).inner_spec(), hues@),
{
    reveal(header_rows);
    let name = name_exec(c, accent, hues);
    let hp = match c.hp {
        Some(hp) => {
            let mut n = String::new();
            push_dec(&mut n, hp as u64);
            let mut s = bold(fg(n.as_str(), accent).as_str());
            s.append(" ");
            s.append(dim("HP").as_str());
            s
        },
        None => String::new(),
    };
    let mut first = fg("▌", accent);
    first.append(" ");
    first.append(name.as_str());
    f.split(first.as_str(), hp.as_str());
    let meta = meta_exec(c, accent);
    let hp_bar = match c.hp {
        Some(hp) => {
            let filled = hp as usize * HP_BAR_CELLS / HP_MAX;
            bar(
                if filled >= 1 {
                    filled
                } else {
                    1
                },
                HP_BAR_CELLS,
                accent,
            )
        },
        None => String::new(),
    };
    let mut second = String::from_str("  ");
    second.append(join_strings(&meta, dim(" · ").as_str()).as_str());
    f.split(second.as_str(), hp_bar.as_str());
    let lineage = lineage_exec(c, accent);
    if lineage.len() > 0 {
        let mut third = String::from_str("  ");
        third.append(join_strings(&lineage, dim(" · ").as_str()).as_str());
        f.row(third.as_str());
    }
    assert(f.text() =~= old(f).text() + header_rows(*c, accent, old(f).inner_spec(), hues@));
}

// ───────────────────────────────────────────────────────────────────────
// Body: abilities, attacks, card text, held item
// ───────────────────────────────────────────────────────────────────────

/// The blocks of the body, in order: abilities, attacks, the card's own
/// text, the held item.
pub open spec fn body_items(c: Card, accent: Rgb, inner: nat) -> Seq<Seq<Seq<char>>> {
    c.abilities@.map_values(|ab: Ability| ability_rows(ab, accent, inner)) + c.attacks@.map_values(
        |a: Attack| attack_rows(a, accent, inner),
    ) + effect_block(c, accent, inner) + item_block(c, accent, inner)
}

/// The card's own text as a block, if it has one.
pub open spec fn effect_block(c: Card, accent: Rgb, inner: nat) -> Seq<Seq<Seq<char>>> {
    match c.effect {
        Some(e) => seq![text_rows(shaded(accent, 55), inner, e@, 0)],
        None => Seq::empty(),
    }
}

/// The held item as a block, if there is one.
pub open spec fn item_block(c: Card, accent: Rgb, inner: nat) -> Seq<Seq<Seq<char>>> {
    match c.item {
        Some(item) => seq![item_rows(item, accent, inner)],
        None => Seq::empty(),
    }
}

/// The blocks one after another with `gap` between neighbours.
pub open spec fn with_gaps(items: Seq<Seq<Seq<char>>>, gap: Seq<char>) -> Seq<Seq<char>>
    decreases items.len(),
{
    if items.len() == 0 {
        Seq::empty()
    } else if items.len() == 1 {
        items[0]
    } else {
        with_gaps(items.drop_last(), gap) + seq![gap] + items.last()
    }
}

/// A divider and the blocks separated by blank rows, when there are any.
pub open spec fn body_rows(c: Card, accent: Rgb, inner: nat) -> Seq<Seq<char>> {
    let items = body_items(c, accent, inner);
    let b = shaded(accent, 55);
    if items.len() > 0 {
        seq![rule_text(accent, b, inner)] + with_gaps(items, row_text(b, inner, Seq::empty()))
    } else {
        Seq::empty()
    }
}

/// A blank row before every block but the first.
fn gap(f: &mut Frame, first: &mut bool)
    ensures
        final(f).same_box(old(f)),
        !*final(first),
        final(f).text() == if *old(first) {
            old(f).text()
        } else {
            old(f).text().push(row_text(old(f).border_color(), old(f).inner_spec(), Seq::empty()))
        },
{
    if !*first {
        f.blank();
    }
    *first = false;
}

proof fn lemma_with_gaps_push(items: Seq<Seq<Seq<char>>>, g: Seq<char>, x: Seq<Seq<char>>)
    ensures
        with_gaps(items.push(x), g) == if items.len() == 0 {
            x
        } else {
            with_gaps(items, g) + seq![g] + x
        },
{
    assert(items.push(x).drop_last() =~= items);
    if items.len() == 0 {
        assert(items.push(x).len() == 1);
    }
}

/// The card's own text, after a gap unless it comes first.
#[verifier::spinoff_prover]
#[verifier::rlimit(30)]
fn push_effect_block(
    f: &mut Frame,
    c: &Card,
    accent: Rgb,
    first: &mut bool,
    Ghost(start): Ghost<Seq<Seq<char>>>,
    Ghost(done): Ghost<Seq<Seq<Seq<char>>>>,
)
    requires
        4 <= old(f).inner_spec(),
        old(f).border_color() == shaded(accent, 55),
        *old(first) == (done.len() == 0),
        old(f).text() == start + with_gaps(
            done,
            row_text(old(f).border_color(), old(f).inner_spec(), Seq::empty()),
        ),
    ensures
        final(f).same_box(old(f)),
        *final(first) == ((done + effect_block(*c, accent, old(f).inner_spec())).len() == 0),
        final(f).text() == start + with_gaps(
            done + effect_block(*c, accent, old(f).inner_spec()),
            row_text(old(f).border_color(), old(f).inner_spec(), Seq::empty()),
        ),
{
    let ghost inner = f.inner_spec();
    let ghost g = row_text(f.border_color(), inner, Seq::empty());
    if let Some(effect) = &c.effect {
        gap(f, first);
        push_text(f, effect.as_str(), 0);
        proof {
            let x = text_rows(shaded(accent, 55), inner, effect@, 0);
            lemma_with_gaps_push(done, g, x);
            assert(done + effect_block(*c, accent, inner) =~= done.push(x));
        }
    } else {
        assert(done + effect_block(*c, accent, inner) =~= done);
    }
}

/// The held item, after a gap unless it comes first.
#[verifier::spinoff_prover]
#[verifier::rlimit(30)]
fn push_item_block(
    f: &mut Frame,
    c: &Card,
    accent: Rgb,
    first: &mut bool,
    Ghost(start): Ghost<Seq<Seq<char>>>,
    Ghost(done): Ghost<Seq<Seq<Seq<char>>>>,
)
    requires
        4 <= old(f).inner_spec(),
        old(f).border_color() == shaded(accent, 55),
        *old(first) == (done.len() == 0),
        old(f).text() == start + with_gaps(
            done,
            row_text(old(f).border_color(), old(f).inner_spec(), Seq::empty()),
        ),
    ensures
        final(f).same_box(old(f)),
        final(f).text() == start + with_gaps(
            done + item_block(*c, accent, old(f).inner_spec()),
            row_text(old(f).border_color(), old(f).inner_spec(), Seq::empty()),
        ),
{
    let ghost inner = f.inner_spec();
    let ghost g = row_text(f.border_color(), inner, Seq::empty());
    if let Some(item) = &c.item {
        gap(f, first);
        let ghost mid = f.text();
        let mut s = fg("⚙ Held item", accent);
        s.append(" ");
        s.append(bold(item.name.as_str()).as_str());
        f.row(s.as_str());
        push_text(f, item.effect.as_str(), INDENT);
        proof {
            let x = item_rows(*item, accent, inner);
            assert(f.text() =~= mid + x);
            lemma_with_gaps_push(done, g, x);
            assert(done + item_block(*c, accent, inner) =~= done.push(x));
        }
    } else {
        assert(done + item_block(*c, accent, inner) =~= done);
    }
}

#[verifier::spinoff_prover]
#[verifier::rlimit(30)]
fn push_body(f: &mut Frame, c: &Card, accent: Rgb)
    requires
        4 <= old(f).inner_spec(),
        old(f).inner_spec() + 2 <= usize::MAX,
        old(f).border_color() == shaded(accent, 55),
        old(f).accent_color() == accent,
    ensures
        final(f).same_box(old(f)),
        final(f).text() == old(f).text() + body_rows(*c, accent, old(f).inner_spec()),
{
    let has_body = c.abilities.len() > 0 || c.attacks.len() > 0 || c.effect.is_some()
        || c.item.is_some();
    let ghost inner = f.inner_spec();
    let ghost b = shaded(accent, 55);
    let ghost g = row_text(b, inner, Seq::empty());
    let ghost items = body_items(*c, accent, inner);
    let ghost abl = c.abilities@.map_values(|ab: Ability| ability_rows(ab, accent, inner));
    let ghost atl = c.attacks@.map_values(|a: Attack| attack_rows(a, accent, inner));
    if !has_body {
        assert(items.len() == 0);
        assert(f.text() =~= old(f).text() + body_rows(*c, accent, inner));
        return;
    }
    f.rule();
    let ghost start = f.text();
    let mut first = true;
    let mut i: usize = 0;
    while i < c.abilities.len()
        invariant
            i <= c.abilities@.len(),
            f.same_box(old(f)),
            4 <= f.inner_spec(),
            inner == f.inner_spec(),
            b == f.border_color(),
            b == shaded(accent, 55),
            g == row_text(b, inner, Seq::empty()),
            abl == c.abilities@.map_values(|ab: Ability| ability_rows(ab, accent, inner)),
            first == (i == 0),
            f.text() == start + with_gaps(abl.subrange(0, i as int), g),
        decreases c.abilities@.len() - i,
    {
        gap(f, &mut first);
        push_ability(f, &c.abilities[i], accent);
        proof {
            lemma_with_gaps_push(abl.subrange(0, i as int), g, abl[i as int]);
            assert(abl.subrange(0, i + 1) =~= abl.subrange(0, i as int).push(abl[i as int]));
        }
        i = i + 1;
    }
    assert(abl.subrange(0, c.abilities@.len() as int) =~= abl);
    let ghost done1 = abl;
    let mut j: usize = 0;
    while j < c.attacks.len()
        invariant
            j <= c.attacks@.len(),
            f.same_box(old(f)),
            4 <= f.inner_spec(),
            inner == f.inner_spec(),
            b == f.border_color(),
            b == shaded(accent, 55),
            g == row_text(b, inner, Seq::empty()),
            atl == c.attacks@.map_values(|a: Attack| attack_rows(a, accent, inner)),
            first == (done1.len() + j == 0),
            f.text() == start + with_gaps(done1 + atl.subrange(0, j as int), g),
        decreases c.attacks@.len() - j,
    {
        gap(f, &mut first);
        push_attack(f, &c.attacks[j], accent);
        proof {
            let pre = done1 + atl.subrange(0, j as int);
            lemma_with_gaps_push(pre, g, atl[j as int]);
            assert(done1 + atl.subrange(0, j + 1) =~= pre.push(atl[j as int]));
        }
        j = j + 1;
    }
    assert(atl.subrange(0, c.attacks@.len() as int) =~= atl);
    let ghost done2 = abl + atl;
    assert(first == (done2.len() == 0));
    push_effect_block(f, c, accent, &mut first, Ghost(start), Ghost(done2));
    let ghost done3 = done2 + effect_block(*c, accent, inner);
    push_item_block(f, c, accent, &mut first, Ghost(start), Ghost(done3));
    assert(items =~= done3 + item_block(*c, accent, inner));
    assert(f.text() =~= old(f).text() + body_rows(*c, accent, inner));
}

// ───────────────────────────────────────────────────────────────────────
// Weakness / resistance / retreat
// ───────────────────────────────────────────────────────────────────────

/// Pokémon only: a divider, then weaknesses and resistances (those
/// present) with the retreat cost on the right.
pub open spec fn battle_rows(c: Card, accent: Rgb, inner: nat) -> Seq<Seq<char>> {
    let b = shaded(accent, 55);
    if is_category(c, "pokemon"@) {
        let left = (if c.weaknesses@.len() > 0 {
            seq![dim_text("Weakness"@) + " "@ + modifiers_text(c.weaknesses@)]
        } else {
            Seq::empty()
        }) + (if c.resistances@.len() > 0 {
            seq![dim_text("Resistance"@) + " "@ + modifiers_text(c.resistances@)]
        } else {
            Seq::empty()
        });
        let retreat = if c.retreat > 0 {
            fg_text(repeat("●"@, c.retreat as nat), shaded(accent, 75))
        } else {
            dim_text("free"@)
        };
        seq![
            rule_text(accent, b, inner),
            split_text(b, inner, join(left, "  "@), dim_text("Retreat"@) + " "@ + retreat),
        ]
    } else {
        Seq::empty()
    }
}

/// The battle rows of a Pokémon: a divider, then one row that shows its
/// weaknesses (`Weakness` and each weakness's type dot and modifier) when
/// it has any, its resistances (`Resistance` and each resistance's type
/// dot and modifier) when it has any, and its retreat cost (`Retreat` and
/// one dot per energy in the accent at 75%, or `free`). Other cards have
/// no battle rows.
pub proof fn lemma_battle_law(c: Card, accent: Rgb, inner: nat)
    ensures
        !is_category(c, "pokemon"@) ==> battle_rows(c, accent, inner).len() == 0,
        is_category(c, "pokemon"@) ==> {
            let rows = battle_rows(c, accent, inner);
            &&& rows.len() == 2
            &&& rows[0] == rule_text(accent, shaded(accent, 55), inner)
            &&& c.weaknesses@.len() > 0 ==> contains(
                rows[1],
                dim_text("Weakness"@) + " "@ + join(
                    c.weaknesses@.map_values(
                        |m: Weakness| fg_text("●"@, type_color(m.weakness_type@)) + m.value@,
                    ),
                    " "@,
                ),
            )
            &&& c.resistances@.len() > 0 ==> contains(
                rows[1],
                dim_text("Resistance"@) + " "@ + join(
                    c.resistances@.map_values(
                        |m: Weakness| fg_text("●"@, type_color(m.weakness_type@)) + m.value@,
                    ),
                    " "@,
                ),
            )
            &&& contains(
                rows[1],
                dim_text("Retreat"@) + " "@ + if c.retreat > 0 {
                    fg_text(repeat("●"@, c.retreat as nat), shaded(accent, 75))
                } else {
                    dim_text("free"@)
                },
            )
        },
{
    if is_category(c, "pokemon"@) {
        let b = shaded(accent, 55);
        let wk = if c.weaknesses@.len() > 0 {
            seq![dim_text("Weakness"@) + " "@ + modifiers_text(c.weaknesses@)]
        } else {
            Seq::<Seq<char>>::empty()
        };
        let rs = if c.resistances@.len() > 0 {
            seq![dim_text("Resistance"@) + " "@ + modifiers_text(c.resistances@)]
        } else {
            Seq::<Seq<char>>::empty()
        };
        let left = wk + rs;
        let retreat = if c.retreat > 0 {
            fg_text(repeat("●"@, c.retreat as nat), shaded(accent, 75))
        } else {
            dim_text("free"@)
        };
        let right = dim_text("Retreat"@) + " "@ + retreat;
        assert(battle_rows(c, accent, inner)[1] == split_text(b, inner, join(left, "  "@), right));
        if c.weaknesses@.len() > 0 {
            lemma_join_contains(left, "  "@, 0);
            lemma_split_shows(b, inner, join(left, "  "@), right, left[0]);
        }
        if c.resistances@.len() > 0 {
            lemma_join_contains(left, "  "@, left.len() - 1);
            lemma_split_shows(b, inner, join(left, "  "@), right, left[left.len() - 1]);
        }
        lemma_contains_self(right);
        lemma_split_shows(b, inner, join(left, "  "@), right, right);
    }
}

#[verifier::spinoff_prover]
#[verifier::rlimit(30)]
fn push_battle(f: &mut Frame, c: &Card, accent: Rgb)
    requires
        old(f).inner_spec() + 2 <= usize::MAX,
        old(f).border_color() == shaded(accent, 55),
        old(f).accent_color() == accent,
    ensures
        final(f).same_box(old(f)),
        final(f).text() == old(f).text() + battle_rows(*c, accent, old(f).inner_spec()),
{
    if c.is_pokemon() {
        f.rule();
        let mut left: Vec<String> = Vec::new();
        if c.weaknesses.len() > 0 {
            let mut s = dim("Weakness");
            s.append(" ");
            s.append(modifiers(&c.weaknesses).as_str());
            left.push(s);
        }
        let ghost l1 = strs(left@);
        if c.resistances.len() > 0 {
            let mut s = dim("Resistance");
            s.append(" ");
            s.append(modifiers(&c.resistances).as_str());
            left.push(s);
            assert(strs(left@) =~= l1.push(s@));
        }
        let retreat = if c.retreat > 0 {
            fg(repeat_str("●", c.retreat as usize).as_str(), shade(accent, 75))
        } else {
            dim("free")
        };
        let mut right = dim("Retreat");
        right.append(" ");
        right.append(retreat.as_str());
        let l = join_strings(&left, "  ");
        proof {
            let wk = if c.weaknesses@.len() > 0 {
                seq![dim_text("Weakness"@) + " "@ + modifiers_text(c.weaknesses@)]
            } else {
                Seq::<Seq<char>>::empty()
            };
            let rs = if c.resistances@.len() > 0 {
                seq![dim_text("Resistance"@) + " "@ + modifiers_text(c.resistances@)]
            } else {
                Seq::<Seq<char>>::empty()
            };
            assert(strs(left@) =~= wk + rs);
            assert(retreat@ == if c.retreat > 0 {
                fg_text(repeat("●"@, c.retreat as nat), shaded(accent, 75))
            } else {
                dim_text("free"@)
            });
        }
        let ghost pre = f.text();
        f.split(l.as_str(), right.as_str());
        assert(f.text() =~= pre.push(split_text(f.border_color(), f.inner_spec(), l@, right@)));
    }
    assert(f.text() =~= old(f).text() + battle_rows(*c, accent, old(f).inner_spec()));
}

// ───────────────────────────────────────────────────────────────────────
// Flavour text
// ───────────────────────────────────────────────────────────────────────

/// One quoted flavour line: `“` opens the first, `”` closes the last.
pub open spec fn quoted(lines: Seq<Seq<char>>, i: int) -> Seq<char> {
    (if i == 0 {
        "“"@
    } else {
        " "@
    }) + lines[i] + (if i + 1 == lines.len() {
        "”"@
    } else {
        Seq::empty()
    })
}

/// A divider and the description wrapped two columns narrower, quoted,
/// dimmed and in italics.
pub open spec fn flavour_rows(c: Card, accent: Rgb, inner: nat) -> Seq<Seq<char>> {
    let b = shaded(accent, 55);
    match c.description {
        Some(d) => {
            let ls = wrapped(d@, (inner - 2) as nat);
            seq![rule_text(accent, b, inner)] + Seq::new(
                ls.len(),
                |i: int| row_text(b, inner, dim_text(italic_text(quoted(ls, i)))),
            )
        },
        None => Seq::empty(),
    }
}

#[verifier::spinoff_prover]
#[verifier::rlimit(30)]
fn push_flavour(f: &mut Frame, c: &Card, accent: Rgb)
    requires
        2 <= old(f).inner_spec(),
        old(f).inner_spec() + 2 <= usize::MAX,
        old(f).border_color() == shaded(accent, 55),
        old(f).accent_color() == accent,
    ensures
        final(f).same_box(old(f)),
        final(f).text() == old(f).text() + flavour_rows(*c, accent, old(f).inner_spec()),
{
    if let Some(desc) = &c.description {
        f.rule();
        let lines = wrap(desc.as_str(), f.inner() - 2);
        let n = lines.len();
        let ghost ls = strs(lines@);
        let ghost b = f.border_color();
        let ghost inner = f.inner_spec();
        let ghost start = f.text();
        let ghost want = Seq::new(
            ls.len(),
            |i: int| row_text(b, inner, dim_text(italic_text(quoted(ls, i)))),
        );
        let mut i: usize = 0;
        while i < n
            invariant
                i <= n,
                n == lines@.len(),
                ls == strs(lines@),
                f.same_box(old(f)),
                b == f.border_color(),
                inner == f.inner_spec(),
                want == Seq::new(
                    ls.len(),
                    |i: int| row_text(b, inner, dim_text(italic_text(quoted(ls, i)))),
                ),
                f.text() == start + want.subrange(0, i as int),
            decreases n - i,
        {
            let mut s = String::new();
            if i == 0 {
                s.append("“");
            } else {
                s.append(" ");
            }
            s.append(lines[i].as_str());
            if i + 1 == n {
                s.append("”");
            }
            proof {
                reveal_strlit("");
                assert(""@ =~= Seq::<char>::empty());
            }
            assert(s@ =~= quoted(ls, i as int));
            f.row(dim(italic(s.as_str()).as_str()).as_str());
            i = i + 1;
            assert(f.text() =~= start + want.subrange(0, i as int));
        }
        assert(want.subrange(0, n as int) =~= want);
    }
    assert(f.text() =~= old(f).text() + flavour_rows(*c, accent, old(f).inner_spec()));
}

// ───────────────────────────────────────────────────────────────────────
// Footer
// ───────────────────────────────────────────────────────────────────────

/// Bytes of a character in UTF-8.
pub open spec fn utf8_len(c: char) -> nat {
    if (c as u32) < 0x80 {
        1
    } else if (c as u32) < 0x800 {
        2
    } else if (c as u32) < 0x10000 {
        3
    } else {
        4
    }
}

/// The characters that make up the first `budget` bytes of `s` (all of
/// `s` when it is shorter).
pub open spec fn head_bytes(s: Seq<char>, budget: nat) -> Seq<char>
    decreases s.len(),
{
    if s.len() == 0 || budget == 0 {
        Seq::empty()
    } else if utf8_len(s[0]) <= budget {
        seq![s[0]] + head_bytes(s.drop_first(), (budget - utf8_len(s[0])) as nat)
    } else {
        Seq::empty()
    }
}

/// The first `budget` bytes of `s` (or all of `s`) end on a character
/// boundary, so slicing there does not panic.
pub open spec fn byte_boundary(s: Seq<char>, budget: nat) -> bool
    decreases s.len(),
{
    if s.len() == 0 || budget == 0 {
        true
    } else if utf8_len(s[0]) <= budget {
        byte_boundary(s.drop_first(), (budget - utf8_len(s[0])) as nat)
    } else {
        false
    }
}

/// The legality row and packs can be drawn: the date cut at ten bytes
/// falls on a character boundary.
pub open spec fn footer_drawable(c: Card) -> bool {
    (c.regulation_mark.is_some() || c.legal.is_some()) ==> match c.updated {
        Some(u) => byte_boundary(u@, 10),
        None => true,
    }
}

fn utf8_len_exec(c: char) -> (r: usize)
    ensures
        r == utf8_len(c),
{
    if (c as u32) < 0x80 {
        1
    } else if (c as u32) < 0x800 {
        2
    } else if (c as u32) < 0x10000 {
        3
    } else {
        4
    }
}

#[verifier::spinoff_prover]
#[verifier::rlimit(30)]
fn head_bytes_exec(s: &str, budget: usize) -> (r: String)
    requires
        byte_boundary(s@, budget as nat),
    ensures
        r@ == head_bytes(s@, budget as nat),
{
    let v = chars_of(s);
    let mut r = String::new();
    let mut i: usize = 0;
    let mut left = budget;
    assert(v@.skip(0) =~= v@);
    assert(r@ =~= Seq::<char>::empty());
    assert(r@ + head_bytes(v@.skip(0), left as nat) =~= head_bytes(v@.skip(0), left as nat));
    while i < v.len() && left > 0 && utf8_len_exec(v[i]) <= left
        invariant
            i <= v@.len(),
            v@ == s@,
            byte_boundary(v@.skip(i as int), left as nat),
            head_bytes(s@, budget as nat) == r@ + head_bytes(v@.skip(i as int), left as nat),
        decreases v@.len() - i,
    {
        let ghost rest = v@.skip(i as int);
        assert(rest[0] == v@[i as int]);
        assert(rest.drop_first() =~= v@.skip(i + 1));
        crate::text::push_char(&mut r, v[i]);
        left = left - utf8_len_exec(v[i]);
        i = i + 1;
    }
    assert(head_bytes(v@.skip(i as int), left as nat) =~= Seq::<char>::empty()) by {
        if i < v@.len() && left > 0 {
            assert(v@.skip(i as int)[0] == v@[i as int]);
        }
    }
    r
}

/// The packs row(s), wrapped, when the card comes in boosters.
pub open spec fn packs_rows(c: Card, b: Rgb, inner: nat) -> Seq<Seq<char>> {
    if c.boosters@.len() > 0 {
        wrapped(
            "Packs: "@ + join(
                c.boosters@.map_values(|x: crate::tcgdex::card::Booster| x.name@),
                ", "@,
            ),
            inner,
        ).map_values(|l: Seq<char>| row_text(b, inner, dim_text(l)))
    } else {
        Seq::empty()
    }
}

/// Regulation mark and legality with the update date on the right.
pub open spec fn legal_rows(c: Card, b: Rgb, inner: nat) -> Seq<Seq<char>> {
    if c.regulation_mark.is_some() || c.legal.is_some() {
        let mark = match c.regulation_mark {
            Some(m) => fg_text("["@ + m@ + "]"@, GOLD) + " "@,
            None => Seq::empty(),
        };
        let legal = match c.legal {
            Some(l) => legal_text(l.standard, l.expanded),
            None => Seq::empty(),
        };
        let updated = match c.updated {
            Some(u) => dim_text("upd. "@ + head_bytes(u@, 10)),
            None => Seq::empty(),
        };
        seq![split_text(b, inner, mark + legal, updated)]
    } else {
        Seq::empty()
    }
}

/// A divider; set, number and rarity; illustrator and variants; then
/// legality and packs.
pub open spec fn footer_rows(c: Card, accent: Rgb, inner: nat) -> Seq<Seq<char>> {
    let b = shaded(accent, 55);
    let set = fg_text(c.set.name@, shaded(accent, 80)) + " "@ + dim_text(
        "· "@ + c.local_id@ + "/"@ + dec(c.set.card_count.official as nat),
    );
    let rarity = match c.rarity {
        Some(r) => rarity_badge_text(r@),
        None => Seq::empty(),
    };
    let illus = match c.illustrator {
        Some(i) => dim_text("Illus. "@ + i@),
        None => Seq::empty(),
    };
    seq![
        rule_text(accent, b, inner),
        split_text(b, inner, set, rarity),
        split_text(b, inner, illus, join(variant_parts(c.variants), "  "@)),
    ] + legal_rows(c, b, inner) + packs_rows(c, b, inner)
}

#[verifier::spinoff_prover]
#[verifier::rlimit(30)]
fn push_legal(f: &mut Frame, c: &Card)
    requires
        footer_drawable(*c),
    ensures
        final(f).same_box(old(f)),
        final(f).text() == old(f).text() + legal_rows(*c, old(f).border_color(), old(f).inner_spec()),
{
    if c.regulation_mark.is_some() || c.legal.is_some() {
        let mark = match &c.regulation_mark {
            Some(m) => {
                let mut t = String::from_str("[");
                t.append(m.as_str());
                t.append("]");
                let mut s = fg(t.as_str(), GOLD);
                s.append(" ");
                s
            },
            None => String::new(),
        };
        let legal = match &c.legal {
            Some(l) => legal_badges(l.standard, l.expanded),
            None => String::new(),
        };
        let updated = match &c.updated {
            Some(u) => {
                let mut t = String::from_str("upd. ");
                t.append(head_bytes_exec(u.as_str(), 10).as_str());
                dim(t.as_str())
            },
            None => String::new(),
        };
        let mut left = mark;
        left.append(legal.as_str());
        let ghost pre = f.text();
        f.split(left.as_str(), updated.as_str());
        assert(f.text() =~= pre.push(
            split_text(f.border_color(), f.inner_spec(), left@, updated@),
        ));
    }
    assert(f.text() =~= old(f).text() + legal_rows(*c, old(f).border_color(), old(f).inner_spec()));
}

#[verifier::spinoff_prover]
#[verifier::rlimit(30)]
fn booster_names(c: &Card) -> (r: Vec<String>)
    ensures
        strs(r@) == c.boosters@.map_values(|x: crate::tcgdex::card::Booster| x.name@),
{
    let mut names: Vec<String> = Vec::new();
    let mut i: usize = 0;
    while i < c.boosters.len()
        invariant
            i <= c.boosters@.len(),
            strs(names@) == c.boosters@.subrange(0, i as int).map_values(
                |x: crate::tcgdex::card::Booster| x.name@,
            ),
        decreases c.boosters@.len() - i,
    {
        let ghost before = strs(names@);
        names.push(c.boosters[i].name.clone());
        assert(strs(names@) =~= before.push(c.boosters@[i as int].name@));
        i = i + 1;
        assert(c.boosters@.subrange(0, i as int).map_values(
            |x: crate::tcgdex::card::Booster| x.name@,
        ) =~= c.boosters@.subrange(0, i - 1).map_values(
            |x: crate::tcgdex::card::Booster| x.name@,
        ).push(c.boosters@[i - 1].name@));
    }
    assert(c.boosters@.subrange(0, c.boosters@.len() as int) =~= c.boosters@);
    names
}

#[verifier::spinoff_prover]
#[verifier::rlimit(30)]
fn push_packs(f: &mut Frame, c: &Card)
    ensures
        final(f).same_box(old(f)),
        final(f).text() == old(f).text() + packs_rows(*c, old(f).border_color(), old(f).inner_spec()),
{
    let ghost b = f.border_color();
    let ghost inner = f.inner_spec();
    let ghost start = f.text();
    if c.boosters.len() > 0 {
        let names = booster_names(c);
        let mut packs = String::from_str("Packs: ");
        packs.append(join_strings(&names, ", ").as_str());
        let lines = wrap(packs.as_str(), f.inner());
        let ghost want = packs_rows(*c, b, inner);
        let mut k: usize = 0;
        while k < lines.len()
            invariant
                k <= lines@.len(),
                f.same_box(old(f)),
                b == f.border_color(),
                inner == f.inner_spec(),
                want == strs(lines@).map_values(|l: Seq<char>| row_text(b, inner, dim_text(l))),
                f.text() == start + want.subrange(0, k as int),
            decreases lines@.len() - k,
        {
            f.row(dim(lines[k].as_str()).as_str());
            k = k + 1;
            assert(f.text() =~= start + want.subrange(0, k as int));
        }
        assert(want.subrange(0, lines@.len() as int) =~= want);
    } else {
        assert(f.text() =~= start + packs_rows(*c, b, inner));
    }
}

#[verifier::spinoff_prover]
#[verifier::rlimit(40)]
fn push_footer(f: &mut Frame, c: &Card, accent: Rgb)
    requires
        footer_drawable(*c),
        old(f).inner_spec() + 2 <= usize::MAX,
        old(f).border_color() == shaded(accent, 55),
        old(f).accent_color() == accent,
    ensures
        final(f).same_box(old(f)),
        final(f).text() == old(f).text() + footer_rows(*c, accent, old(f).inner_spec()),
{
    let ghost b = f.border_color();
    let ghost inner = f.inner_spec();
    f.rule();
    let mut set = fg(c.set.name.as_str(), shade(accent, 80));
    set.append(" ");
    let mut num = String::from_str("· ");
    num.append(c.number().as_str());
    set.append(dim(num.as_str()).as_str());
    let rarity = match &c.rarity {
        Some(r) => rarity_badge(r.as_str()),
        None => String::new(),
    };
    f.split(set.as_str(), rarity.as_str());
    let illus = match &c.illustrator {
        Some(i) => {
            let mut t = String::from_str("Illus. ");
            t.append(i.as_str());
            dim(t.as_str())
        },
        None => String::new(),
    };
    let badges = variant_badges(&c.variants);
    f.split(illus.as_str(), badges.as_str());
    proof {
        assert(set@ =~= fg_text(c.set.name@, shaded(accent, 80)) + " "@ + dim_text(
            "· "@ + c.local_id@ + "/"@ + dec(c.set.card_count.official as nat),
        ));
        assert(rarity@ == match c.rarity {
            Some(r) => rarity_badge_text(r@),
            None => Seq::<char>::empty(),
        });
        assert(illus@ == match c.illustrator {
            Some(i) => dim_text("Illus. "@ + i@),
            None => Seq::<char>::empty(),
        });
    }
    let ghost mid = f.text();
    assert(mid =~= old(f).text() + seq![
        rule_text(accent, b, inner),
        split_text(b, inner, set@, rarity@),
        split_text(b, inner, illus@, badges@),
    ]);
    push_legal(f, c);
    push_packs(f, c);
    assert(f.text() =~= mid + legal_rows(*c, b, inner) + packs_rows(*c, b, inner));
    assert(f.text() =~= old(f).text() + footer_rows(*c, accent, old(f).inner_spec()));
}

// ───────────────────────────────────────────────────────────────────────
// Market prices
// ───────────────────────────────────────────────────────────────────────

/// A divider and one row per price line (values in gold), when there are
/// prices.
pub open spec fn price_block(prices: Seq<(Seq<char>, Seq<char>)>, accent: Rgb, inner: nat) -> Seq<
    Seq<char>,
> {
    let b = shaded(accent, 55);
    if prices.len() > 0 {
        seq![rule_text(accent, b, inner)] + prices.map_values(
            |p: (Seq<char>, Seq<char>)| split_text(b, inner, p.0, fg_text(p.1, GOLD)),
        )
    } else {
        Seq::empty()
    }
}

/// The price rows of a card, TCGplayer variants in the order `order`.
pub open spec fn card_prices(c: Card, order: Seq<usize>) -> Seq<(Seq<char>, Seq<char>)> {
    match c.pricing {
        Some(p) => rows_for(p, order),
        None => Seq::empty(),
    }
}

/// `order` sorts the card's TCGplayer variants (empty without prices).
pub open spec fn card_order_fits(c: Card, order: Seq<usize>) -> bool {
    match c.pricing {
        Some(p) => order_fits(p, order),
        None => order.len() == 0,
    }
}

#[verifier::spinoff_prover]
#[verifier::rlimit(30)]
fn push_prices(f: &mut Frame, c: &Card, accent: Rgb) -> (order: Ghost<Seq<usize>>)
    requires
        old(f).inner_spec() + 2 <= usize::MAX,
        old(f).border_color() == shaded(accent, 55),
        old(f).accent_color() == accent,
    ensures
        final(f).same_box(old(f)),
        card_order_fits(*c, order@),
        final(f).text() == old(f).text() + price_block(
            card_prices(*c, order@),
            accent,
            old(f).inner_spec(),
        ),
{
    match &c.pricing {
        None => {
            assert(f.text() =~= old(f).text() + price_block(
                card_prices(*c, Seq::empty()),
                accent,
                old(f).inner_spec(),
            ));
            Ghost(Seq::empty())
        },
        Some(p) => {
            let rs = rows(p);
            let ghost order = choose|o: Seq<usize>| #[trigger] rows_in_order(rs@, *p, o);
            let ghost pv = super::pricing::pairs(rs@);
            if rs.len() > 0 {
                f.rule();
                let ghost b = f.border_color();
                let ghost inner = f.inner_spec();
                let ghost start = f.text();
                let ghost want = pv.map_values(
                    |q: (Seq<char>, Seq<char>)| split_text(b, inner, q.0, fg_text(q.1, GOLD)),
                );
                let mut i: usize = 0;
                while i < rs.len()
                    invariant
                        i <= rs@.len(),
                        f.same_box(old(f)),
                        b == f.border_color(),
                        inner == f.inner_spec(),
                        pv == super::pricing::pairs(rs@),
                        want == pv.map_values(
                            |q: (Seq<char>, Seq<char>)| split_text(b, inner, q.0, fg_text(q.1, GOLD)),
                        ),
                        f.text() == start + want.subrange(0, i as int),
                    decreases rs@.len() - i,
                {
                    let (label, values) = &rs[i];
                    f.split(label.as_str(), fg(values.as_str(), GOLD).as_str());
                    i = i + 1;
                    assert(f.text() =~= start + want.subrange(0, i as int));
                }
                assert(want.subrange(0, rs@.len() as int) =~= want);
            }
            assert(f.text() =~= old(f).text() + price_block(
                card_prices(*c, order),
                accent,
                old(f).inner_spec(),
            ));
            Ghost(order)
        },
    }
}

// ───────────────────────────────────────────────────────────────────────
// The whole card
// ───────────────────────────────────────────────────────────────────────

/// The framed info panel of a card `inner` columns wide, its TCGplayer
/// prices in the order `order`.
pub open spec fn card_text(c: Card, inner: nat, hues: Seq<Rgb>, order: Seq<usize>) -> Seq<
    Seq<char>,
> {
    let accent = accent_of(c);
    let b = shaded(accent, 55);
    seq![super::frame::top_text(b, inner)] + header_rows(c, accent, inner, hues) + body_rows(
        c,
        accent,
        inner,
    ) + battle_rows(c, accent, inner) + flavour_rows(c, accent, inner) + footer_rows(
        c,
        accent,
        inner,
    ) + price_block(card_prices(c, order), accent, inner) + seq![
        super::frame::bottom_text(b, inner),
    ]
}

/// `card_lines` took the TCGplayer variants in the order `order`.
pub open spec fn card_in_order(r: Seq<String>, c: Card, inner: nat, hues: Seq<Rgb>, order: Seq<usize>) -> bool {
    card_order_fits(c, order) && strs(r) == card_text(c, inner, hues, order)
}

/// The framed info panel of a card. `hues` colours the name of a rare
/// card, one colour per character.
#[verifier::spinoff_prover]
#[verifier::rlimit(30)]
pub fn card_lines(c: &Card, inner: usize, hues: &Vec<Rgb>) -> (r: Vec<String>)
    requires
        4 <= inner,
        inner + 2 <= usize::MAX,
        hues@.len() == c.name@.len(),
        footer_drawable(*c),
    ensures
        exists|order: Seq<usize>| #[trigger] card_in_order(r@, *c, inner as nat, hues@, order),
{
    let accent = accent_for(c);
    let mut f = Frame::new(inner, accent);
    f.top();
    push_header(&mut f, c, accent, hues);
    push_body(&mut f, c, accent);
    push_battle(&mut f, c, accent);
    push_flavour(&mut f, c, accent);
    push_footer(&mut f, c, accent);
    let order = push_prices(&mut f, c, accent);
    f.bottom();
    let mut out: Vec<String> = Vec::new();
    let lines = f.lines();
    let mut i: usize = 0;
    while i < lines.len()
        invariant
            i <= lines@.len(),
            strs(out@) == strs(lines@).subrange(0, i as int),
        decreases lines@.len() - i,
    {
        let ghost before = strs(out@);
        out.push(lines[i].clone());
        assert(strs(out@) =~= before.push(lines@[i as int]@));
        i = i + 1;
        assert(strs(out@) =~= strs(lines@).subrange(0, i as int));
    }
    assert(strs(lines@).subrange(0, lines@.len() as int) =~= strs(lines@));
    assert(strs(out@) =~= card_text(*c, inner as nat, hues@, order@));
    assert(card_in_order(out@, *c, inner as nat, hues@, order@));
    out
}

/// Box text width that fills a terminal `cols` wide, leaving room for the
/// margin, the art (`art_cols` wide) and its gutter, and the frame's own
/// four columns; between 50 and 80.
pub open spec fn inner_for(cols: nat, art_cols: Option<nat>) -> nat {
    let art = match art_cols {
        Some(a) => a + 3,
        None => 0,
    };
    clamp(sat_sub(cols as int, (2 + art + 4) as int), 50, 80) as nat
}

pub fn inner_width(cols: usize, art_cols: Option<usize>) -> (r: usize)
    ensures
        r == inner_for(
            cols as nat,
            match art_cols {
                Some(a) => Some(a as nat),
                None => None,
            },
        ),
        50 <= r <= 80,
{
    let art = match art_cols {
        Some(a) => a.saturating_add(GUTTER),
        None => 0,
    };
    let r = cols.saturating_sub(art.saturating_add(PAD_LEFT + 4));
    if r < 50 {
        50
    } else if r > 80 {
        80
    } else {
        r
    }
}

/// The whole card for a terminal `cols` wide: a blank line, the art (`art`,
/// drawn `art_cols` wide, or none) beside the panel, a blank line.
pub open spec fn card_page(
    c: Card,
    art: Seq<Seq<char>>,
    art_cols: nat,
    cols: nat,
    hues: Seq<Rgb>,
    order: Seq<usize>,
) -> Seq<Seq<char>> {
    let inner = inner_for(
        cols,
        if art.len() > 0 {
            Some(art_cols)
        } else {
            None
        },
    );
    seq![Seq::empty()] + margined(beside_lines(art, card_text(c, inner, hues, order), 3)) + seq![
        Seq::empty(),
    ]
}

/// `card_page_lines` took the TCGplayer variants in the order `order`.
pub open spec fn page_in_order(
    r: Seq<String>,
    c: Card,
    art: Seq<Seq<char>>,
    art_cols: nat,
    cols: nat,
    hues: Seq<Rgb>,
    order: Seq<usize>,
) -> bool {
    card_order_fits(c, order) && strs(r) == card_page(c, art, art_cols, cols, hues, order)
}

/// The card for a terminal `cols` wide. `art` is the artwork drawn with
/// `fit` at `art_cols` columns (empty when there is none).
#[verifier::spinoff_prover]
#[verifier::rlimit(30)]
pub fn card_page_lines(
    c: &Card,
    art: &Vec<String>,
    art_cols: usize,
    cols: usize,
    hues: &Vec<Rgb>,
) -> (r: Vec<String>)
    requires
        hues@.len() == c.name@.len(),
        footer_drawable(*c),
    ensures
        exists|order: Seq<usize>|
            #[trigger] page_in_order(r@, *c, strs(art@), art_cols as nat, cols as nat, hues@, order),
{
    let inner = inner_width(
        cols,
        if art.len() > 0 {
            Some(art_cols)
        } else {
            None
        },
    );
    let right = card_lines(c, inner, hues);
    let ghost order = choose|o: Seq<usize>| #[trigger] card_in_order(right@, *c, inner as nat, hues@, o);
    let both = beside(art.as_slice(), right.as_slice(), GUTTER);
    let mut out: Vec<String> = Vec::new();
    out.push(String::new());
    let mut i: usize = 0;
    while i < both.len()
        invariant
            i <= both@.len(),
            strs(out@) == seq![Seq::<char>::empty()] + margined(strs(both@).subrange(0, i as int)),
        decreases both@.len() - i,
    {
        let mut l = String::from_str("  ");
        l.append(both[i].as_str());
        let ghost before = strs(out@);
        out.push(l);
        assert(strs(out@) =~= before.push("  "@ + both@[i as int]@));
        i = i + 1;
        assert(margined(strs(both@).subrange(0, i as int)) =~= margined(
            strs(both@).subrange(0, i - 1),
        ).push("  "@ + both@[i - 1]@));
    }
    assert(strs(both@).subrange(0, both@.len() as int) =~= strs(both@));
    let ghost body = strs(out@);
    out.push(String::new());
    assert(strs(out@) =~= body.push(Seq::<char>::empty()));
    assert(strs(out@) =~= card_page(
        *c,
        strs(art@),
        art_cols as nat,
        cols as nat,
        hues@,
        order,
    ));
    assert(page_in_order(out@, *c, strs(art@), art_cols as nat, cols as nat, hues@, order));
    out
}

/// The card for the current terminal (100 columns when it can't be
/// measured).
pub fn write_card(c: &Card, art: &Vec<String>, art_cols: usize, hues: &Vec<Rgb>) -> (r: Vec<
    String,
>)
    requires
        hues@.len() == c.name@.len(),
        footer_drawable(*c),
    ensures
        exists|cols: nat, order: Seq<usize>|
            (cols == 100 || 0 < cols <= u16::MAX) && #[trigger] page_in_order(
                r@,
                *c,
                strs(art@),
                art_cols as nat,
                cols,
                hues@,
                order,
            ),
{
    let cols = term_cols(FALLBACK_COLS);
    card_page_lines(c, art, art_cols, cols, hues)
}

} // verus!
