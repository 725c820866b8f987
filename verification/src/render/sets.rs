//! Set list (name + counts) and a full set page with logo, metadata and
//! a multi-column card index.

use vstd::prelude::*;
use vstd::string::*;

use super::frame::{
    beside, beside_lines, bottom_text, row_text, rule_text, split_text, top_text, Frame,
};
use super::list::{in_order, local_key, local_num, right_align};
use super::style::{
    bold, bold_text, dim, dim_text, fg, fg_text, legal_badges, legal_text, shaded, term_cols,
    vis_width, visible, Rgb, GOLD,
};
use crate::order::{is_permutation, key_lt, kv, sort_order, stably_sorted, Key};
use crate::tcgdex::card::CardBrief;
use crate::tcgdex::set::{CardCount, CardSet, SetBrief};
use crate::text::{
    chars_of, contains, dec, is_ws, is_ws_exec, join, lemma_join_contains, lemma_lex_irreflexive, lex_lt, join_strings, push_char, push_char_n, push_dec, spaces,
    string_of, strs,
};

verus! {

const PAD_LEFT: usize = 2;

const GUTTER: usize = 3;

const FALLBACK_COLS: usize = 100;

/// The logo sits beside the box: 8 lines tall, up to 36 columns wide.
pub const LOGO_ROWS: usize = 8;

pub const LOGO_COLS: usize = 36;

/// The symbol sits in the info box beside the name: 2 lines, 6-column slot.
pub const SYMBOL_ROWS: usize = 2;

pub const SYMBOL_COLS: usize = 6;

/// Card index columns: local number width and the longest name shown.
const NUM_COL: usize = 4;

const NAME_MAX: usize = 22;

const COL_GAP: usize = 4;

/// Set accent — no type to key off, so a warm neutral.
pub const SET_RGB: Rgb = (220, 180, 120);

// ───────────────────────────────────────────────────────────────────────
// Counts
// ───────────────────────────────────────────────────────────────────────

/// "189 cards · +12 secret", or "189 cards" without secret rares.
pub open spec fn summary_text(c: CardCount) -> Seq<char> {
    if c.total > c.official {
        dec(c.official as nat) + " cards · +"@ + dec((c.total - c.official) as nat) + " secret"@
    } else {
        dec(c.official as nat) + " cards"@
    }
}

/// "189 cards · +12 secret"
pub fn count_summary(c: &CardCount) -> (r: String)
    ensures
        r@ == summary_text(*c),
{
    let mut r = String::new();
    push_dec(&mut r, c.official as u64);
    if c.total > c.official {
        r.append(" cards · +");
        push_dec(&mut r, (c.total - c.official) as u64);
        r.append(" secret");
    } else {
        r.append(" cards");
    }
    r
}

/// A bold count and a dimmed label.
pub open spec fn counted(v: u32, label: Seq<char>) -> Seq<char> {
    bold_text(dec(v as nat)) + " "@ + dim_text(label)
}

/// A count worth showing: present and above zero.
pub open spec fn count_part(v: Option<u32>, label: Seq<char>) -> Seq<Seq<char>> {
    match v {
        Some(x) => if x > 0 {
            seq![counted(x, label)]
        } else {
            Seq::empty()
        },
        None => Seq::empty(),
    }
}

/// "189 official · 201 total · 143 reverse · 21 holo · 4 1st ed"
pub open spec fn detail_text(c: CardCount) -> Seq<char> {
    join(
        seq![counted(c.official, "official"@), counted(c.total, "total"@)] + count_part(
            c.reverse,
            "reverse"@,
        ) + count_part(c.holo, "holo"@) + count_part(c.first_ed, "1st ed"@),
        dim_text(" · "@),
    )
}

/// The count row shows the official and total counts, and every print
/// count (reverse, holo, first edition) that is present and above zero,
/// each with its label.
pub proof fn lemma_count_detail_law(c: CardCount)
    ensures
        contains(detail_text(c), counted(c.official, "official"@)),
        contains(detail_text(c), counted(c.total, "total"@)),
        c.reverse matches Some(v) ==> (v > 0 ==> contains(detail_text(c), counted(v, "reverse"@))),
        c.holo matches Some(v) ==> (v > 0 ==> contains(detail_text(c), counted(v, "holo"@))),
        c.first_ed matches Some(v) ==> (v > 0 ==> contains(detail_text(c), counted(v, "1st ed"@))),
{
    let a = seq![counted(c.official, "official"@), counted(c.total, "total"@)];
    let r = count_part(c.reverse, "reverse"@);
    let h = count_part(c.holo, "holo"@);
    let f = count_part(c.first_ed, "1st ed"@);
    let parts = a + r + h + f;
    let sep = dim_text(" · "@);
    lemma_join_contains(parts, sep, 0);
    lemma_join_contains(parts, sep, 1);
    if r.len() > 0 {
        lemma_join_contains(parts, sep, 2);
        assert(parts[2] == r[0]);
    }
    if h.len() > 0 {
        lemma_join_contains(parts, sep, 2int + r.len());
        assert(parts[2int + r.len()] == h[0]);
    }
    if f.len() > 0 {
        lemma_join_contains(parts, sep, 2int + r.len() + h.len());
        assert(parts[2int + r.len() + h.len()] == f[0]);
    }
}

fn counted_exec(v: u32, label: &str) -> (r: String)
    ensures
        r@ == counted(v, label@),
{
    let mut n = String::new();
    push_dec(&mut n, v as u64);
    let mut r = bold(n.as_str());
    r.append(" ");
    r.append(dim(label).as_str());
    r
}

fn push_count(parts: &mut Vec<String>, v: Option<u32>, label: &str)
    ensures
        strs(final(parts)@) == strs(old(parts)@) + count_part(v, label@),
{
    let ghost before = strs(parts@);
    if let Some(x) = v {
        if x > 0 {
            parts.push(counted_exec(x, label));
        }
    }
    assert(strs(parts@) =~= before + count_part(v, label@));
}

/// "189 official · 201 total · 143 reverse · 21 holo · 4 1st ed"
#[verifier::spinoff_prover]
#[verifier::rlimit(30)]
pub fn count_detail(c: &CardCount) -> (r: String)
    ensures
        r@ == detail_text(*c),
{
    let mut parts: Vec<String> = Vec::new();
    parts.push(counted_exec(c.official, "official"));
    parts.push(counted_exec(c.total, "total"));
    assert(strs(parts@) =~= seq![counted(c.official, "official"@), counted(c.total, "total"@)]);
    push_count(&mut parts, c.reverse, "reverse");
    push_count(&mut parts, c.holo, "holo");
    push_count(&mut parts, c.first_ed, "1st ed");
    join_strings(&parts, dim(" · ").as_str())
}

// ───────────────────────────────────────────────────────────────────────
// Set list
// ───────────────────────────────────────────────────────────────────────

/// The two lines of one set: marker, name and id; then its counts.
pub open spec fn set_entry(s: SetBrief) -> Seq<Seq<char>> {
    seq![
        "  "@ + fg_text("▌"@, SET_RGB) + " "@ + bold_text(s.name@) + "  "@ + dim_text(s.id@),
        "  "@ + "  "@ + dim_text(summary_text(s.card_count)),
    ]
}

/// The entries of the first `k` sets.
pub open spec fn set_entries(sets: Seq<SetBrief>, k: nat) -> Seq<Seq<char>>
    decreases k,
{
    if k == 0 {
        Seq::empty()
    } else {
        set_entries(sets, (k - 1) as nat) + set_entry(sets[k - 1])
    }
}

///   168 sets
///
///   ▌ Darkness Ablaze  swsh3
///     189 cards · +12 secret
pub open spec fn set_list_text(sets: Seq<SetBrief>) -> Seq<Seq<char>> {
    seq![Seq::empty(), "  "@ + bold_text(dec(sets.len()) + " sets"@), Seq::empty()] + set_entries(
        sets,
        sets.len(),
    ) + seq![Seq::empty()]
}

/// The lines of the set list.
#[verifier::spinoff_prover]
#[verifier::rlimit(30)]
pub fn write_sets(sets: &[SetBrief]) -> (r: Vec<String>)
    ensures
        strs(r@) == set_list_text(sets@),
{
    let mut out: Vec<String> = Vec::new();
    out.push(String::new());
    let mut n = String::new();
    push_dec(&mut n, sets.len() as u64);
    n.append(" sets");
    let mut head = String::from_str("  ");
    head.append(bold(n.as_str()).as_str());
    let ghost hv = head@;
    assert(hv == "  "@ + bold_text(dec(sets@.len()) + " sets"@));
    out.push(head);
    out.push(String::new());
    let ghost top = strs(out@);
    assert(top =~= seq![Seq::<char>::empty(), hv, Seq::<char>::empty()]);
    let mut i: usize = 0;
    while i < sets.len()
        invariant
            i <= sets@.len(),
            strs(out@) == top + set_entries(sets@, i as nat),
        decreases sets@.len() - i,
    {
        let s = &sets[i];
        let ghost before = strs(out@);
        let mut a = String::from_str("  ");
        a.append(fg("▌", SET_RGB).as_str());
        a.append(" ");
        a.append(bold(s.name.as_str()).as_str());
        a.append("  ");
        a.append(dim(s.id.as_str()).as_str());
        let mut b = String::from_str("    ");
        b.append(dim(count_summary(&s.card_count).as_str()).as_str());
        proof {
            reveal_strlit("    ");
            reveal_strlit("  ");
            assert("    "@ =~= "  "@ + "  "@);
        }
        let ghost av = a@;
        let ghost bv = b@;
        out.push(a);
        out.push(b);
        assert(strs(out@) =~= before + seq![av, bv]);
        assert(seq![av, bv] =~= set_entry(sets@[i as int]));
        i = i + 1;
    }
    let ghost body = strs(out@);
    out.push(String::new());
    assert(strs(out@) =~= body.push(Seq::<char>::empty()));
    assert(strs(out@) =~= set_list_text(sets@));
    out
}

// ───────────────────────────────────────────────────────────────────────
// Card index
// ───────────────────────────────────────────────────────────────────────

/// The sort key of a card in the index: its local number, then its id.
pub open spec fn index_key(c: CardBrief) -> (Seq<char>, nat, Seq<char>) {
    (Seq::empty(), local_num(c.local_id@), c.local_id@)
}

pub open spec fn index_keys(cards: Seq<CardBrief>) -> Seq<(Seq<char>, nat, Seq<char>)> {
    cards.map_values(|c: CardBrief| index_key(c))
}

/// The longest name, in characters.
pub open spec fn max_name(cards: Seq<CardBrief>) -> nat
    decreases cards.len(),
{
    if cards.len() == 0 {
        0
    } else {
        let m = max_name(cards.drop_last());
        let l = cards.last().name@.len();
        if l > m {
            l
        } else {
            m
        }
    }
}

/// Names longer than 22 characters cut to 21 and `…`.
pub open spec fn short_name(name: Seq<char>) -> Seq<char> {
    if name.len() > 22 {
        name.subrange(0, 21).push('…')
    } else {
        name
    }
}

/// A cell: the local number right-aligned in 4 columns, dimmed, then the
/// name, padded with spaces to `cell_w` visible columns.
pub open spec fn grid_cell(c: CardBrief, cell_w: nat) -> Seq<char> {
    let text = dim_text(right_align(c.local_id@, 4)) + "  "@ + short_name(c.name@);
    text + spaces(
        if visible(text) <= cell_w {
            (cell_w - visible(text)) as nat
        } else {
            0
        },
    )
}

/// How many of the first `k` columns have a card in row `r`: the cards
/// run down the rows, then across.
pub open spec fn row_count(n: nat, r: nat, nrows: nat, k: nat) -> nat
    decreases k,
{
    if k == 0 {
        0
    } else if (k - 1) * nrows + r < n {
        k
    } else {
        row_count(n, r, nrows, (k - 1) as nat)
    }
}

/// `s` without trailing whitespace.
pub open spec fn trim_end(s: Seq<char>) -> Seq<char>
    decreases s.len(),
{
    if s.len() > 0 && is_ws(s.last()) {
        trim_end(s.drop_last())
    } else {
        s
    }
}

/// Columns that fit in `width`: cells `cell_w` wide, 4 spaces between.
pub open spec fn grid_cols(width: nat, cell_w: nat) -> nat {
    let c = (width + 4) / (cell_w + 4);
    if c >= 1 {
        c
    } else {
        1
    }
}

/// As many columns as fit: `k` columns take `k` cells and `k - 1` gaps,
/// and that fits in `width` (unless a single cell is already too wide),
/// while one column more would not.
pub proof fn lemma_grid_cols_law(width: nat, cell_w: nat)
    ensures
        grid_cols(width, cell_w) >= 1,
        grid_cols(width, cell_w) == 1 || grid_cols(width, cell_w) * cell_w + (grid_cols(
            width,
            cell_w,
        ) - 1) * 4 <= width,
        (grid_cols(width, cell_w) + 1) * cell_w + grid_cols(width, cell_w) * 4 > width,
{
    let d = (cell_w + 4) as int;
    let n = (width + 4) as int;
    let c = n / d;
    vstd::arithmetic::div_mod::lemma_fundamental_div_mod(n, d);
    vstd::arithmetic::div_mod::lemma_mod_bound(n, d);
    let k = grid_cols(width, cell_w) as int;
    assert(c * d <= n < (c + 1) * d) by (nonlinear_arith)
        requires
            n == d * c + n % d,
            0 <= n % d < d,
    ;
    assert(k * cell_w + (k - 1) * 4 == k * d - 4) by (nonlinear_arith)
        requires
            d == cell_w + 4,
    ;
    assert((k + 1) * cell_w + k * 4 == (k + 1) * d - 4) by (nonlinear_arith)
        requires
            d == cell_w + 4,
    ;
    if c >= 1 {
        assert(k == c);
    } else {
        assert(k == 1);
        assert(2 * d > n) by (nonlinear_arith)
            requires
                n < (c + 1) * d,
                c <= 0,
                d > 0,
        ;
    }
}

/// A name in the index is at most 22 characters: itself when it fits,
/// else cut.
pub proof fn lemma_short_name_law(name: Seq<char>)
    ensures
        short_name(name).len() == if name.len() <= 22 {
            name.len()
        } else {
            22
        },
        name.len() <= 22 ==> short_name(name) == name,
{
}

/// Cards laid out column-major (read down, then across), as many columns
/// as fit in `width`; each row's trailing spaces trimmed.
#[verifier::opaque]
pub open spec fn grid_text(sorted: Seq<CardBrief>, width: nat) -> Seq<Seq<char>> {
    let name_w = if max_name(sorted) <= 22 {
        max_name(sorted)
    } else {
        22
    };
    let cell_w = 6 + name_w;
    let ncols = grid_cols(width, cell_w);
    let nrows = (sorted.len() + ncols - 1) as nat / ncols;
    Seq::new(
        nrows,
        |r: int|
            trim_end(
                join(
                    Seq::new(
                        row_count(sorted.len(), r as nat, nrows, ncols),
                        |c: int| grid_cell(sorted[c * nrows + r], cell_w),
                    ),
                    spaces(4),
                ),
            ),
    )
}

/// The index is sorted by local number, and cards of equal number (promo
/// ids, which have no number) come in string order of their local ids.
pub proof fn lemma_index_order(cards: Seq<CardBrief>, p: Seq<usize>)
    requires
        is_permutation(p, cards.len()),
        stably_sorted(index_keys(cards), p),
    ensures
        forall|a: int, b: int|
            0 <= a < b < p.len() ==> {
                let x = #[trigger] in_order(cards, p)[a];
                let y = #[trigger] in_order(cards, p)[b];
                &&& local_num(x.local_id@) <= local_num(y.local_id@)
                &&& local_num(x.local_id@) == local_num(y.local_id@) ==> !lex_lt(
                    y.local_id@,
                    x.local_id@,
                )
            },
{
    let s = in_order(cards, p);
    let keys = index_keys(cards);
    assert forall|a: int, b: int| 0 <= a < b < p.len() implies {
        let x = #[trigger] s[a];
        let y = #[trigger] s[b];
        &&& local_num(x.local_id@) <= local_num(y.local_id@)
        &&& local_num(x.local_id@) == local_num(y.local_id@) ==> !lex_lt(y.local_id@, x.local_id@)
    } by {
        assert(s[a] == cards[p[a] as int] && s[b] == cards[p[b] as int]);
        assert(keys[p[a] as int] == index_key(cards[p[a] as int]));
        assert(keys[p[b] as int] == index_key(cards[p[b] as int]));
        assert(!key_lt(keys[p[b] as int], keys[p[a] as int]));
        lemma_lex_irreflexive(Seq::<char>::empty());
    }
}

/// `card_grid` laid out the cards in the order `p`.
pub open spec fn grid_in_order(r: Seq<String>, cards: Seq<CardBrief>, width: nat, p: Seq<usize>) -> bool {
    &&& is_permutation(p, cards.len())
    &&& stably_sorted(index_keys(cards), p)
    &&& strs(r) == grid_text(in_order(cards, p), width)
}

fn trim_end_string(s: &str) -> (r: String)
    ensures
        r@ == trim_end(s@),
{
    let v = chars_of(s);
    let mut e: usize = v.len();
    assert(v@.subrange(0, e as int) =~= v@);
    while e > 0 && is_ws_exec(v[e - 1])
        invariant
            e <= v@.len(),
            trim_end(v@.subrange(0, e as int)) == trim_end(v@),
        decreases e,
    {
        assert(v@.subrange(0, e as int).drop_last() =~= v@.subrange(0, e - 1));
        e = e - 1;
    }
    assert(v@.subrange(0, v@.len() as int) =~= v@);
    let mut r = String::new();
    let mut k: usize = 0;
    while k < e
        invariant
            k <= e,
            e <= v@.len(),
            r@ == v@.subrange(0, k as int),
        decreases e - k,
    {
        push_char(&mut r, v[k]);
        k = k + 1;
        assert(r@ =~= v@.subrange(0, k as int));
    }
    r
}

fn grid_cell_exec(c: &CardBrief, cell_w: usize) -> (r: String)
    ensures
        r@ == grid_cell(*c, cell_w as nat),
{
    let name = chars_of(c.name.as_str());
    let short: Vec<char> = if name.len() > NAME_MAX {
        let mut t: Vec<char> = Vec::new();
        let mut i: usize = 0;
        while i < NAME_MAX - 1
            invariant
                i <= NAME_MAX - 1,
                name@.len() > 22,
                t@ == name@.subrange(0, i as int),
            decreases NAME_MAX - 1 - i,
        {
            t.push(name[i]);
            i = i + 1;
            assert(t@ =~= name@.subrange(0, i as int));
        }
        t.push('…');
        t
    } else {
        name
    };
    let mut num = String::new();
    let len = chars_of(c.local_id.as_str()).len();
    if len < NUM_COL {
        push_char_n(&mut num, ' ', NUM_COL - len);
    }
    num.append(c.local_id.as_str());
    assert(num@ =~= right_align(c.local_id@, 4));
    let mut text = dim(num.as_str());
    text.append("  ");
    text.append(string_of(&short).as_str());
    let w = vis_width(text.as_str());
    let pad = cell_w.saturating_sub(w);
    push_char_n(&mut text, ' ', pad);
    text
}

proof fn lemma_row_count(n: nat, r: nat, nrows: nat, c: nat, k: nat)
    requires
        c <= k,
        nrows > 0,
        forall|j: nat| j < c ==> #[trigger] (j * nrows) + r < n,
        c * nrows + r >= n || c == k,
    ensures
        row_count(n, r, nrows, k) == c,
    decreases k,
{
    if k > c {
        assert((k - 1) * nrows >= c * nrows) by (nonlinear_arith)
            requires
                k - 1 >= c,
                nrows > 0,
        ;
        lemma_row_count(n, r, nrows, c, (k - 1) as nat);
    } else if k > 0 {
        let j = (k - 1) as nat;
        assert(j * nrows + r < n);
    }
}

proof fn lemma_ceil_div(n: nat, d: nat)
    requires
        d > 0,
    ensures
        (n + d - 1) as nat / d == n / d + (if n % d != 0 {
            1nat
        } else {
            0nat
        }),
{
    vstd::arithmetic::div_mod::lemma_fundamental_div_mod(n as int, d as int);
    let q = n / d;
    let m = n % d;
    if m != 0 {
        assert((n + d - 1) as int == (q + 1) * d + (m - 1)) by (nonlinear_arith)
            requires
                n == d * q + m,
        ;
        vstd::arithmetic::div_mod::lemma_fundamental_div_mod_converse(
            (n + d - 1) as int,
            d as int,
            (q + 1) as int,
            m - 1,
        );
    } else {
        assert((n + d - 1) as int == q * d + (d - 1)) by (nonlinear_arith)
            requires
                n == d * q + m,
                m == 0,
        ;
        vstd::arithmetic::div_mod::lemma_fundamental_div_mod_converse(
            (n + d - 1) as int,
            d as int,
            q as int,
            d - 1,
        );
    }
}

fn index_sort_keys(cards: &[CardBrief]) -> (keys: Vec<Key>)
    ensures
        keys@.map_values(|k: Key| kv(k)) == index_keys(cards@),
{
    let mut keys: Vec<Key> = Vec::new();
    let mut i: usize = 0;
    while i < cards.len()
        invariant
            i <= cards@.len(),
            keys@.map_values(|k: Key| kv(k)) == index_keys(cards@).subrange(0, i as int),
        decreases cards@.len() - i,
    {
        let (num, _) = local_key(cards[i].local_id.as_str());
        let ghost before = keys@.map_values(|k: Key| kv(k));
        keys.push((Vec::new(), num as u64, chars_of(cards[i].local_id.as_str())));
        assert(keys@.map_values(|k: Key| kv(k)) =~= before.push(index_key(cards@[i as int])));
        i = i + 1;
        assert(index_keys(cards@).subrange(0, i as int) =~= index_keys(cards@).subrange(
            0,
            i - 1,
        ).push(index_key(cards@[i - 1])));
    }
    assert(index_keys(cards@).subrange(0, cards@.len() as int) =~= index_keys(cards@));
    keys
}

/// Cards laid out column-major (read down, then across), as many columns
/// as fit in `width`. Names longer than 22 characters are cut with `…`.
#[verifier::spinoff_prover]
#[verifier::rlimit(30)]
pub fn card_grid(cards: &[CardBrief], width: usize) -> (r: Vec<String>)
    requires
        width + 4 <= usize::MAX,
    ensures
        exists|p: Seq<usize>| #[trigger] grid_in_order(r@, cards@, width as nat, p),
{
    let keys = index_sort_keys(cards);
    assert(keys@.len() == keys@.map_values(|k: Key| kv(k)).len());
    let order = sort_order(&keys);
    let ghost sorted = in_order(cards@, order@);
    let n = order.len();
    let mut longest: usize = 0;
    let mut i: usize = 0;
    while i < n
        invariant
            i <= n,
            n == order@.len(),
            is_permutation(order@, cards@.len()),
            sorted == in_order(cards@, order@),
            longest == max_name(sorted.subrange(0, i as int)),
        decreases n - i,
    {
        let l = chars_of(cards[order[i]].name.as_str()).len();
        assert(sorted.subrange(0, i + 1).drop_last() =~= sorted.subrange(0, i as int));
        if l > longest {
            longest = l;
        }
        i = i + 1;
    }
    assert(sorted.subrange(0, n as int) =~= sorted);
    let name_w = if longest <= NAME_MAX {
        longest
    } else {
        NAME_MAX
    };
    let cell_w = NUM_COL + 2 + name_w;
    let mut ncols = (width + COL_GAP) / (cell_w + COL_GAP);
    if ncols < 1 {
        ncols = 1;
    }
    let q = n / ncols;
    proof {
        vstd::arithmetic::div_mod::lemma_fundamental_div_mod(n as int, ncols as int);
        if n % ncols != 0 {
            assert(q < n) by (nonlinear_arith)
                requires
                    n == ncols * q + n % ncols,
                    n % ncols > 0,
                    ncols >= 1,
                    q >= 0,
            ;
        }
    }
    let nrows = if n % ncols != 0 {
        q + 1
    } else {
        q
    };
    proof {
        lemma_ceil_div(n as nat, ncols as nat);
    }
    let ghost want = grid_text(sorted, width as nat);
    reveal(grid_text);
    assert(want.len() == nrows);
    let gap = String::from_str("    ");
    proof {
        reveal_strlit("    ");
        crate::text::lemma_repeat_one_len(' ', 4);
        assert forall|k: int| 0 <= k < 4 implies gap@[k] == spaces(4)[k] by {
            crate::text::lemma_repeat_char(' ', 4, k);
        }
        assert(gap@ =~= spaces(4));
    }
    let mut out: Vec<String> = Vec::new();
    let mut r: usize = 0;
    while r < nrows
        invariant
            r <= nrows,
            n == order@.len(),
            n == sorted.len(),
            is_permutation(order@, cards@.len()),
            sorted == in_order(cards@, order@),
            ncols >= 1,
            nrows == (n + ncols - 1) as nat / (ncols as nat),
            nrows == n / ncols + (if n % ncols != 0 {
                1nat
            } else {
                0nat
            }),
            cell_w == 6 + (if max_name(sorted) <= 22 {
                max_name(sorted)
            } else {
                22
            }),
            ncols == grid_cols(width as nat, cell_w as nat),
            gap@ == spaces(4),
            want == grid_text(sorted, width as nat),
            strs(out@) == want.subrange(0, r as int),
        decreases nrows - r,
    {
        let ghost cells = Seq::new(
            row_count(n as nat, r as nat, nrows as nat, ncols as nat),
            |c: int| grid_cell(sorted[c * nrows + r], cell_w as nat),
        );
        let mut parts: Vec<String> = Vec::new();
        let mut c: usize = 0;
        let mut idx: usize = r;
        let mut more = r < n;
        while c < ncols && more
            invariant
                c <= ncols,
                r < nrows,
                n == sorted.len(),
                n == order@.len(),
                is_permutation(order@, cards@.len()),
                sorted == in_order(cards@, order@),
                nrows > 0,
                more ==> idx == c * nrows + r && idx < n,
                !more ==> c * nrows + r >= n,
                forall|j: nat| j < c ==> #[trigger] (j * nrows) + r < n,
                strs(parts@) == Seq::new(
                    c as nat,
                    |k: int| grid_cell(sorted[k * nrows + r], cell_w as nat),
                ),
            decreases ncols - c,
        {
            let ghost before = strs(parts@);
            assert(sorted[idx as int] == cards@[order@[idx as int] as int]);
            parts.push(grid_cell_exec(&cards[order[idx]], cell_w));
            assert(strs(parts@) =~= before.push(grid_cell(sorted[c * nrows + r], cell_w as nat)));
            assert(strs(parts@) =~= Seq::new(
                (c + 1) as nat,
                |k: int| grid_cell(sorted[k * nrows + r], cell_w as nat),
            ));
            assert((c as nat) * (nrows as nat) + r < n);
            c = c + 1;
            assert((c as nat) * (nrows as nat) == (c - 1) as nat * (nrows as nat) + nrows) by (
            nonlinear_arith)
                requires
                    c >= 1,
            ;
            if n - idx > nrows {
                idx = idx + nrows;
            } else {
                more = false;
            }
        }
        proof {
            lemma_row_count(n as nat, r as nat, nrows as nat, c as nat, ncols as nat);
            assert(strs(parts@) =~= cells);
        }
        let line = trim_end_string(join_strings(&parts, gap.as_str()).as_str());
        proof {
            reveal(grid_text);
        }
        let ghost before = strs(out@);
        out.push(line);
        assert(strs(out@) =~= before.push(want[r as int]));
        r = r + 1;
        assert(strs(out@) =~= want.subrange(0, r as int));
    }
    assert(want.subrange(0, nrows as int) =~= want);
    assert(grid_in_order(out@, cards@, width as nat, order@));
    out
}

// ───────────────────────────────────────────────────────────────────────
// Single set
// ───────────────────────────────────────────────────────────────────────

/// `v` clamped to `[lo, hi]`.
pub open spec fn clamp(v: int, lo: int, hi: int) -> int {
    if v < lo {
        lo
    } else if v > hi {
        hi
    } else {
        v
    }
}

/// `a - b`, or 0 when `b` is larger.
pub open spec fn sat_sub(a: int, b: int) -> int {
    if a > b {
        a - b
    } else {
        0
    }
}

/// The metadata of a set: series, release date, TCG Online code.
pub open spec fn set_meta(s: CardSet) -> Seq<Seq<char>> {
    seq![fg_text(s.serie.name@, SET_RGB), dim_text("released "@ + s.release_date@)] + match s.tcg_online {
        Some(code) => seq![dim_text("TCGO "@ + code@)],
        None => Seq::empty(),
    }
}

/// The names of some boosters.
pub open spec fn booster_names(b: Seq<crate::tcgdex::set::Booster>) -> Seq<Seq<char>> {
    b.map_values(|x: crate::tcgdex::set::Booster| x.name@)
}

/// The packs row, when the set has boosters.
pub open spec fn packs_rows(s: CardSet, border: Rgb, inner: nat) -> Seq<Seq<char>> {
    match s.boosters {
        Some(b) => if b@.len() > 0 {
            seq![row_text(border, inner, dim_text("Packs: "@ + join(booster_names(b@), ", "@)))]
        } else {
            Seq::empty()
        },
        None => Seq::empty(),
    }
}

/// The info box: symbol beside name and id, metadata, counts, legality,
/// packs.
#[verifier::opaque]
pub open spec fn set_box(s: CardSet, sym: Seq<Seq<char>>, inner: nat) -> Seq<Seq<char>> {
    let border = shaded(SET_RGB, 55);
    seq![
        top_text(border, inner),
        split_text(
            border,
            inner,
            sym[0] + " "@ + fg_text("▌"@, SET_RGB) + " "@ + bold_text(fg_text(s.name@, GOLD)),
            dim_text(s.id@),
        ),
        row_text(border, inner, sym[1] + "   "@ + join(set_meta(s), dim_text(" · "@))),
        rule_text(SET_RGB, border, inner),
        row_text(border, inner, detail_text(s.card_count)),
        row_text(border, inner, legal_text(s.legal.standard, s.legal.expanded)),
    ] + packs_rows(s, border, inner) + seq![bottom_text(border, inner)]
}

/// The width inside the box, leaving room for the margin, the logo and
/// its gutter, and the box's own four columns.
pub open spec fn set_inner(cols: nat, logo: Seq<Seq<char>>) -> nat {
    let logo_cols = if logo.len() > 0 {
        visible(logo[0]) + 3
    } else {
        0
    };
    clamp(sat_sub(cols as int, (2 + logo_cols + 4) as int), 50, 80) as nat
}

/// `lines`, each after the left margin.
pub open spec fn margined(lines: Seq<Seq<char>>) -> Seq<Seq<char>> {
    lines.map_values(|l: Seq<char>| "  "@ + l)
}

/// The set page for a terminal `cols` wide with the index laid out in
/// the order `p`: logo (if any) beside the info box, then the card count
/// and the card index.
pub open spec fn set_page(
    s: CardSet,
    logo: Seq<Seq<char>>,
    sym: Seq<Seq<char>>,
    cols: nat,
    p: Seq<usize>,
) -> Seq<Seq<char>> {
    let inner = set_inner(cols, logo);
    seq![Seq::empty()] + margined(beside_lines(logo, set_box(s, sym, inner), 3)) + seq![
        Seq::empty(),
        "  "@ + bold_text(dec(s.cards@.len()) + " cards"@),
    ] + margined(grid_text(in_order(s.cards@, p), sat_sub(cols as int, 2) as nat)) + seq![
        Seq::empty(),
    ]
}

/// `set_lines` laid out the card index in the order `p`.
pub open spec fn page_in_order(
    r: Seq<String>,
    s: CardSet,
    logo: Seq<Seq<char>>,
    sym: Seq<Seq<char>>,
    cols: nat,
    p: Seq<usize>,
) -> bool {
    &&& is_permutation(p, s.cards@.len())
    &&& stably_sorted(index_keys(s.cards@), p)
    &&& strs(r) == set_page(s, logo, sym, cols, p)
}

/// The symbol slot when the set has no symbol: two lines of 6 spaces.
pub open spec fn blank_symbol() -> Seq<Seq<char>> {
    seq![spaces(6), spaces(6)]
}

/// The symbol's lines, or the blank slot.
pub open spec fn symbol_view(symbol: Option<&Vec<String>>) -> Seq<Seq<char>> {
    match symbol {
        Some(v) => strs(v@),
        None => blank_symbol(),
    }
}

fn push_margined(out: &mut Vec<String>, lines: &Vec<String>)
    ensures
        strs(final(out)@) == strs(old(out)@) + margined(strs(lines@)),
{
    let ghost start = strs(out@);
    let mut i: usize = 0;
    while i < lines.len()
        invariant
            i <= lines@.len(),
            strs(out@) == start + margined(strs(lines@).subrange(0, i as int)),
        decreases lines@.len() - i,
    {
        let mut l = String::from_str("  ");
        l.append(lines[i].as_str());
        let ghost before = strs(out@);
        out.push(l);
        assert(strs(out@) =~= before.push("  "@ + lines@[i as int]@));
        i = i + 1;
        assert(margined(strs(lines@).subrange(0, i as int)) =~= margined(
            strs(lines@).subrange(0, i - 1),
        ).push("  "@ + lines@[i - 1]@));
    }
    assert(strs(lines@).subrange(0, lines@.len() as int) =~= strs(lines@));
}

/// The lines of the info box.
#[verifier::spinoff_prover]
#[verifier::rlimit(40)]
fn set_box_lines(s: &CardSet, sym: &Vec<String>, inner: usize) -> (r: Vec<String>)
    requires
        sym@.len() >= 2,
        50 <= inner <= 80,
    ensures
        strs(r@) == set_box(*s, strs(sym@), inner as nat),
{
    let mut f = Frame::new(inner, SET_RGB);
    f.top();
    let mut left = String::new();
    left.append(sym[0].as_str());
    left.append(" ");
    left.append(fg("▌", SET_RGB).as_str());
    left.append(" ");
    left.append(bold(fg(s.name.as_str(), GOLD).as_str()).as_str());
    f.split(left.as_str(), dim(s.id.as_str()).as_str());
    let mut meta: Vec<String> = Vec::new();
    meta.push(fg(s.serie.name.as_str(), SET_RGB));
    let mut rel = String::from_str("released ");
    rel.append(s.release_date.as_str());
    meta.push(dim(rel.as_str()));
    if let Some(code) = &s.tcg_online {
        let mut t = String::from_str("TCGO ");
        t.append(code.as_str());
        meta.push(dim(t.as_str()));
    }
    assert(strs(meta@) =~= set_meta(*s));
    let mut second = String::new();
    second.append(sym[1].as_str());
    second.append("   ");
    second.append(join_strings(&meta, dim(" · ").as_str()).as_str());
    f.row(second.as_str());
    f.rule();
    f.row(count_detail(&s.card_count).as_str());
    f.row(legal_badges(s.legal.standard, s.legal.expanded).as_str());
    let ghost mid = f.text();
    if let Some(boosters) = &s.boosters {
        if boosters.len() > 0 {
            let mut names: Vec<String> = Vec::new();
            let mut i: usize = 0;
            while i < boosters.len()
                invariant
                    i <= boosters@.len(),
                    strs(names@) == booster_names(boosters@).subrange(0, i as int),
                decreases boosters@.len() - i,
            {
                let ghost before = strs(names@);
                names.push(boosters[i].name.clone());
                assert(strs(names@) =~= before.push(boosters@[i as int].name@));
                i = i + 1;
                assert(booster_names(boosters@).subrange(0, i as int) =~= booster_names(
                    boosters@,
                ).subrange(0, i - 1).push(boosters@[i - 1].name@));
            }
            assert(booster_names(boosters@).subrange(0, boosters@.len() as int) =~= booster_names(
                boosters@,
            ));
            let mut packs = String::from_str("Packs: ");
            packs.append(join_strings(&names, ", ").as_str());
            f.row(dim(packs.as_str()).as_str());
        }
    }
    assert(f.text() =~= mid + packs_rows(*s, shaded(SET_RGB, 55), inner as nat));
    f.bottom();
    reveal(set_box);
    assert(f.text() =~= set_box(*s, sym@.map_values(|l: String| l@), inner as nat));
    let mut out: Vec<String> = Vec::new();
    let lines = f.lines();
    let mut i: usize = 0;
    while i < lines.len()
        invariant
            i <= lines@.len(),
            strs(out@) == strs(lines@).subrange(0, i as int),
        decreases lines@.len() - i,
    {
        let ghost before = strs(out@);
        out.push(lines[i].clone());
        assert(strs(out@) =~= before.push(lines@[i as int]@));
        i = i + 1;
        assert(strs(out@) =~= strs(lines@).subrange(0, i as int));
    }
    assert(strs(lines@).subrange(0, lines@.len() as int) =~= strs(lines@));
    out
}

/// The set page for a terminal `cols` wide. `logo` is the logo drawn as a
/// sprite (or nothing), `symbol` the set symbol drawn as a two-line sprite.
#[verifier::spinoff_prover]
#[verifier::rlimit(30)]
pub fn set_lines(
    s: &CardSet,
    logo: &Vec<String>,
    symbol: Option<&Vec<String>>,
    cols: usize,
) -> (r: Vec<String>)
    requires
        cols + 2 <= usize::MAX,
        symbol matches Some(v) ==> v@.len() >= 2,
    ensures
        exists|p: Seq<usize>|
            #[trigger] page_in_order(
                r@,
                *s,
                strs(logo@),
                symbol_view(symbol),
                cols as nat,
                p,
            ),
{
    let logo_cols: usize = if logo.len() > 0 {
        vis_width(logo[0].as_str()).saturating_add(GUTTER)
    } else {
        0
    };
    let used = logo_cols.saturating_add(PAD_LEFT + 4);
    let mut inner = cols.saturating_sub(used);
    if inner < 50 {
        inner = 50;
    } else if inner > 80 {
        inner = 80;
    }
    let ghost lv = strs(logo@);
    assert(inner == set_inner(cols as nat, lv));
    let blank_sym: Vec<String> = vec![spaces_string_6(), spaces_string_6()];
    let sym: &Vec<String> = match symbol {
        Some(v) => v,
        None => &blank_sym,
    };
    let ghost sv = strs(sym@);
    assert(sv == symbol_view(symbol));
    let box_lines = set_box_lines(s, sym, inner);
    let boxed = beside(logo.as_slice(), box_lines.as_slice(), GUTTER);
    let ghost bx = margined(beside_lines(lv, set_box(*s, sv, inner as nat), 3));
    let mut out: Vec<String> = Vec::new();
    out.push(String::new());
    assert(strs(out@) =~= seq![Seq::<char>::empty()]);
    push_margined(&mut out, &boxed);
    assert(strs(out@) == seq![Seq::<char>::empty()] + bx);
    let ghost a1 = strs(out@);
    out.push(String::new());
    let mut count = String::new();
    push_dec(&mut count, s.cards.len() as u64);
    count.append(" cards");
    let mut head = String::from_str("  ");
    head.append(bold(count.as_str()).as_str());
    let ghost hv = head@;
    assert(hv == "  "@ + bold_text(dec(s.cards@.len()) + " cards"@));
    out.push(head);
    let ghost upper = strs(out@);
    assert(upper =~= a1 + seq![Seq::<char>::empty(), hv]);
    let width = cols.saturating_sub(PAD_LEFT);
    assert(width as nat == sat_sub(cols as int, 2) as nat);
    let grid = card_grid(s.cards.as_slice(), width);
    let ghost p = choose|p: Seq<usize>| #[trigger] grid_in_order(grid@, s.cards@, width as nat, p);
    push_margined(&mut out, &grid);
    let ghost a2 = strs(out@);
    assert(a2 == upper + margined(grid_text(in_order(s.cards@, p), width as nat)));
    out.push(String::new());
    assert(strs(out@) =~= a2.push(Seq::<char>::empty()));
    assert(strs(out@) =~= set_page(*s, lv, sv, cols as nat, p));
    assert(page_in_order(out@, *s, lv, sv, cols as nat, p));
    out
}

fn spaces_string_6() -> (r: String)
    ensures
        r@ == spaces(6),
{
    crate::text::spaces_string(SYMBOL_COLS)
}

/// The set page for the current terminal (100 columns when it can't be
/// measured).
pub fn write_set(s: &CardSet, logo: &Vec<String>, symbol: Option<&Vec<String>>) -> (r: Vec<String>)
    requires
        symbol matches Some(v) ==> v@.len() >= 2,
    ensures
        exists|cols: nat, p: Seq<usize>|
            (cols == 100 || 0 < cols <= u16::MAX) && #[trigger] page_in_order(
                r@,
                *s,
                strs(logo@),
                symbol_view(symbol),
                cols,
                p,
            ),
{
    let cols = term_cols(FALLBACK_COLS);
    set_lines(s, logo, symbol, cols)
}

} // verus!
