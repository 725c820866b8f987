//! Search results: cards grouped by set, one line each.

use vstd::prelude::*;
use vstd::string::*;

use super::style::{bold, bold_text, dim, dim_text, fg, fg_text, lemma_dec_digits, Rgb};
use crate::order::{is_permutation, key_lt, kv, sort_order, stably_sorted, Key};
use crate::tcgdex::card::CardBrief;
use crate::text::{
    chars_eq, chars_of, dec, digit, lemma_dec_nonempty, lemma_lex_irreflexive, lemma_lex_total, lemma_lex_trans, lex_lt,
    push_char_n, push_dec, spaces, strs,
};

verus! {

const PAD_LEFT: usize = 2;

/// Right-aligned width of the local number column ("004", "SWSH261").
const NUM_COL: usize = 7;

// ── Local numbers ────────────────────────────────────────────────────

pub open spec fn is_digit(c: char) -> bool {
    '0' <= c && c <= '9'
}

/// The value of a run of decimal digits.
pub open spec fn digits_value(d: Seq<char>) -> nat
    decreases d.len(),
{
    if d.len() == 0 {
        0
    } else {
        digits_value(d.drop_last()) * 10 + ((d.last() as nat) - 48) as nat
    }
}

/// `s` without one leading `+`.
pub open spec fn unsigned_part(s: Seq<char>) -> Seq<char> {
    if s.len() > 0 && s[0] == '+' {
        s.drop_first()
    } else {
        s
    }
}

pub open spec fn all_digits(d: Seq<char>) -> bool {
    forall|i: int| 0 <= i < d.len() ==> is_digit(#[trigger] d[i])
}

/// What `str::parse::<u32>` gives: an optional `+`, then at least one
/// ASCII digit and nothing else, with a value that fits in a `u32`.
pub open spec fn parsed_u32(s: Seq<char>) -> Option<u32> {
    let d = unsigned_part(s);
    if d.len() == 0 || !all_digits(d) || digits_value(d) > u32::MAX {
        None
    } else {
        Some(digits_value(d) as u32)
    }
}

/// `s.parse::<u32>()`.
#[verifier::spinoff_prover]
#[verifier::rlimit(30)]
pub fn parse_u32(s: &Vec<char>) -> (r: Option<u32>)
    ensures
        r == parsed_u32(s@),
{
    let start: usize = if s.len() > 0 && s[0] == '+' {
        1
    } else {
        0
    };
    let ghost d = unsigned_part(s@);
    assert(d =~= s@.subrange(start as int, s@.len() as int));
    if start == s.len() {
        return None;
    }
    let mut value: u64 = 0;
    let mut i: usize = start;
    let mut overflow = false;
    while i < s.len()
        invariant
            start <= i <= s.len(),
            start < s.len(),
            d == s@.subrange(start as int, s@.len() as int),
            d == unsigned_part(s@),
            forall|k: int| start <= k < i ==> is_digit(#[trigger] s@[k]),
            !overflow ==> value == digits_value(s@.subrange(start as int, i as int)),
            !overflow ==> value <= u32::MAX,
            overflow ==> digits_value(s@.subrange(start as int, i as int)) > u32::MAX,
        decreases s.len() - i,
    {
        let c = s[i];
        if !('0' <= c && c <= '9') {
            assert(d[i - start] == c);
            assert(!is_digit(d[i - start]));
            assert(!all_digits(d));
            return None;
        }
        let ghost p = s@.subrange(start as int, i + 1);
        assert(p.drop_last() =~= s@.subrange(start as int, i as int));
        assert(p.last() == c);
        if !overflow {
            let v = value * 10 + ((c as u32) - 48) as u64;
            if v > 4294967295 {
                overflow = true;
            } else {
                value = v;
            }
        }
        i = i + 1;
    }
    assert(s@.subrange(start as int, s@.len() as int) == d);
    assert forall|k: int| 0 <= k < d.len() implies is_digit(#[trigger] d[k]) by {
        assert(d[k] == s@[start + k]);
    }
    if overflow {
        None
    } else {
        Some(value as u32)
    }
}

/// The number of a local id, `u32::MAX` when it is not a number.
pub open spec fn local_num(s: Seq<char>) -> nat {
    match parsed_u32(s) {
        Some(v) => v as nat,
        None => u32::MAX as nat,
    }
}

proof fn lemma_digits_value_dec(n: nat)
    ensures
        digits_value(dec(n)) == n,
    decreases n,
{
    let d = (n % 10) as nat;
    assert(dec(n).last() == digit(d));
    assert(digit(d) as nat == 48 + d);
    if n >= 10 {
        lemma_digits_value_dec(n / 10);
        assert(dec(n).drop_last() =~= dec(n / 10));
        assert((n / 10) * 10 + d == n);
        assert(digits_value(dec(n)) == digits_value(dec(n / 10)) * 10 + d);
    } else {
        assert(dec(n).drop_last() =~= Seq::<char>::empty());
        assert(digits_value(dec(n).drop_last()) == 0);
        assert(digits_value(dec(n)) == digits_value(dec(n).drop_last()) * 10 + d);
    }
}

/// Numeric local ids sort as numbers ("4" before "20"), and every other
/// id after all of them: a number written in decimal has its own value,
/// an id that is not a number has the largest.
pub proof fn lemma_local_order(n: u32, s: Seq<char>)
    ensures
        local_num(dec(n as nat)) == n,
        parsed_u32(s) is None ==> local_num(dec(n as nat)) <= local_num(s),
{
    let d = dec(n as nat);
    lemma_dec_digits(n as nat);
    lemma_dec_nonempty(n as nat);
    lemma_digits_value_dec(n as nat);
    assert(unsigned_part(d) == d);
    assert(all_digits(d));
}

// ── Set of a card id ─────────────────────────────────────────────────

/// Position of the last `-`, or -1.
pub open spec fn last_dash(s: Seq<char>) -> int
    decreases s.len(),
{
    if s.len() == 0 {
        -1
    } else if s.last() == '-' {
        s.len() - 1
    } else {
        last_dash(s.drop_last())
    }
}

proof fn lemma_last_dash(s: Seq<char>, i: int)
    requires
        -1 <= i < s.len(),
        i >= 0 ==> s[i] == '-',
        forall|k: int| i < k < s.len() ==> s[k] != '-',
    ensures
        last_dash(s) == i,
    decreases s.len(),
{
    if s.len() > 0 && i < s.len() - 1 {
        let t = s.drop_last();
        assert forall|k: int| i < k < t.len() implies t[k] != '-' by {
            assert(t[k] == s[k]);
        }
        if i >= 0 {
            assert(t[i] == s[i]);
        }
        lemma_last_dash(t, i);
    }
}

/// The part of an id before its last `-` (the set), or the whole id.
pub open spec fn set_part(id: Seq<char>) -> Seq<char> {
    if last_dash(id) < 0 {
        id
    } else {
        id.subrange(0, last_dash(id))
    }
}

/// The set of a card id `<set>-<local>` is `<set>`, whatever dashes the
/// set holds, when the local part has none.
pub proof fn lemma_set_part_law(set: Seq<char>, local: Seq<char>)
    requires
        forall|k: int| 0 <= k < local.len() ==> local[k] != '-',
    ensures
        set_part(set + seq!['-'] + local) == set,
{
    let id = set + seq!['-'] + local;
    assert forall|k: int| set.len() < k < id.len() implies id[k] != '-' by {
        assert(id[k] == local[k - set.len() - 1]);
    }
    lemma_last_dash(id, set.len() as int);
    assert(id.subrange(0, set.len() as int) =~= set);
}

/// "swsh3-136" → "swsh3"
pub fn set_of(id: &str) -> (r: String)
    ensures
        r@ == set_part(id@),
{
    let v = chars_of(id);
    let mut i: usize = v.len();
    while i > 0 && v[i - 1] != '-'
        invariant
            i <= v@.len(),
            v@ == id@,
            forall|k: int| i <= k < v@.len() ==> v@[k] != '-',
        decreases i,
    {
        i = i - 1;
    }
    if i == 0 {
        proof {
            lemma_last_dash(v@, -1);
        }
        return String::from_str(id);
    }
    proof {
        lemma_last_dash(v@, i - 1);
    }
    let mut r = String::new();
    let mut k: usize = 0;
    while k < i - 1
        invariant
            k <= i - 1,
            i <= v@.len(),
            r@ == v@.subrange(0, k as int),
        decreases i - 1 - k,
    {
        crate::text::push_char(&mut r, v[k]);
        k = k + 1;
        assert(r@ =~= v@.subrange(0, k as int));
    }
    r
}

/// Numeric ids sort as numbers ("4" before "20"); promo-style ids ("SWSH261")
/// fall back to string order after them.
pub fn local_key(s: &str) -> (r: (u32, String))
    ensures
        r.0 as nat == local_num(s@),
        r.1@ == s@,
{
    let v = chars_of(s);
    let n = match parse_u32(&v) {
        Some(x) => x,
        None => 4294967295u32,
    };
    (n, String::from_str(s))
}

// ── Grouping ─────────────────────────────────────────────────────────

/// The sort key of a card: its set, then its local number, then its local id.
pub open spec fn card_key(c: CardBrief) -> (Seq<char>, nat, Seq<char>) {
    (set_part(c.id@), local_num(c.local_id@), c.local_id@)
}

pub open spec fn card_keys(cards: Seq<CardBrief>) -> Seq<(Seq<char>, nat, Seq<char>)> {
    cards.map_values(|c: CardBrief| card_key(c))
}

/// The cards in the order `p`.
pub open spec fn in_order(cards: Seq<CardBrief>, p: Seq<usize>) -> Seq<CardBrief> {
    p.map_values(|k: usize| cards[k as int])
}

/// Runs of consecutive cards of the same set, each with its set.
pub open spec fn groups(s: Seq<CardBrief>) -> Seq<(Seq<char>, Seq<CardBrief>)>
    decreases s.len(),
{
    if s.len() == 0 {
        Seq::empty()
    } else {
        let g = groups(s.drop_last());
        let c = s.last();
        let set = set_part(c.id@);
        if g.len() > 0 && g.last().0 == set {
            g.update(g.len() - 1, (set, g.last().1.push(c)))
        } else {
            g.push((set, seq![c]))
        }
    }
}

/// The cards of the groups, one group after another.
pub open spec fn group_cards(gs: Seq<(Seq<char>, Seq<CardBrief>)>) -> Seq<CardBrief>
    decreases gs.len(),
{
    if gs.len() == 0 {
        Seq::empty()
    } else {
        group_cards(gs.drop_last()) + gs.last().1
    }
}

/// Grouping keeps every card in its place: the groups, one after another,
/// are the cards; no group is empty; every card of a group is of the
/// group's set; and neighbouring groups are of different sets.
pub proof fn lemma_groups_law(s: Seq<CardBrief>)
    ensures
        group_cards(groups(s)) == s,
        forall|i: int| 0 <= i < groups(s).len() ==> #[trigger] groups(s)[i].1.len() > 0,
        forall|i: int, k: int|
            0 <= i < groups(s).len() && 0 <= k < groups(s)[i].1.len() ==> set_part(
                #[trigger] groups(s)[i].1[k].id@,
            ) == groups(s)[i].0,
        forall|i: int| 0 < i < groups(s).len() ==> #[trigger] groups(s)[i].0 != groups(s)[i - 1].0,
    decreases s.len(),
{
    if s.len() > 0 {
        let pre = s.drop_last();
        lemma_groups_law(pre);
        let g = groups(pre);
        let c = s.last();
        let set = set_part(c.id@);
        let n = g.len();
        if n > 0 && g.last().0 == set {
            let g2 = g.update(n - 1, (set, g.last().1.push(c)));
            assert(g2.drop_last() =~= g.drop_last());
            assert(group_cards(g) == group_cards(g.drop_last()) + g.last().1);
            assert(group_cards(g2) =~= group_cards(g) + seq![c]);
            assert(pre.push(c) =~= s);
            assert forall|i: int, k: int|
                0 <= i < g2.len() && 0 <= k < g2[i].1.len() implies set_part(
                #[trigger] g2[i].1[k].id@,
            ) == g2[i].0 by {
                if i == n - 1 && k < g.last().1.len() {
                    assert(g2[i].1[k] == g[i].1[k]);
                }
            }
        } else {
            let g2 = g.push((set, seq![c]));
            assert(g2.drop_last() =~= g);
            assert(group_cards(g2) =~= group_cards(g) + seq![c]);
            assert(pre.push(c) =~= s);
            assert forall|i: int, k: int|
                0 <= i < g2.len() && 0 <= k < g2[i].1.len() implies set_part(
                #[trigger] g2[i].1[k].id@,
            ) == g2[i].0 by {
                if i < n {
                    assert(g2[i] == g[i]);
                }
            }
        }
    }
}

proof fn lemma_sorted_groups(s: Seq<CardBrief>)
    requires
        forall|a: int, b: int|
            0 <= a < b < s.len() ==> !lex_lt(set_part(#[trigger] s[b].id@), set_part(#[trigger] s[a].id@)),
    ensures
        forall|i: int, j: int|
            0 <= i < j < groups(s).len() ==> lex_lt(#[trigger] groups(s)[i].0, #[trigger] groups(s)[j].0),
        s.len() > 0 ==> groups(s).len() > 0 && groups(s).last().0 == set_part(s.last().id@),
    decreases s.len(),
{
    if s.len() > 0 {
        let pre = s.drop_last();
        assert forall|a: int, b: int| 0 <= a < b < pre.len() implies !lex_lt(
            set_part(#[trigger] pre[b].id@),
            set_part(#[trigger] pre[a].id@),
        ) by {
            assert(pre[a] == s[a] && pre[b] == s[b]);
        }
        lemma_sorted_groups(pre);
        let g = groups(pre);
        let c = s.last();
        let x = set_part(c.id@);
        let n = g.len();
        if n > 0 && g.last().0 == x {
            let g2 = g.update(n - 1, (x, g.last().1.push(c)));
            assert forall|i: int, j: int| 0 <= i < j < g2.len() implies lex_lt(
                #[trigger] g2[i].0,
                #[trigger] g2[j].0,
            ) by {
                assert(g2[i].0 == g[i].0 && g2[j].0 == g[j].0);
            }
        } else {
            let g2 = g.push((x, seq![c]));
            if n > 0 {
                assert(pre.last() == s[s.len() - 2]);
                assert(!lex_lt(set_part(s[s.len() - 1].id@), set_part(s[s.len() - 2].id@)));
                lemma_lex_total(g.last().0, x);
                assert(lex_lt(g.last().0, x));
                assert forall|i: int, j: int| 0 <= i < j < g2.len() implies lex_lt(
                    #[trigger] g2[i].0,
                    #[trigger] g2[j].0,
                ) by {
                    if j == n {
                        if i < n - 1 {
                            assert(lex_lt(g[i].0, g[n - 1].0));
                            lemma_lex_trans(g[i].0, g[n - 1].0, x);
                        }
                    } else {
                        assert(g2[i] == g[i] && g2[j] == g[j]);
                    }
                }
            } else {
                assert(g2.len() == 1);
            }
        }
    }
}

/// The listing is sorted by set, then local number, then local id: along
/// it no set comes before a smaller one, within a set no number before a
/// smaller one, and cards of equal set and number (promo ids, which have
/// no number) come in string order of their local ids.
pub proof fn lemma_listing_order(cards: Seq<CardBrief>, p: Seq<usize>)
    requires
        is_permutation(p, cards.len()),
        stably_sorted(card_keys(cards), p),
    ensures
        forall|a: int, b: int|
            0 <= a < b < p.len() ==> {
                let x = #[trigger] in_order(cards, p)[a];
                let y = #[trigger] in_order(cards, p)[b];
                &&& !lex_lt(set_part(y.id@), set_part(x.id@))
                &&& set_part(y.id@) == set_part(x.id@) ==> local_num(x.local_id@) <= local_num(
                    y.local_id@,
                )
                &&& (set_part(y.id@) == set_part(x.id@) && local_num(x.local_id@) == local_num(
                    y.local_id@,
                )) ==> !lex_lt(y.local_id@, x.local_id@)
            },
{
    let s = in_order(cards, p);
    let keys = card_keys(cards);
    assert forall|a: int, b: int| 0 <= a < b < p.len() implies {
        let x = #[trigger] s[a];
        let y = #[trigger] s[b];
        &&& !lex_lt(set_part(y.id@), set_part(x.id@))
        &&& set_part(y.id@) == set_part(x.id@) ==> local_num(x.local_id@) <= local_num(y.local_id@)
        &&& (set_part(y.id@) == set_part(x.id@) && local_num(x.local_id@) == local_num(
            y.local_id@,
        )) ==> !lex_lt(y.local_id@, x.local_id@)
    } by {
        assert(s[a] == cards[p[a] as int] && s[b] == cards[p[b] as int]);
        assert(keys[p[a] as int] == card_key(cards[p[a] as int]));
        assert(keys[p[b] as int] == card_key(cards[p[b] as int]));
        assert(!key_lt(keys[p[b] as int], keys[p[a] as int]));
    }
}

/// After sorting, each set has exactly one group: no two groups of a
/// listing are of the same set.
pub proof fn lemma_one_group_per_set(cards: Seq<CardBrief>, p: Seq<usize>)
    requires
        is_permutation(p, cards.len()),
        stably_sorted(card_keys(cards), p),
    ensures
        forall|i: int, j: int|
            0 <= i < j < groups(in_order(cards, p)).len() ==> #[trigger] groups(in_order(cards, p))[i].0
                != #[trigger] groups(in_order(cards, p))[j].0,
{
    let s = in_order(cards, p);
    let keys = card_keys(cards);
    assert forall|a: int, b: int| 0 <= a < b < s.len() implies !lex_lt(
        set_part(#[trigger] s[b].id@),
        set_part(#[trigger] s[a].id@),
    ) by {
        assert(s[a] == cards[p[a] as int] && s[b] == cards[p[b] as int]);
        assert(keys[p[a] as int] == card_key(cards[p[a] as int]));
        assert(keys[p[b] as int] == card_key(cards[p[b] as int]));
        assert(!key_lt(keys[p[b] as int], keys[p[a] as int]));
    }
    lemma_sorted_groups(s);
    assert forall|i: int, j: int| 0 <= i < j < groups(s).len() implies #[trigger] groups(s)[i].0
        != #[trigger] groups(s)[j].0 by {
        lemma_lex_irreflexive(groups(s)[i].0);
    }
}

/// The characters of each group's set, with its cards.
pub open spec fn group_view(g: Seq<(String, Vec<&CardBrief>)>) -> Seq<(Seq<char>, Seq<CardBrief>)> {
    g.map_values(|x: (String, Vec<&CardBrief>)| (x.0@, x.1@.map_values(|c: &CardBrief| *c)))
}

fn card_sort_keys(cards: &[CardBrief]) -> (keys: Vec<Key>)
    ensures
        keys@.map_values(|k: Key| kv(k)) == card_keys(cards@),
{
    let mut keys: Vec<Key> = Vec::new();
    let mut i: usize = 0;
    while i < cards.len()
        invariant
            i <= cards@.len(),
            keys@.map_values(|k: Key| kv(k)) == card_keys(cards@).subrange(0, i as int),
        decreases cards@.len() - i,
    {
        let c = &cards[i];
        let set = set_of(c.id.as_str());
        let (num, _) = local_key(c.local_id.as_str());
        let ghost before = keys@.map_values(|k: Key| kv(k));
        keys.push((chars_of(set.as_str()), num as u64, chars_of(c.local_id.as_str())));
        assert(keys@.map_values(|k: Key| kv(k)) =~= before.push(card_key(cards@[i as int])));
        i = i + 1;
        assert(card_keys(cards@).subrange(0, i as int) =~= card_keys(cards@).subrange(
            0,
            i - 1,
        ).push(card_key(cards@[i - 1])));
    }
    assert(card_keys(cards@).subrange(0, cards@.len() as int) =~= card_keys(cards@));
    keys
}

/// `group_by_set` puts the cards in the order `p`.
pub open spec fn grouped_in_order(
    g: Seq<(Seq<char>, Seq<CardBrief>)>,
    cards: Seq<CardBrief>,
    p: Seq<usize>,
) -> bool {
    &&& is_permutation(p, cards.len())
    &&& stably_sorted(card_keys(cards), p)
    &&& g == groups(in_order(cards, p))
}

/// Cards ordered by set id, then numeric local id, then bucketed per set.
#[verifier::spinoff_prover]
#[verifier::rlimit(30)]
pub fn group_by_set<'a>(cards: &'a [CardBrief]) -> (r: Vec<(String, Vec<&'a CardBrief>)>)
    ensures
        exists|p: Seq<usize>| #[trigger] grouped_in_order(group_view(r@), cards@, p),
{
    let keys = card_sort_keys(cards);
    assert(keys@.len() == keys@.map_values(|k: Key| kv(k)).len());
    let order = sort_order(&keys);
    let ghost s = in_order(cards@, order@);
    let mut out: Vec<(String, Vec<&'a CardBrief>)> = Vec::new();
    let mut i: usize = 0;
    while i < order.len()
        invariant
            i <= order@.len(),
            is_permutation(order@, cards@.len()),
            s == in_order(cards@, order@),
            group_view(out@) == groups(s.subrange(0, i as int)),
        decreases order@.len() - i,
    {
        let c: &'a CardBrief = &cards[order[i]];
        let set = set_of(c.id.as_str());
        let ghost before = group_view(out@);
        let ghost prefix = s.subrange(0, i + 1);
        assert(prefix.drop_last() =~= s.subrange(0, i as int));
        assert(prefix.last() == *c);
        let n = out.len();
        let same = n > 0 && chars_eq(&chars_of(out[n - 1].0.as_str()), &chars_of(set.as_str()));
        if same {
            let (name, mut members) = out.pop().unwrap();
            let ghost gm = members@.map_values(|c: &CardBrief| *c);
            members.push(c);
            assert(members@.map_values(|c: &CardBrief| *c) =~= gm.push(*c));
            out.push((name, members));
            assert(group_view(out@) =~= before.update(before.len() - 1, (set@, before.last().1.push(*c))));
        } else {
            let mut members: Vec<&'a CardBrief> = Vec::new();
            members.push(c);
            assert(members@.map_values(|c: &CardBrief| *c) =~= seq![*c]);
            out.push((set, members));
            assert(group_view(out@) =~= before.push((set_part(c.id@), seq![*c])));
        }
        i = i + 1;
    }
    assert(s.subrange(0, order@.len() as int) =~= s);
    assert(grouped_in_order(group_view(out@), cards@, order@));
    out
}

// ── Lines ────────────────────────────────────────────────────────────

/// `s` right-aligned in `width` columns (never cut).
pub open spec fn right_align(s: Seq<char>, width: nat) -> Seq<char> {
    if s.len() >= width {
        s
    } else {
        spaces((width - s.len()) as nat) + s
    }
}

/// One card: local number right-aligned, name, id.
pub open spec fn card_row(c: CardBrief) -> Seq<char> {
    "  "@ + "  "@ + dim_text(right_align(c.local_id@, 7)) + "  "@ + c.name@ + "  "@ + dim_text(c.id@)
}

/// The header of a set group in its accent colour, with its card count.
pub open spec fn group_header(set: Seq<char>, count: nat, accent: Rgb) -> Seq<char> {
    "  "@ + fg_text("▌"@, accent) + " "@ + bold_text(fg_text(set, accent)) + " "@ + dim_text(
        "· "@ + dec(count),
    )
}

/// The hue table index of the `i`-th group: 47° further round the wheel
/// for each group.
pub open spec fn hue_index(i: nat) -> nat {
    (i * 47) % 360
}

/// The lines of the first `k` groups.
pub open spec fn groups_lines(gs: Seq<(Seq<char>, Seq<CardBrief>)>, hues: Seq<Rgb>, k: nat) -> Seq<
    Seq<char>,
>
    decreases k,
{
    if k == 0 {
        Seq::empty()
    } else {
        let i = (k - 1) as nat;
        groups_lines(gs, hues, i) + seq![
            group_header(gs[i as int].0, gs[i as int].1.len(), hues[hue_index(i) as int]),
        ] + gs[i as int].1.map_values(|c: CardBrief| card_row(c))
    }
}

/// The whole listing: a blank line, a summary, a blank line, the groups,
/// a blank line; or a "no cards" note between blank lines.
pub open spec fn list_lines(
    query: Seq<char>,
    n_cards: nat,
    gs: Seq<(Seq<char>, Seq<CardBrief>)>,
    hues: Seq<Rgb>,
) -> Seq<Seq<char>> {
    if n_cards == 0 {
        seq![
            Seq::empty(),
            "  "@ + dim_text("No cards matching “"@ + query + "”"@),
            Seq::empty(),
        ]
    } else {
        seq![
            Seq::empty(),
            "  "@ + bold_text(dec(n_cards) + " cards"@) + " "@ + dim_text(
                "matching “"@ + query + "” · "@ + dec(gs.len()) + " sets"@,
            ),
            Seq::empty(),
        ] + groups_lines(gs, hues, gs.len()) + seq![Seq::empty()]
    }
}

/// `render_list` took the cards in the order `p`.
pub open spec fn listed_in_order(
    r: Seq<String>,
    query: Seq<char>,
    cards: Seq<CardBrief>,
    hues: Seq<Rgb>,
    p: Seq<usize>,
) -> bool {
    &&& is_permutation(p, cards.len())
    &&& stably_sorted(card_keys(cards), p)
    &&& strs(r) == list_lines(query, cards.len(), groups(in_order(cards, p)), hues)
}

fn card_row_exec(c: &CardBrief) -> (r: String)
    ensures
        r@ == card_row(*c),
{
    let mut num = String::new();
    let len = chars_of(c.local_id.as_str()).len();
    if len < NUM_COL {
        push_char_n(&mut num, ' ', NUM_COL - len);
    }
    num.append(c.local_id.as_str());
    let mut r = String::from_str("    ");
    r.append(dim(num.as_str()).as_str());
    r.append("  ");
    r.append(c.name.as_str());
    r.append("  ");
    r.append(dim(c.id.as_str()).as_str());
    proof {
        reveal_strlit("    ");
        reveal_strlit("  ");
        assert("    "@ =~= "  "@ + "  "@);
    }
    assert(num@ =~= right_align(c.local_id@, 7));
    assert(r@ =~= card_row(*c));
    r
}

fn group_header_exec(set: &str, count: usize, accent: Rgb) -> (r: String)
    ensures
        r@ == group_header(set@, count as nat, accent),
{
    let mut r = String::from_str("  ");
    r.append(fg("▌", accent).as_str());
    r.append(" ");
    r.append(bold(fg(set, accent).as_str()).as_str());
    r.append(" ");
    let mut n = String::from_str("· ");
    push_dec(&mut n, count as u64);
    r.append(dim(n.as_str()).as_str());
    r
}

proof fn lemma_hue_index(i: nat)
    ensures
        ((i % 360) * 47) % 360 == hue_index(i),
{
    vstd::arithmetic::div_mod::lemma_mul_mod_noop_left(i as int, 47, 360);
}

/// Each set gets its own hue: the first 360 groups all take different
/// places on the wheel (47 and 360 have no common factor).
pub proof fn lemma_hues_distinct(i: nat, j: nat)
    requires
        i < j < 360,
    ensures
        hue_index(i) != hue_index(j),
{
    let a = i as u32;
    let b = j as u32;
    assert((a * 47) % 360 != (b * 47) % 360) by (bit_vector)
        requires
            a < b,
            b < 360,
    ;
}

///   87 cards matching “charizard” · 31 sets
///
///   ▌ base1 · 1
///         4  Charizard  base1-4
///   ▌ swsh3 · 3
///        20  Charizard VMAX  swsh3-20
///
/// The lines of the search result listing. Group `i` is drawn in
/// `hues[(47 i) mod 360]`: `hues` is the colour wheel, one entry per degree.
#[verifier::spinoff_prover]
#[verifier::rlimit(30)]
pub fn render_list(query: &str, cards: &[CardBrief], hues: &Vec<Rgb>) -> (r: Vec<String>)
    requires
        hues@.len() == 360,
    ensures
        exists|p: Seq<usize>| #[trigger] listed_in_order(r@, query@, cards@, hues@, p),
{
    let mut out: Vec<String> = Vec::new();
    out.push(String::new());
    if cards.len() == 0 {
        let mut m = String::from_str("No cards matching “");
        m.append(query);
        m.append("”");
        let mut l = String::from_str("  ");
        l.append(dim(m.as_str()).as_str());
        out.push(l);
        out.push(String::new());
        let ghost p = Seq::<usize>::empty();
        assert(strs(out@) =~= list_lines(query@, 0, groups(in_order(cards@, p)), hues@));
        assert(listed_in_order(out@, query@, cards@, hues@, p));
        return out;
    }
    let groups_v = group_by_set(cards);
    let ghost p = choose|p: Seq<usize>| #[trigger] grouped_in_order(group_view(groups_v@), cards@, p);
    let ghost gs = group_view(groups_v@);
    let mut head = String::from_str("  ");
    let mut count = String::new();
    push_dec(&mut count, cards.len() as u64);
    count.append(" cards");
    head.append(bold(count.as_str()).as_str());
    head.append(" ");
    let mut m = String::from_str("matching “");
    m.append(query);
    m.append("” · ");
    push_dec(&mut m, groups_v.len() as u64);
    m.append(" sets");
    head.append(dim(m.as_str()).as_str());
    let ghost hv = head@;
    out.push(head);
    out.push(String::new());
    let ghost top = strs(out@);
    let mut i: usize = 0;
    while i < groups_v.len()
        invariant
            i <= groups_v@.len(),
            hues@.len() == 360,
            gs == group_view(groups_v@),
            strs(out@) == top + groups_lines(gs, hues@, i as nat),
        decreases groups_v@.len() - i,
    {
        let (set, members) = &groups_v[i];
        let k = ((i % 360) * 47) % 360;
        proof {
            lemma_hue_index(i as nat);
        }
        let ghost before = strs(out@);
        let ghost mv = members@.map_values(|c: &CardBrief| *c);
        assert(mv == gs[i as int].1);
        assert(set@ == gs[i as int].0);
        let h = group_header_exec(set.as_str(), members.len(), hues[k]);
        assert(h@ == group_header(gs[i as int].0, gs[i as int].1.len(), hues@[hue_index(i as nat) as int]));
        out.push(h);
        let ghost mid = strs(out@);
        assert(mid =~= before.push(h@));
        let mut j: usize = 0;
        while j < members.len()
            invariant
                j <= members@.len(),
                mv == members@.map_values(|c: &CardBrief| *c),
                strs(out@) == mid + mv.subrange(0, j as int).map_values(|c: CardBrief| card_row(c)),
            decreases members@.len() - j,
        {
            let ghost b2 = strs(out@);
            out.push(card_row_exec(members[j]));
            assert(strs(out@) =~= b2.push(card_row(mv[j as int])));
            j = j + 1;
            assert(mv.subrange(0, j as int).map_values(|c: CardBrief| card_row(c)) =~= mv.subrange(
                0,
                j - 1,
            ).map_values(|c: CardBrief| card_row(c)).push(card_row(mv[j - 1])));
        }
        assert(mv.subrange(0, members@.len() as int) =~= mv);
        assert(strs(out@) =~= top + groups_lines(gs, hues@, i as nat) + seq![h@] + mv.map_values(
            |c: CardBrief| card_row(c),
        ));
        i = i + 1;
        assert(strs(out@) =~= top + groups_lines(gs, hues@, i as nat));
    }
    let ghost body = strs(out@);
    out.push(String::new());
    assert(gs.len() == groups_v@.len());
    assert(top =~= seq![Seq::<char>::empty(), hv, Seq::<char>::empty()]);
    assert(body =~= top + groups_lines(gs, hues@, gs.len()));
    assert(strs(out@) =~= body.push(Seq::<char>::empty()));
    assert(strs(out@) =~= list_lines(query@, cards@.len(), gs, hues@));
    assert(listed_in_order(out@, query@, cards@, hues@, p));
    out
}

} // verus!
