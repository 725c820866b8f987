//! Market-price rows for the card footer.

use vstd::prelude::*;
use vstd::string::*;

use super::style::{dim, dim_text};
use crate::tcgdex::card::{opt_view, Cardmarket, Price, Pricing, TcgPlayerPrice};
use crate::order::{is_permutation, kv, sort_order, stably_sorted, Key};
use crate::text::{chars_of, contains, join, join_strings, lemma_join_contains, str_eq, strs};

verus! {

/// The characters of every (label, values) pair.
pub open spec fn pairs(v: Seq<(String, String)>) -> Seq<(Seq<char>, Seq<char>)> {
    v.map_values(|p: (String, String)| (p.0@, p.1@))
}

/// An amount in a currency: `€`, `$` or `£` before it for euros, dollars
/// and pounds, otherwise the currency code and a space.
pub open spec fn money_text(unit: Seq<char>, amount: Seq<char>) -> Seq<char> {
    if unit == "EUR"@ {
        "€"@ + amount
    } else if unit == "USD"@ {
        "$"@ + amount
    } else if unit == "GBP"@ {
        "£"@ + amount
    } else {
        unit + " "@ + amount
    }
}

/// An amount in a currency.
pub fn money(unit: &str, amount: &str) -> (r: String)
    ensures
        r@ == money_text(unit@, amount@),
{
    let mut r = if str_eq(unit, "EUR") {
        String::from_str("€")
    } else if str_eq(unit, "USD") {
        String::from_str("$")
    } else if str_eq(unit, "GBP") {
        String::from_str("£")
    } else {
        let mut u = String::from_str(unit);
        u.append(" ");
        u
    };
    r.append(amount);
    r
}

/// The text of a price the API really has (one above zero), in `unit`.
pub open spec fn kept(unit: Seq<char>, p: Option<Price>) -> Option<Seq<char>> {
    match p {
        Some(q) => if q.positive {
            Some(money_text(unit, q.amount@))
        } else {
            None
        },
        None => None,
    }
}

/// `a`, or `b` when `a` is absent.
pub open spec fn either<T>(a: Option<T>, b: Option<T>) -> Option<T> {
    match a {
        Some(x) => Some(x),
        None => b,
    }
}

/// `label` followed by the value, as a one-element list, or nothing.
pub open spec fn labeled(label: Seq<char>, v: Option<Seq<char>>) -> Seq<Seq<char>> {
    match v {
        Some(x) => seq![label + x],
        None => Seq::empty(),
    }
}

/// Joins the parts with ` · `, or nothing when there are none.
pub open spec fn joined(parts: Seq<Seq<char>>) -> Option<Seq<char>> {
    if parts.len() == 0 {
        None
    } else {
        Some(join(parts, " · "@))
    }
}

/// One Cardmarket line: trend (already the text of the price that is
/// there), 7-day average and low, those present.
pub open spec fn market_line(
    unit: Seq<char>,
    trend: Option<Seq<char>>,
    avg7: Option<Price>,
    low: Option<Price>,
) -> Option<Seq<char>> {
    joined(
        labeled("trend "@, trend) + labeled("7d "@, kept(unit, avg7)) + labeled(
            "low "@,
            kept(unit, low),
        ),
    )
}

/// A row with `label` when the line has something in it.
pub open spec fn row_if(label: Seq<char>, line: Option<Seq<char>>) -> Seq<(Seq<char>, Seq<char>)> {
    match line {
        Some(v) => seq![(label, v)],
        None => Seq::empty(),
    }
}

/// The Cardmarket rows: plain (trend, or the average when there is no
/// trend; a zero price is no price) and then foil.
pub open spec fn cardmarket_rows(cm: Cardmarket) -> Seq<(Seq<char>, Seq<char>)> {
    let u = cm.unit@;
    row_if(
        dim_text("Cardmarket"@),
        market_line(u, either(kept(u, cm.trend), kept(u, cm.avg)), cm.avg7, cm.low),
    ) + row_if(
        "  "@ + dim_text("foil"@),
        market_line(u, either(kept(u, cm.trend_holo), kept(u, cm.avg_holo)), cm.avg7_holo, cm.low_holo),
    )
}

/// A market line is there as soon as one of its prices is, and shows each
/// price that is there with its label.
pub proof fn lemma_market_line_shows(
    unit: Seq<char>,
    trend: Option<Seq<char>>,
    avg7: Option<Price>,
    low: Option<Price>,
)
    ensures
        (trend is Some || kept(unit, avg7) is Some || kept(unit, low) is Some) ==> market_line(
            unit,
            trend,
            avg7,
            low,
        ) is Some,
        trend matches Some(t) ==> contains(market_line(unit, trend, avg7, low)->0, "trend "@ + t),
        kept(unit, avg7) matches Some(x) ==> contains(
            market_line(unit, trend, avg7, low)->0,
            "7d "@ + x,
        ),
        kept(unit, low) matches Some(x) ==> contains(
            market_line(unit, trend, avg7, low)->0,
            "low "@ + x,
        ),
{
    let a = labeled("trend "@, trend);
    let b = labeled("7d "@, kept(unit, avg7));
    let c = labeled("low "@, kept(unit, low));
    let parts = a + b + c;
    let sep = " · "@;
    if a.len() > 0 {
        lemma_join_contains(parts, sep, 0);
        assert(parts[0] == a[0]);
    }
    if b.len() > 0 {
        lemma_join_contains(parts, sep, a.len() as int);
        assert(parts[a.len() as int] == b[0]);
    }
    if c.len() > 0 {
        lemma_join_contains(parts, sep, (a.len() + b.len()) as int);
        assert(parts[(a.len() + b.len()) as int] == c[0]);
    }
}

/// The Cardmarket rows: a `Cardmarket` row first when its line has a
/// price, showing the trend (or, when there is no trend above zero, the
/// average), the 7-day average and the low price that are above zero;
/// then a `foil` row last when the holo line has a price, showing the holo
/// trend (or holo average), holo 7-day average and holo low the same way.
/// Each price is written in the card's currency.
pub proof fn lemma_cardmarket_law(cm: Cardmarket)
    ensures
        ({
            let u = cm.unit@;
            let rows = cardmarket_rows(cm);
            let t = either(kept(u, cm.trend), kept(u, cm.avg));
            (t is Some || kept(u, cm.avg7) is Some || kept(u, cm.low) is Some) ==> {
                &&& rows.len() >= 1
                &&& rows[0].0 == dim_text("Cardmarket"@)
                &&& t matches Some(x) ==> contains(rows[0].1, "trend "@ + x)
                &&& kept(u, cm.avg7) matches Some(x) ==> contains(rows[0].1, "7d "@ + x)
                &&& kept(u, cm.low) matches Some(x) ==> contains(rows[0].1, "low "@ + x)
            }
        }),
        ({
            let u = cm.unit@;
            let rows = cardmarket_rows(cm);
            let t = either(kept(u, cm.trend_holo), kept(u, cm.avg_holo));
            (t is Some || kept(u, cm.avg7_holo) is Some || kept(u, cm.low_holo) is Some) ==> {
                &&& rows.len() >= 1
                &&& rows.last().0 == "  "@ + dim_text("foil"@)
                &&& t matches Some(x) ==> contains(rows.last().1, "trend "@ + x)
                &&& kept(u, cm.avg7_holo) matches Some(x) ==> contains(rows.last().1, "7d "@ + x)
                &&& kept(u, cm.low_holo) matches Some(x) ==> contains(rows.last().1, "low "@ + x)
            }
        }),
{
    let u = cm.unit@;
    lemma_market_line_shows(u, either(kept(u, cm.trend), kept(u, cm.avg)), cm.avg7, cm.low);
    lemma_market_line_shows(
        u,
        either(kept(u, cm.trend_holo), kept(u, cm.avg_holo)),
        cm.avg7_holo,
        cm.low_holo,
    );
}

/// The parts of one TCGplayer variant: low, market (or mid when there is
/// no market price), high.
pub open spec fn tcg_parts(unit: Seq<char>, v: TcgPlayerPrice) -> Seq<Seq<char>> {
    labeled("low "@, kept(unit, v.low_price)) + labeled(
        "mkt "@,
        either(kept(unit, v.market_price), kept(unit, v.mid_price)),
    ) + labeled("high "@, kept(unit, v.high_price))
}

/// The TCGplayer rows for variants in the given order: a `TCGplayer`
/// heading before the first variant that has a price, then one indented
/// row per such variant.
pub open spec fn tcg_rows(unit: Seq<char>, vs: Seq<(String, TcgPlayerPrice)>) -> Seq<
    (Seq<char>, Seq<char>),
>
    decreases vs.len(),
{
    if vs.len() == 0 {
        Seq::empty()
    } else {
        let prev = tcg_rows(unit, vs.drop_last());
        let parts = tcg_parts(unit, vs.last().1);
        if parts.len() == 0 {
            prev
        } else {
            let head = if prev.len() == 0 {
                prev.push((dim_text("TCGplayer"@), Seq::empty()))
            } else {
                prev
            };
            head.push(("  "@ + dim_text(vs.last().0@), join(parts, " · "@)))
        }
    }
}

/// All rows, TCGplayer variants taken in the order `sorted`.
pub open spec fn price_rows(p: Pricing, sorted: Seq<(String, TcgPlayerPrice)>) -> Seq<
    (Seq<char>, Seq<char>),
> {
    (match p.cardmarket {
        Some(cm) => cardmarket_rows(cm),
        None => Seq::empty(),
    }) + (match p.tcgplayer {
        Some(tp) => tcg_rows(tp.unit_view(), sorted),
        None => Seq::empty(),
    })
}

/// The sort keys of the variants: their names.
pub open spec fn name_keys(vs: Seq<(String, TcgPlayerPrice)>) -> Seq<(Seq<char>, nat, Seq<char>)> {
    vs.map_values(|v: (String, TcgPlayerPrice)| (v.0@, 0nat, Seq::<char>::empty()))
}

/// The variants in the order `p`.
pub open spec fn reorder(vs: Seq<(String, TcgPlayerPrice)>, p: Seq<usize>) -> Seq<
    (String, TcgPlayerPrice),
> {
    p.map_values(|k: usize| vs[k as int])
}

/// The order in which a stable sort by name puts the variants.
pub fn sort_by_name(vs: &Vec<(String, TcgPlayerPrice)>) -> (r: Vec<usize>)
    ensures
        is_permutation(r@, vs@.len()),
        stably_sorted(name_keys(vs@), r@),
{
    let mut keys: Vec<Key> = Vec::new();
    let mut k: usize = 0;
    while k < vs.len()
        invariant
            k <= vs@.len(),
            keys@.map_values(|x: Key| kv(x)) == name_keys(vs@).subrange(0, k as int),
        decreases vs@.len() - k,
    {
        let ghost before = keys@.map_values(|x: Key| kv(x));
        keys.push((chars_of(vs[k].0.as_str()), 0, Vec::new()));
        assert(keys@.map_values(|x: Key| kv(x)) =~= before.push(name_keys(vs@)[k as int]));
        k = k + 1;
        assert(name_keys(vs@).subrange(0, k as int) =~= name_keys(vs@).subrange(0, k - 1).push(
            name_keys(vs@)[k - 1],
        ));
    }
    assert(name_keys(vs@).subrange(0, vs@.len() as int) =~= name_keys(vs@));
    sort_order(&keys)
}

fn kept_text(unit: &str, p: &Option<Price>) -> (r: Option<String>)
    ensures
        opt_view(r) == kept(unit@, *p),
{
    match p {
        Some(q) => if q.positive {
            Some(money(unit, q.amount.as_str()))
        } else {
            None
        },
        None => None,
    }
}

fn push_labeled(parts: &mut Vec<String>, label: &str, v: Option<String>)
    ensures
        strs(final(parts)@) == strs(old(parts)@) + labeled(label@, opt_view(v)),
{
    let ghost before = strs(parts@);
    match v {
        Some(x) => {
            let mut s = String::from_str(label);
            s.append(x.as_str());
            parts.push(s);
            assert(strs(parts@) =~= before + labeled(label@, opt_view(Some(x))));
        },
        None => {
            assert(strs(parts@) =~= before + labeled(label@, opt_view(v)));
        },
    }
}

fn join_parts(parts: &Vec<String>) -> (r: Option<String>)
    ensures
        opt_view(r) == joined(strs(parts@)),
{
    if parts.len() == 0 {
        None
    } else {
        Some(join_strings(parts, " · "))
    }
}

/// The text of the first of two prices that is really there.
fn first_kept(unit: &str, a: &Option<Price>, b: &Option<Price>) -> (r: Option<String>)
    ensures
        opt_view(r) == either(kept(unit@, *a), kept(unit@, *b)),
{
    match kept_text(unit, a) {
        Some(x) => Some(x),
        None => kept_text(unit, b),
    }
}

fn market_line_exec(
    unit: &str,
    trend: Option<String>,
    avg7: &Option<Price>,
    low: &Option<Price>,
) -> (r: Option<String>)
    ensures
        opt_view(r) == market_line(unit@, opt_view(trend), *avg7, *low),
{
    let ghost t = opt_view(trend);
    let mut parts: Vec<String> = Vec::new();
    push_labeled(&mut parts, "trend ", trend);
    push_labeled(&mut parts, "7d ", kept_text(unit, avg7));
    push_labeled(&mut parts, "low ", kept_text(unit, low));
    assert(strs(parts@) =~= labeled("trend "@, t) + labeled(
        "7d "@,
        kept(unit@, *avg7),
    ) + labeled("low "@, kept(unit@, *low)));
    join_parts(&parts)
}

fn tcg_parts_exec(unit: &str, v: &TcgPlayerPrice) -> (r: Vec<String>)
    ensures
        strs(r@) == tcg_parts(unit@, *v),
{
    let mut parts: Vec<String> = Vec::new();
    push_labeled(&mut parts, "low ", kept_text(unit, &v.low_price));
    let mkt = match kept_text(unit, &v.market_price) {
        Some(x) => Some(x),
        None => kept_text(unit, &v.mid_price),
    };
    push_labeled(&mut parts, "mkt ", mkt);
    push_labeled(&mut parts, "high ", kept_text(unit, &v.high_price));
    assert(strs(parts@) =~= tcg_parts(unit@, *v));
    parts
}

/// `order` is a stable sorting by name of the TCGplayer variants (and
/// empty when there are none).
pub open spec fn order_fits(p: Pricing, order: Seq<usize>) -> bool {
    match p.tcgplayer {
        Some(tp) => {
            &&& is_permutation(order, tp.entries().len())
            &&& stably_sorted(name_keys(tp.entries()), order)
        },
        None => order.len() == 0,
    }
}

/// The rows with the TCGplayer variants taken in the order `order`.
pub open spec fn rows_for(p: Pricing, order: Seq<usize>) -> Seq<(Seq<char>, Seq<char>)> {
    match p.tcgplayer {
        Some(tp) => price_rows(p, reorder(tp.entries(), order)),
        None => price_rows(p, Seq::empty()),
    }
}

/// `rows` took the TCGplayer variants in the order `order`.
pub open spec fn rows_in_order(r: Seq<(String, String)>, p: Pricing, order: Seq<usize>) -> bool {
    order_fits(p, order) && pairs(r) == rows_for(p, order)
}

/// (label, values) pairs — one row per market / print variant, the
/// TCGplayer variants sorted by name.
#[verifier::spinoff_prover]
#[verifier::rlimit(30)]
pub fn rows(p: &Pricing) -> (r: Vec<(String, String)>)
    ensures
        exists|order: Seq<usize>| #[trigger] rows_in_order(r@, *p, order),
{
    let mut rows: Vec<(String, String)> = Vec::new();
    if let Some(cm) = &p.cardmarket {
        let unit = cm.unit.as_str();
        let plain = market_line_exec(unit, first_kept(unit, &cm.trend, &cm.avg), &cm.avg7, &cm.low);
        if let Some(v) = plain {
            rows.push((dim("Cardmarket"), v));
        }
        let foil = market_line_exec(
            unit,
            first_kept(unit, &cm.trend_holo, &cm.avg_holo),
            &cm.avg7_holo,
            &cm.low_holo,
        );
        if let Some(v) = foil {
            let mut label = String::from_str("  ");
            label.append(dim("foil").as_str());
            rows.push((label, v));
        }
        assert(pairs(rows@) =~= cardmarket_rows(*cm));
    } else {
        assert(pairs(rows@) =~= Seq::<(Seq<char>, Seq<char>)>::empty());
    }
    let ghost head = pairs(rows@);
    match &p.tcgplayer {
        None => {
            assert(pairs(rows@) =~= price_rows(*p, Seq::empty()));
            assert(rows_in_order(rows@, *p, Seq::empty()));
            rows
        },
        Some(tp) => {
            let order = sort_by_name(tp.variants());
            let ghost sorted = reorder(tp.entries(), order@);
            let mut k: usize = 0;
            let mut first = true;
            while k < order.len()
                invariant
                    k <= order@.len(),
                    is_permutation(order@, tp.entries().len()),
                    sorted == reorder(tp.entries(), order@),
                    pairs(rows@) == head + tcg_rows(tp.unit_view(), sorted.subrange(0, k as int)),
                    first == (tcg_rows(tp.unit_view(), sorted.subrange(0, k as int)).len() == 0),
                decreases order@.len() - k,
            {
                let ghost before = pairs(rows@);
                let ghost prefix = sorted.subrange(0, k + 1);
                assert(prefix.drop_last() =~= sorted.subrange(0, k as int));
                let (name, v) = &tp.variants()[order[k]];
                assert(prefix.last() == tp.entries()[order@[k as int] as int]);
                let parts = tcg_parts_exec(tp.unit(), v);
                let ghost prev = tcg_rows(tp.unit_view(), sorted.subrange(0, k as int));
                assert(tcg_rows(tp.unit_view(), prefix) == (if tcg_parts(tp.unit_view(), *v).len() == 0 {
                    prev
                } else {
                    (if prev.len() == 0 {
                        prev.push((dim_text("TCGplayer"@), Seq::empty()))
                    } else {
                        prev
                    }).push(("  "@ + dim_text(name@), join(tcg_parts(tp.unit_view(), *v), " · "@)))
                }));
                if parts.len() > 0 {
                    if first {
                        let e = String::new();
                        rows.push((dim("TCGplayer"), e));
                        first = false;
                        assert(pairs(rows@) =~= before.push((dim_text("TCGplayer"@), Seq::empty())));
                    }
                    let ghost mid = pairs(rows@);
                    let mut label = String::from_str("  ");
                    label.append(dim(name.as_str()).as_str());
                    rows.push((label, join_strings(&parts, " · ")));
                    assert(pairs(rows@) =~= mid.push(("  "@ + dim_text(name@), join(tcg_parts(tp.unit_view(), *v), " · "@))));
                }
                k = k + 1;
                assert(pairs(rows@) =~= head + tcg_rows(tp.unit_view(), sorted.subrange(0, k as int)));
            }
            assert(sorted.subrange(0, order@.len() as int) =~= sorted);
            assert(pairs(rows@) =~= price_rows(*p, sorted));
            assert(rows_in_order(rows@, *p, order@));
            rows
        },
    }
}

} // verus!
