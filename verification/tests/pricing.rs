use cardex::render::pricing::{money, rows, sort_by_name};
use cardex::render::style::dim;
use cardex::tcgdex::card::{Cardmarket, Price, Pricing, TcgPlayer, TcgPlayerPrice};

fn p(amount: &str) -> Option<Price> {
    Some(Price { positive: true, amount: amount.into() })
}

fn zero() -> Option<Price> {
    Some(Price { positive: false, amount: "0.00".into() })
}

fn cardmarket() -> Cardmarket {
    Cardmarket {
        updated: None,
        unit: "EUR".into(),
        avg: p("2.00"),
        low: p("0.50"),
        trend: None,
        avg1: None,
        avg7: zero(),
        avg30: None,
        avg_holo: None,
        low_holo: zero(),
        trend_holo: p("120"),
        avg1_holo: None,
        avg7_holo: p("110"),
        avg30_holo: None,
    }
}

fn variant(low: Option<Price>, mid: Option<Price>, high: Option<Price>, market: Option<Price>) -> TcgPlayerPrice {
    TcgPlayerPrice { low_price: low, mid_price: mid, high_price: high, market_price: market, direct_low_price: None }
}

#[test]
fn currencies() {
    assert_eq!(money("EUR", "1.25"), "€1.25");
    assert_eq!(money("USD", "3.10"), "$3.10");
    assert_eq!(money("GBP", "120"), "£120");
    assert_eq!(money("JPY", "300"), "JPY 300");
}

#[test]
fn cardmarket_rows_fall_back_to_the_average_and_skip_zeros() {
    let pricing = Pricing { cardmarket: Some(cardmarket()), tcgplayer: None };
    assert_eq!(
        rows(&pricing),
        vec![
            (dim("Cardmarket"), "trend €2.00 · low €0.50".to_string()),
            (format!("  {}", dim("foil")), "trend €120 · 7d €110".to_string()),
        ]
    );
}

#[test]
fn tcgplayer_variants_sorted_by_name_with_one_heading() {
    let tp = TcgPlayer::new(
        None,
        "USD".into(),
        vec![
            ("reverse-holofoil".into(), variant(p("1.00"), p("2.00"), p("3.00"), None)),
            ("holofoil".into(), variant(None, None, zero(), zero())),
            ("normal".into(), variant(zero(), p("0.40"), None, p("0.30"))),
        ],
    )
    .unwrap();
    let pricing = Pricing { cardmarket: None, tcgplayer: Some(tp) };
    assert_eq!(
        rows(&pricing),
        vec![
            (dim("TCGplayer"), String::new()),
            (format!("  {}", dim("normal")), "mkt $0.30".to_string()),
            (format!("  {}", dim("reverse-holofoil")), "low $1.00 · mkt $2.00 · high $3.00".to_string()),
        ]
    );
}

#[test]
fn no_prices_no_rows() {
    assert!(rows(&Pricing { cardmarket: None, tcgplayer: None }).is_empty());
    let tp = TcgPlayer::new(None, "USD".into(), vec![("normal".into(), variant(zero(), None, None, None))]).unwrap();
    assert!(rows(&Pricing { cardmarket: None, tcgplayer: Some(tp) }).is_empty());
}

#[test]
fn sorting_variant_names() {
    let v = |n: &str| (n.to_string(), variant(None, None, None, None));
    let vs = vec![v("b"), v("a"), v("B"), v("a")];
    assert_eq!(sort_by_name(&vs), vec![2, 1, 3, 0]);
}

#[test]
fn a_zero_trend_falls_back_to_the_average() {
    let mut cm = cardmarket();
    cm.trend = zero();
    cm.avg = p("2.50");
    cm.avg7 = None;
    cm.low = None;
    cm.trend_holo = zero();
    cm.avg_holo = zero();
    cm.avg7_holo = None;
    cm.low_holo = None;
    let pricing = Pricing { cardmarket: Some(cm), tcgplayer: None };
    assert_eq!(rows(&pricing), vec![(dim("Cardmarket"), "trend €2.50".to_string())]);
}

#[test]
fn variant_names_occur_once() {
    let v = |n: &str| (n.to_string(), variant(None, None, None, None));
    assert!(TcgPlayer::new(None, "USD".into(), vec![v("normal"), v("holofoil"), v("normal")]).is_none());
    let tp = TcgPlayer::new(Some("2024".into()), "USD".into(), vec![v("normal"), v("holofoil")]).unwrap();
    assert_eq!(tp.unit(), "USD");
    assert_eq!(tp.updated().as_deref(), Some("2024"));
    assert_eq!(tp.variants().len(), 2);
    assert!(TcgPlayer::new(None, "USD".into(), vec![]).is_some());
}
