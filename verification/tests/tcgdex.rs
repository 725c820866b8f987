use cardex::cli::commands::{search_queries, sets_queries};
use cardex::cli::config::{Command, Config};
use cardex::tcgdex::client::{base_url, reply, Endpoint, Reply};
use cardex::tcgdex::error::{ProblemDetails, ProblemType};
use cardex::tcgdex::query::Query;
use cardex::tcgdex::serie::SerieBrief;
use cardex::tcgdex::set::{CardCount, CardSet, Legal};

fn problem(kind: ProblemType, lang: Option<&str>, details: Option<&str>) -> ProblemDetails {
    ProblemDetails {
        kind,
        title: "Something went wrong".into(),
        status: 404,
        endpoint: "/v2/en/cards/xy".into(),
        method: "GET".into(),
        lang: lang.map(String::from),
        details: details.map(String::from),
    }
}

#[test]
fn queries() {
    let q = Query::new("name", "pikachu");
    assert_eq!(q.as_pair(), ("name", "pikachu"));
    let e = Query::eq("rarity", "Double Rare");
    assert_eq!(e.as_pair(), ("rarity", "eq:Double Rare"));
}

#[test]
fn command_filters() {
    let s = search_queries("charizard", Some("Rare Holo"));
    let pairs: Vec<(&str, &str)> = s.iter().map(Query::as_pair).collect();
    assert_eq!(pairs, vec![("name", "charizard"), ("rarity", "eq:Rare Holo")]);
    let s = search_queries("mew", None);
    assert_eq!(s.iter().map(Query::as_pair).collect::<Vec<_>>(), vec![("name", "mew")]);
    assert_eq!(sets_queries(Some("prismatic")).iter().map(Query::as_pair).collect::<Vec<_>>(), vec![("name", "prismatic")]);
    assert!(sets_queries(None).is_empty());
}

#[test]
fn config_holds_the_command() {
    let c = Config { command: Command::Search { name: "mew".into(), rarity: None }, region: "en".into() };
    match c.command {
        Command::Search { name, rarity } => {
            assert_eq!(name, "mew");
            assert!(rarity.is_none());
        }
        _ => panic!("wrong command"),
    }
}

#[test]
fn problem_kinds_from_their_uris() {
    assert_eq!(ProblemType::from_uri("https://tcgdex.dev/errors/general"), ProblemType::General);
    assert_eq!(ProblemType::from_uri("https://tcgdex.dev/errors/language-invalid"), ProblemType::LanguageInvalid);
    assert_eq!(ProblemType::from_uri("https://tcgdex.dev/errors/not-found"), ProblemType::NotFound);
    assert_eq!(ProblemType::from_uri("https://tcgdex.dev/errors/other"), ProblemType::Unknown);
    assert_eq!(ProblemType::from_uri(""), ProblemType::Unknown);
}

#[test]
fn problem_messages() {
    let head = "TCGdex GET /v2/en/cards/xy -> 404: ";
    assert_eq!(problem(ProblemType::NotFound, None, None).message(), format!("{head}Something went wrong"));
    assert_eq!(problem(ProblemType::NotFound, Some("xx"), Some("no card")).message(), format!("{head}no card"));
    assert_eq!(
        problem(ProblemType::LanguageInvalid, Some("xx"), None).message(),
        format!("{head}Something went wrong (lang: xx)")
    );
    assert_eq!(problem(ProblemType::LanguageInvalid, None, Some("bad")).message(), format!("{head}bad"));
    assert_eq!(problem(ProblemType::General, Some("en"), Some("boom")).message(), format!("{head}server error: boom"));
    assert_eq!(problem(ProblemType::Unknown, None, None).message(), format!("{head}unclassified error: Something went wrong"));
}

#[test]
fn addresses() {
    let base = base_url("fr");
    assert_eq!(base, "https://api.tcgdex.net/v2/fr");
    assert_eq!(Endpoint::Card("sv08.5-147".into()).url(&base), "https://api.tcgdex.net/v2/fr/cards/sv08.5-147");
    assert_eq!(Endpoint::Cards.path(), "/cards/");
    assert_eq!(Endpoint::CardSet("swsh3".into()).path(), "/sets/swsh3");
    assert_eq!(Endpoint::Sets.path(), "/sets");
    assert_eq!(Endpoint::Rarities.path(), "/rarities");
}

#[test]
fn set_picture_addresses() {
    let s = CardSet {
        id: "swsh3".into(),
        name: "Darkness Ablaze".into(),
        logo: Some("https://assets.tcgdex.net/en/swsh/swsh3/logo".into()),
        symbol: None,
        card_count: CardCount { total: 1, official: 1, reverse: None, holo: None, first_ed: None },
        serie: SerieBrief { id: "swsh".into(), name: "Sword & Shield".into() },
        tcg_online: None,
        release_date: "2020-08-14".into(),
        legal: Legal { expanded: true, standard: false },
        boosters: None,
        cards: vec![],
    };
    assert_eq!(s.logo_url().as_deref(), Some("https://assets.tcgdex.net/en/swsh/swsh3/logo.png"));
    assert_eq!(s.symbol_url(), None);
}

#[test]
fn replies() {
    assert!(matches!(reply(true, None), Reply::Body));
    assert!(matches!(reply(true, Some(problem(ProblemType::General, None, None))), Reply::Body));
    match reply(false, Some(problem(ProblemType::NotFound, None, Some("gone")))) {
        Reply::Problem(p) => assert_eq!(p.details.as_deref(), Some("gone")),
        other => panic!("unexpected {other:?}"),
    }
    assert!(matches!(reply(false, None), Reply::Status));
}
