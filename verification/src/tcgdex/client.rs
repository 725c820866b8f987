//! The parts of a TCGdex request that are decided rather than sent:
//! addresses, and what a reply turns into.

use vstd::prelude::*;
use vstd::string::*;

use super::card::opt_view;
use super::error::ProblemDetails;
use super::set::CardSet;

verus! {

/// The API root for a card region (`en`, `fr`, `ja`, ...).
pub open spec fn base_url_text(region: Seq<char>) -> Seq<char> {
    "https://api.tcgdex.net/v2/"@ + region
}

/// The API root for a card region.
pub fn base_url(region: &str) -> (r: String)
    ensures
        r@ == base_url_text(region@),
{
    let mut s = String::from_str("https://api.tcgdex.net/v2/");
    s.append(region);
    s
}

/// The resources the client asks for.
#[derive(Debug, Clone)]
pub enum Endpoint {
    /// One card by id.
    Card(String),
    /// The card list (filtered by queries).
    Cards,
    /// One set by id.
    CardSet(String),
    /// The set list (filtered by queries).
    Sets,
    /// Every rarity name.
    Rarities,
}

/// The path of an endpoint below the API root.
pub open spec fn endpoint_path(e: Endpoint) -> Seq<char> {
    match e {
        Endpoint::Card(id) => "/cards/"@ + id@,
        Endpoint::Cards => "/cards/"@,
        Endpoint::CardSet(id) => "/sets/"@ + id@,
        Endpoint::Sets => "/sets"@,
        Endpoint::Rarities => "/rarities"@,
    }
}

impl Endpoint {
    /// The path below the API root.
    pub fn path(&self) -> (r: String)
        ensures
            r@ == endpoint_path(*self),
    {
        match self {
            Endpoint::Card(id) => {
                let mut s = String::from_str("/cards/");
                s.append(id.as_str());
                s
            },
            Endpoint::Cards => String::from_str("/cards/"),
            Endpoint::CardSet(id) => {
                let mut s = String::from_str("/sets/");
                s.append(id.as_str());
                s
            },
            Endpoint::Sets => String::from_str("/sets"),
            Endpoint::Rarities => String::from_str("/rarities"),
        }
    }

    /// The full address of the endpoint below the root `base`.
    pub fn url(&self, base: &str) -> (r: String)
        ensures
            r@ == base@ + endpoint_path(*self),
    {
        let mut s = String::from_str(base);
        s.append(self.path().as_str());
        s
    }
}

/// The PNG of a logo or symbol whose address is `base` (the API gives it
/// without an extension).
pub open spec fn sprite_url_text(base: Option<String>) -> Option<Seq<char>> {
    match base {
        Some(b) => Some(b@ + ".png"@),
        None => None,
    }
}

fn sprite_url(base: &Option<String>) -> (r: Option<String>)
    ensures
        opt_view(r) == sprite_url_text(*base),
{
    match base {
        Some(b) => {
            let mut s = b.clone();
            s.append(".png");
            Some(s)
        },
        None => None,
    }
}

impl CardSet {
    /// Address of the set's logo as a PNG, if it has one.
    pub fn logo_url(&self) -> (r: Option<String>)
        ensures
            opt_view(r) == sprite_url_text(self.logo),
    {
        sprite_url(&self.logo)
    }

    /// Address of the set's symbol as a PNG, if it has one.
    pub fn symbol_url(&self) -> (r: Option<String>)
        ensures
            opt_view(r) == sprite_url_text(self.symbol),
    {
        sprite_url(&self.symbol)
    }
}

/// What a reply to a request turns into.
#[derive(Debug, Clone)]
pub enum Reply {
    /// A success status: decode the body as the resource.
    Body,
    /// A failure status with a problem-details body: that problem.
    Problem(ProblemDetails),
    /// A failure status with any other body: the status and address.
    Status,
}

/// The reply to a request whose status was a success (`success`) or not,
/// and whose body parsed as problem details (`problem`) or did not.
pub fn reply(success: bool, problem: Option<ProblemDetails>) -> (r: Reply)
    ensures
        success ==> r is Body,
        !success ==> match problem {
            Some(p) => r == Reply::Problem(p),
            None => r is Status,
        },
{
    if success {
        Reply::Body
    } else {
        match problem {
            Some(p) => Reply::Problem(p),
            None => Reply::Status,
        }
    }
}

} // verus!
