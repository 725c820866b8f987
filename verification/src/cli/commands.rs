//! The filters each list command sends.

use vstd::prelude::*;

use crate::tcgdex::query::Query;

verus! {

/// `search`: the name, loosely, and the rarity exactly when one is given.
pub fn search_queries(name: &str, rarity: Option<&str>) -> (r: Vec<Query>)
    ensures
        r@.len() == if rarity is Some { 2int } else { 1int },
        r@[0].param() == "name"@,
        r@[0].arg() == name@,
        match rarity {
            Some(x) => r@[1].param() == "rarity"@ && r@[1].arg() == "eq:"@ + x@,
            None => true,
        },
{
    let mut queries: Vec<Query> = Vec::new();
    queries.push(Query::new("name", name));
    if let Some(x) = rarity {
        queries.push(Query::eq("rarity", x));
    }
    queries
}

/// `sets`: the name, loosely, when one is given; no filter otherwise.
pub fn sets_queries(name: Option<&str>) -> (r: Vec<Query>)
    ensures
        match name {
            Some(n) => r@.len() == 1 && r@[0].param() == "name"@ && r@[0].arg() == n@,
            None => r@.len() == 0,
        },
{
    let mut queries: Vec<Query> = Vec::new();
    if let Some(n) = name {
        queries.push(Query::new("name", n));
    }
    queries
}

} // verus!
