//! A series of sets, as the API names it inside a set.

use vstd::prelude::*;

verus! {

/// The series a set belongs to.
#[derive(Debug, Clone)]
pub struct SerieBrief {
    pub id: String,
    pub name: String,
}

} // verus!
