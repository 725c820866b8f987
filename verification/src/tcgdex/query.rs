//! Query-string filters for the list endpoints.

use vstd::prelude::*;



verus! {

/// One `param=arg` filter of a list request.
pub struct Query {
    param: String,
    arg: String,
}

impl Query {
    /// The parameter name.
    pub closed spec fn param(&self) -> Seq<char> {
        self.param@
    }

    /// The argument, as sent.
    pub closed spec fn arg(&self) -> Seq<char> {
        self.arg@
    }

    /// A filter with the argument sent as given (the API matches loosely).
    pub fn new(param: &str, arg: &str) -> (q: Self)
        ensures
            q.param() == param@,
            q.arg() == arg@,
    {
        Self { param: String::from_str(param), arg: String::from_str(arg) }
    }

    /// An exact-match filter: the argument is sent as `eq:<arg>`.
    pub fn eq(param: &str, arg: &str) -> (q: Self)
        ensures
            q.param() == param@,
            q.arg() == "eq:"@ + arg@,
    {
        let mut a = String::from_str("eq:");
        a.append(arg);
        Self::new(param, a.as_str())
    }

    /// The filter as a `(name, value)` pair for the query string.
    pub fn as_pair(&self) -> (r: (&str, &str))
        ensures
            r.0@ == self.param(),
            r.1@ == self.arg(),
    {
        (self.param.as_str(), self.arg.as_str())
    }
}

} // verus!
