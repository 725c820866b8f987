//! The problem-details body that TCGdex sends with a failed request.

use vstd::prelude::*;
use vstd::string::*;

use crate::text::{dec, push_dec, str_eq};

verus! {

/// The `type` of a TCGdex problem.
#[derive(Debug, Clone, Copy, PartialEq, Eq, Structural)]
pub enum ProblemType {
    General,
    LanguageInvalid,
    NotFound,
    Unknown,
}

/// The kind a problem `type` URI names; any URI not listed is `Unknown`.
pub open spec fn problem_kind(uri: Seq<char>) -> ProblemType {
    if uri == "https://tcgdex.dev/errors/general"@ {
        ProblemType::General
    } else if uri == "https://tcgdex.dev/errors/language-invalid"@ {
        ProblemType::LanguageInvalid
    } else if uri == "https://tcgdex.dev/errors/not-found"@ {
        ProblemType::NotFound
    } else {
        ProblemType::Unknown
    }
}

impl ProblemType {
    /// The kind named by a problem `type` URI.
    pub fn from_uri(uri: &str) -> (r: Self)
        ensures
            r == problem_kind(uri@),
    {
        if str_eq(uri, "https://tcgdex.dev/errors/general") {
            ProblemType::General
        } else if str_eq(uri, "https://tcgdex.dev/errors/language-invalid") {
            ProblemType::LanguageInvalid
        } else if str_eq(uri, "https://tcgdex.dev/errors/not-found") {
            ProblemType::NotFound
        } else {
            ProblemType::Unknown
        }
    }
}

/// A TCGdex error body.
#[derive(Debug, Clone)]
pub struct ProblemDetails {
    pub kind: ProblemType,
    pub title: String,
    pub status: u16,
    pub endpoint: String,
    pub method: String,
    pub lang: Option<String>,
    pub details: Option<String>,
}

/// The details when given, else the title.
pub open spec fn problem_msg(p: ProblemDetails) -> Seq<char> {
    match p.details {
        Some(d) => d@,
        None => p.title@,
    }
}

/// What the problem says after the request line: the message, with the
/// language for an invalid language, or marked as a server error or an
/// unclassified one.
pub open spec fn problem_tail(p: ProblemDetails) -> Seq<char> {
    let msg = problem_msg(p);
    match p.kind {
        ProblemType::LanguageInvalid => match p.lang {
            Some(lang) => msg + " (lang: "@ + lang@ + ")"@,
            None => msg,
        },
        ProblemType::General => "server error: "@ + msg,
        ProblemType::Unknown => "unclassified error: "@ + msg,
        ProblemType::NotFound => msg,
    }
}

/// `TCGdex <method> <endpoint> -> <status>: ` and the tail.
pub open spec fn problem_text(p: ProblemDetails) -> Seq<char> {
    "TCGdex "@ + p.method@ + " "@ + p.endpoint@ + " -> "@ + dec(p.status as nat) + ": "@
        + problem_tail(p)
}

impl ProblemDetails {
    /// The problem as one line of text.
    pub fn message(&self) -> (r: String)
        ensures
            r@ == problem_text(*self),
    {
        let mut s = String::from_str("TCGdex ");
        s.append(self.method.as_str());
        s.append(" ");
        s.append(self.endpoint.as_str());
        s.append(" -> ");
        push_dec(&mut s, self.status as u64);
        s.append(": ");
        let msg: &str = match &self.details {
            Some(d) => d.as_str(),
            None => self.title.as_str(),
        };
        match self.kind {
            ProblemType::LanguageInvalid => {
                s.append(msg);
                if let Some(lang) = &self.lang {
                    s.append(" (lang: ");
                    s.append(lang.as_str());
                    s.append(")");
                }
            },
            ProblemType::General => {
                s.append("server error: ");
                s.append(msg);
            },
            ProblemType::Unknown => {
                s.append("unclassified error: ");
                s.append(msg);
            },
            ProblemType::NotFound => {
                s.append(msg);
            },
        }
        assert(s@ =~= problem_text(*self));
        s
    }
}

} // verus!
