//! The order in which a range query returns its lines.

use vstd::prelude::*;

verus! {

/// The sort order of the lines of a query.
#[derive(Debug, Clone, Copy, PartialEq, Eq, Structural)]
pub enum QueryDirection {
    Forward,
    Backward,
}

/// A text that names no direction.
#[derive(Debug, Clone, Copy, PartialEq, Eq, Structural)]
pub struct InvalidChoice;

impl QueryDirection {
    /// The direction that a text names.
    pub open spec fn spec_from_str(s: Seq<char>) -> Result<QueryDirection, InvalidChoice> {
        if s == "backward"@ {
            Ok(QueryDirection::Backward)
        } else if s == "forward"@ {
            Ok(QueryDirection::Forward)
        } else {
            Err(InvalidChoice)
        }
    }

    /// Reads `backward` or `forward`.
    pub fn from_str(s: &str) -> (r: Result<QueryDirection, InvalidChoice>)
        ensures
            r == Self::spec_from_str(s@),
    {
        let text = s.to_owned();
        if text == "backward".to_owned() {
            Ok(QueryDirection::Backward)
        } else if text == "forward".to_owned() {
            Ok(QueryDirection::Forward)
        } else {
            Err(InvalidChoice)
        }
    }

    /// The name of the direction, as the log store expects it.
    pub fn name(&self) -> (r: &'static str)
        ensures
            Self::spec_from_str(r@) == Ok::<QueryDirection, InvalidChoice>(*self),
    {
        proof {
            reveal_strlit("backward");
            reveal_strlit("forward");
            assert("backward"@.len() != "forward"@.len());
        }
        match self {
            QueryDirection::Forward => "forward",
            QueryDirection::Backward => "backward",
        }
    }
}

} // verus!
