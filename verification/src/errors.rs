//! The library's error type. Variants that carry operating-system or
//! version-control values live with the callers that produce them; here
//! stand the plain-text conditions the verified code itself raises.

use vstd::prelude::*;
use crate::text::cat2;
use crate::text::cat3;

verus! {

/// What went wrong, as plain text.
#[derive(Debug, Clone, PartialEq, Eq)]
pub enum CustomError {
    /// A general condition, described in one string.
    StrError(String),
    /// A file of configuration could not be found or used.
    AssetPathError(String),
    /// A named input could not be parsed, with the reason.
    DetailedJsonParsingError(String, String),
}

impl CustomError {
    /// The error as one line of text, shaped as the conditions announce
    /// themselves.
    pub fn describe(&self) -> (r: String)
        ensures
            match self {
                CustomError::StrError(s) => r@ == "Encountered error: "@ + s@,
                CustomError::AssetPathError(s) => r@ == "Asset path error: "@ + s@,
                CustomError::DetailedJsonParsingError(what, why) => r@ == "Failed to parse "@
                    + what@ + ". Reason: "@ + why@,
            },
    {
        match self {
            CustomError::StrError(s) => cat2("Encountered error: ", s.as_str()),
            CustomError::AssetPathError(s) => cat2("Asset path error: ", s.as_str()),
            CustomError::DetailedJsonParsingError(what, why) => {
                let head = cat2("Failed to parse ", what.as_str());
                cat3(head.as_str(), ". Reason: ", why.as_str())
            },
        }
    }
}

} // verus!
