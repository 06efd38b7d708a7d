//! The error taxonomy of the library.

use vstd::prelude::*;
use crate::text::concat2;

verus! {

/// Everything that can go wrong between the caller, the store and the
/// completion provider.
///
/// `ParseError` carries the offending provider text verbatim, next to the
/// description of what failed, so no reply is silently coerced.
#[derive(Debug, Clone, PartialEq, Eq)]
pub enum AiError {
    /// A value could not be encoded or decoded.
    SerializationError(String),
    /// The network itself failed.
    TransportError(String),
    /// A REST backend answered with a non-success status; carries the
    /// status code and the response body.
    ProviderStatusError(u16, String),
    /// A success response was missing its message, candidate or part.
    ProviderShapeError(String),
    /// The provider's text did not match the expected schema; carries the
    /// description of the failure and the raw text.
    ParseError(String, String),
    /// The store failed to read or write.
    StorageError(String),
}

impl AiError {
    /// A one-line description: the category, a colon, and the detail.
    pub fn message(&self) -> (r: String)
        ensures
            match self {
                AiError::SerializationError(d) => r@ == "serialization error: "@ + d@,
                AiError::TransportError(d) => r@ == "transport error: "@ + d@,
                AiError::ProviderStatusError(_, body) => r@ == "provider status error: "@ + body@,
                AiError::ProviderShapeError(d) => r@ == "provider shape error: "@ + d@,
                AiError::ParseError(d, _) => r@ == "parse error: "@ + d@,
                AiError::StorageError(d) => r@ == "storage error: "@ + d@,
            },
    {
        match self {
            AiError::SerializationError(d) => concat2("serialization error: ", d.as_str()),
            AiError::TransportError(d) => concat2("transport error: ", d.as_str()),
            AiError::ProviderStatusError(_, body) => concat2(
                "provider status error: ",
                body.as_str(),
            ),
            AiError::ProviderShapeError(d) => concat2("provider shape error: ", d.as_str()),
            AiError::ParseError(d, _) => concat2("parse error: ", d.as_str()),
            AiError::StorageError(d) => concat2("storage error: ", d.as_str()),
        }
    }
}

} // verus!
