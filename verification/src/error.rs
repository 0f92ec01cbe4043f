//! Error taxonomy of the analysis front end.
//!
//! Every failure of an operation surfaces as one of these tags; errors are
//! never cached.

use vstd::prelude::*;
use vstd::string::StringExecFns;

verus! {

/// The ways an analysis call can fail.
#[derive(Debug, Clone, Copy, PartialEq, Eq, Structural)]
pub enum Error {
    /// The parser rejected the query text.
    SyntaxError,
    /// A fragment definition, fragment spread, inline fragment or directive
    /// was found; none of these is supported.
    UnsupportedFeature,
    /// The document holds no operation definition.
    EmptyDocument,
    /// A malformed mutation argument: `object` given a list, or `_set` given
    /// something other than an object or a variable.
    InvalidInput,
    /// An operation was invoked before initialisation.
    NotInitialized,
    /// SQL generation was requested for an unknown query id.
    CacheMiss,
    /// An index mismatch during encoding; this indicates a bug upstream.
    CorruptedState,
}

impl Error {
    /// A human-readable tag for the error, as sent over the wire.
    pub fn tag(&self) -> (r: String)
        ensures
            r@ == self.tag_view(),
    {
        match self {
            Error::SyntaxError => String::from_str("syntax_error"),
            Error::UnsupportedFeature => String::from_str("unsupported_feature"),
            Error::EmptyDocument => String::from_str("empty_document"),
            Error::InvalidInput => String::from_str("invalid_input"),
            Error::NotInitialized => String::from_str("not_initialized"),
            Error::CacheMiss => String::from_str("cache_miss"),
            Error::CorruptedState => String::from_str("corrupted_state"),
        }
    }

    /// What `tag` returns, as a sequence of characters.
    pub open spec fn tag_view(&self) -> Seq<char> {
        match self {
            Error::SyntaxError => "syntax_error"@,
            Error::UnsupportedFeature => "unsupported_feature"@,
            Error::EmptyDocument => "empty_document"@,
            Error::InvalidInput => "invalid_input"@,
            Error::NotInitialized => "not_initialized"@,
            Error::CacheMiss => "cache_miss"@,
            Error::CorruptedState => "corrupted_state"@,
        }
    }
}

/// The line and column at which the parser rejected a query text.
#[derive(Debug, Clone, Copy, PartialEq, Eq, Structural)]
pub struct ErrorLocation {
    pub line: usize,
    pub column: usize,
}

} // verus!
