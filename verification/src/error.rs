//! Errors of the retrieval and response pipeline.

use vstd::prelude::*;

verus! {

/// Everything that can go wrong between receiving a query and returning an
/// answer.  Errors from external collaborators propagate unchanged; none of
/// them is retried by the library.
#[derive(Debug, Clone, PartialEq, Eq)]
pub enum ChatError {
    /// An external provider (embedding or completion service) was
    /// unreachable or rejected the request.
    Provider(String),
    /// A storage query could not be executed.
    Store(String),
    /// A neighbor row id had no location record: the retrieved index
    /// violated an invariant the library relies on.  Not retryable.
    NotFound(u32),
    /// The completion response contained no choices.  Not retryable.
    MissingChoice,
    /// Required configuration was absent, such as the provider API key.
    Config(String),
}

} // verus!
