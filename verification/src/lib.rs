//! A small retrieval-augmented chat library.
//!
//! Given a natural-language query, the library assembles a context string
//! from the corpus sentences nearest to the query's embedding and prepares a
//! prompt for a completion provider.  The retrieval and window-assembly
//! logic lives here, fully verified; embedding lookups, storage access and
//! network calls are supplied by the surrounding application as plain values.

use vstd::prelude::*;

pub mod completion;
pub mod config;
pub mod context;
pub mod corpus;
pub mod error;
pub mod respond;
pub mod text;

verus! {

/// Upper bound on concurrent passage-window fetches an application should
/// issue against the backing store while expanding matches.
pub const CONCURRENT_REQUESTS: usize = 5;

} // verus!
