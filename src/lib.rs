//! A resumable mirror of a paginated, region- and language-partitioned
//! content catalog: the listing assembler, the content graph walker, the
//! resource cache and the media planning, each with its contract.
use vstd::prelude::*;

pub mod cache;
pub mod convert;
pub mod envelope;
pub mod fetcher;
pub mod frontier;
pub mod listing;
pub mod media;
pub mod model;
pub mod text;
pub mod urls;
pub mod walker;

verus! {

/// The total that a listing reports when it leaves the attribute out: such
/// a listing holds a single entry.
pub fn default_to_one() -> (r: usize)
    ensures
        r == 1,
{
    1
}

} // verus!
