pub mod cache;
pub mod chunking;
pub mod config;
pub mod dedup;
pub mod fusion;
pub mod hashing;
pub mod incremental;
pub mod languages;
pub mod lexical;
pub mod order;
pub mod paths;
pub mod pipeline;
pub mod rpc;
pub mod scanner;
pub mod store;
pub mod strutil;
pub mod symbol_map;
pub mod sync;
pub mod telemetry;
pub mod update;

use vstd::prelude::*;

verus! {

/// Default number of results returned by a search when the caller gives none.
pub fn default_top_k() -> (r: usize)
    ensures
        r == 5,
{
    5
}

} // verus!
