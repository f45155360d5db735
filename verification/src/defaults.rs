//! Default values of the request envelopes.

use vstd::prelude::*;

verus! {

/// User agent announced when the caller does not pick one.
pub fn default_user_agent() -> (r: String)
    ensures
        r@ == "DuckDB-Crawler/1.0"@,
{
    let r = String::from_str("DuckDB-Crawler/1.0");
    r
}

/// Timeout, in milliseconds, of a fetch when the caller does not pick one.
pub fn default_timeout() -> (r: u64)
    ensures
        r == 30000u64,
{
    30000
}

/// Number of in-flight fetches when the caller does not pick one.
pub fn default_concurrency() -> (r: usize)
    ensures
        r == 4usize,
{
    4
}

/// Default of boolean request fields that are on unless switched off.
pub fn default_true() -> (r: bool)
    ensures
        r == true,
{
    true
}

/// Depth bound of recursive sitemap traversal when the caller does not pick one.
pub fn default_max_depth() -> (r: usize)
    ensures
        r == 5usize,
{
    5
}

} // verus!
