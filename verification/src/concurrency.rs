use crate::types::ConfigError;
use vstd::prelude::*;

verus! {

pub open spec fn max64(a: u64, b: u64) -> u64 {
    if a >= b {
        a
    } else {
        b
    }
}

/// The largest number of RPC requests that a `(chunks, blocks)` pair lets be
/// in flight at once: the outer gate times the inner gate.
pub open spec fn global_cap(chunks: u64, blocks: u64) -> int {
    chunks * blocks
}

/// The resolution table from user caps (global requests, concurrent chunks,
/// concurrent blocks per chunk, each optional) to the two semaphore
/// capacities `(chunks, blocks)`.
pub open spec fn spec_resolve_concurrency(r: Option<u64>, c: Option<u64>, b: Option<u64>) -> Result<
    (u64, u64),
    ConfigError,
> {
    if (c matches Some(cv) && cv == 0) || (b matches Some(bv) && bv == 0) {
        Err(ConfigError::ZeroConcurrency)
    } else {
        match (r, c, b) {
            (Option::None, Option::None, Option::None) => Ok((3u64, 32u64)),
            (Option::Some(rv), Option::None, Option::None) => Ok((3u64, max64(rv / 3, 1))),
            (Option::None, Option::Some(cv), Option::None) => Ok((cv, 3u64)),
            (Option::None, Option::None, Option::Some(bv)) => Ok((max64(100u64 / bv, 1), bv)),
            (Option::Some(rv), Option::Some(cv), Option::None) => Ok((cv, max64(rv / cv, 1))),
            (Option::None, Option::Some(cv), Option::Some(bv)) => Ok((cv, bv)),
            (Option::Some(rv), Option::None, Option::Some(bv)) => Ok((max64(rv / bv, 1), bv)),
            (Option::Some(rv), Option::Some(cv), Option::Some(bv)) => if rv == cv * bv {
                Ok((cv, bv))
            } else {
                Err(ConfigError::IncompatibleConcurrency)
            },
        }
    }
}

/// Resolve the three optional user-supplied concurrency caps into the outer
/// (chunks) and inner (blocks) semaphore capacities.
pub fn parse_concurrency_args(
    max_concurrent_requests: Option<u64>,
    max_concurrent_chunks: Option<u64>,
    max_concurrent_blocks: Option<u64>,
) -> (r: Result<(u64, u64), ConfigError>)
    ensures
        r == spec_resolve_concurrency(
            max_concurrent_requests,
            max_concurrent_chunks,
            max_concurrent_blocks,
        ),
{
    if matches!(max_concurrent_chunks, Some(0)) || matches!(max_concurrent_blocks, Some(0)) {
        return Err(ConfigError::ZeroConcurrency);
    }
    match (max_concurrent_requests, max_concurrent_chunks, max_concurrent_blocks) {
        (None, None, None) => Ok((3, 32)),
        (Some(rv), None, None) => Ok((3, exec_max64(rv / 3, 1))),
        (None, Some(cv), None) => Ok((cv, 3)),
        (None, None, Some(bv)) => Ok((exec_max64(100 / bv, 1), bv)),
        (Some(rv), Some(cv), None) => Ok((cv, exec_max64(rv / cv, 1))),
        (None, Some(cv), Some(bv)) => Ok((cv, bv)),
        (Some(rv), None, Some(bv)) => Ok((exec_max64(rv / bv, 1), bv)),
        (Some(rv), Some(cv), Some(bv)) => {
            match cv.checked_mul(bv) {
                Some(p) if p == rv => Ok((cv, bv)),
                _ => Err(ConfigError::IncompatibleConcurrency),
            }
        },
    }
}

fn exec_max64(a: u64, b: u64) -> (r: u64)
    ensures
        r == max64(a, b),
{
    if a >= b {
        a
    } else {
        b
    }
}

/// Every resolution yields positive capacities, and when all three caps were
/// given, the effective global cap -- the product of the two capacities --
/// equals the requested global cap exactly.
pub proof fn lemma_resolved_cap(r: Option<u64>, c: Option<u64>, b: Option<u64>, cb: (u64, u64))
    requires
        spec_resolve_concurrency(r, c, b) == Ok::<(u64, u64), ConfigError>(cb),
    ensures
        cb.0 >= 1,
        cb.1 >= 1,
        r is Some && c is Some && b is Some ==> global_cap(cb.0, cb.1) == r->0,
{
}

} // verus!
