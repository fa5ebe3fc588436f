//! Shared ownership of scene data.
use vstd::prelude::*;
use std::sync::Arc;

verus! {

/// Another handle to the value behind `a`, by `Arc::clone`: the new handle
/// points to the same allocation, so it holds the same value.
#[verifier::external_body]
pub(crate) fn share<T>(a: &Arc<T>) -> (r: Arc<T>)
    ensures
        r == *a,
{
    Arc::clone(a)
}

} // verus!
