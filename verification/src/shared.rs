//! Reference-counted values that several owners hold at once.

use std::sync::Arc;
use vstd::prelude::*;

verus! {

/// Hands out another owner of `value`.
///
/// Calls `Arc::clone`. The contract claims what its documentation says: the clone points to the
/// same allocation, so it dereferences to the same value.
#[verifier::external_body]
pub(crate) fn share<T>(value: &Arc<T>) -> (owner: Arc<T>)
    ensures
        owner == *value,
{
    Arc::clone(value)
}

} // verus!
