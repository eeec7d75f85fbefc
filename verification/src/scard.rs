//! The `scard` operation: the cardinality of the set stored under a key.

use vstd::prelude::*;
use crate::errors::ApplicationError;
use crate::store::Store;
use crate::set::utilities::{get_set, resolve_err, resolves_set, set_at};

verus! {

/// Returns the number of elements of the set stored under `key`. Fails when
/// the key is absent or holds a primitive; never mutates the store.
pub fn command(store: &Store, key: &String) -> (r: Result<usize, ApplicationError>)
    ensures
        match r {
            Ok(n) => resolves_set(store@, key@) && n == set_at(store@, key@).len(),
            Err(e) => !resolves_set(store@, key@) && e@ == resolve_err(store@, key@),
        },
{
    let s = get_set(store, key)?;
    Ok(s.len())
}

} // verus!
