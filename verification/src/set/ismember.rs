//! The `sismember` operation: whether a primitive is an element of the set
//! stored under a key.

use vstd::prelude::*;
use crate::domain::Primitive;
use crate::errors::ApplicationError;
use crate::store::Store;
use crate::set::utilities::{get_set, resolve_err, resolves_set, set_at};

verus! {

/// Tests membership of `member` in the set stored under `key`. Fails when
/// the key is absent or holds a primitive; never mutates the store.
pub fn command(store: &Store, key: &String, member: &Primitive) -> (r: Result<
    bool,
    ApplicationError,
>)
    ensures
        match r {
            Ok(b) => resolves_set(store@, key@) && b == set_at(store@, key@).contains(member@),
            Err(e) => !resolves_set(store@, key@) && e@ == resolve_err(store@, key@),
        },
{
    let s = get_set(store, key)?;
    Ok(s.contains(member))
}

} // verus!
