//! The command wired to `sinterstore`: the intersection computed and stored
//! under a destination key in one step.

use vstd::prelude::*;
use crate::domain::{keys_view, DataV};
use crate::errors::{ApplicationError, ErrV};
use crate::store::Store;
use crate::set::inter::{inter_spec, store_command};
use crate::set::utilities::{all_resolve, multi_resolve_err, sets_at};

verus! {

/// Computes the intersection of the sets stored under `keys` and stores it
/// under the destination key, overwriting whatever was there; returns its
/// cardinality. Requires at least two keys; on failure the store is left
/// unchanged.
pub fn command(store: &mut Store, destination: &String, keys: &Vec<String>) -> (r: Result<
    usize,
    ApplicationError,
>)
    ensures
        match r {
            Ok(n) => {
                &&& keys@.len() >= 2
                &&& all_resolve(old(store)@, keys_view(keys@))
                &&& n == inter_spec(sets_at(old(store)@, keys_view(keys@))).len()
                &&& final(store)@ == old(store)@.insert(
                    destination@,
                    DataV::SetOf(inter_spec(sets_at(old(store)@, keys_view(keys@)))),
                )
            },
            Err(e) => {
                &&& final(store)@ == old(store)@
                &&& {
                    ||| {
                        &&& keys@.len() < 2
                        &&& e@ == ErrV::InsufficientOperands("intersect"@)
                    }
                    ||| {
                        &&& keys@.len() >= 2
                        &&& !all_resolve(old(store)@, keys_view(keys@))
                        &&& e@ == multi_resolve_err(old(store)@, keys_view(keys@))
                    }
                }
            },
        },
{
    store_command(store, destination, keys)
}

} // verus!
