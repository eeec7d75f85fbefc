//! The `sadd` operation over a single value: inserts one primitive into the
//! set stored under a key, creating the set when the key is absent.

use vstd::prelude::*;
use crate::domain::{render_data, Data, DataV, PrimSet, Primitive};
use crate::errors::{ApplicationError, ErrV, TypeKind};
use crate::store::Store;
use crate::set::add::{prior_set, saddable};

verus! {

/// Adds one value to the set stored under `key`, creating the set when the
/// key is absent. Returns 1 when the value was newly added and 0 when it
/// was already present. Fails, and leaves the store unchanged, when the key
/// holds a primitive.
pub fn command(store: &mut Store, key: &String, value: Primitive) -> (r: Result<
    usize,
    ApplicationError,
>)
    ensures
        match r {
            Ok(n) => {
                &&& saddable(old(store)@, key@)
                &&& final(store)@ == old(store)@.insert(
                    key@,
                    DataV::SetOf(prior_set(old(store)@, key@).insert(value@)),
                )
                &&& n == if prior_set(old(store)@, key@).contains(value@) {
                    0int
                } else {
                    1int
                }
            },
            Err(e) => {
                &&& !saddable(old(store)@, key@)
                &&& e@ == ErrV::WrongType(render_data(old(store)@[key@]), TypeKind::SetLike)
                &&& final(store)@ == old(store)@
            },
        },
{
    match store.remove(key) {
        None => {
            let mut s = PrimSet::new();
            s.insert(value);
            store.insert(key.clone(), Data::SetOf(s));
            proof {
                assert(old(store)@.remove(key@) =~= old(store)@);
                assert(Set::<crate::domain::PrimV>::empty().insert(value@) =~= prior_set(
                    old(store)@,
                    key@,
                ).insert(value@));
            }
            Ok(1)
        },
        Some(Data::SetOf(mut s)) => {
            let added = s.insert(value);
            store.insert(key.clone(), Data::SetOf(s));
            proof {
                assert(final(store)@ =~= old(store)@.insert(
                    key@,
                    DataV::SetOf(prior_set(old(store)@, key@).insert(value@)),
                ));
            }
            if added {
                Ok(1)
            } else {
                Ok(0)
            }
        },
        Some(d) => {
            let msg = d.render();
            store.insert(key.clone(), d);
            proof {
                assert(final(store)@ =~= old(store)@);
            }
            Err(ApplicationError::WrongType(msg, TypeKind::SetLike))
        },
    }
}

} // verus!
