//! The `incr` operation: a per-key counter over the stored numbers.

use vstd::prelude::*;
use crate::domain::{render_data, Data, DataV, Primitive, PrimV};
use crate::errors::{ApplicationError, ErrV, TypeKind};
use crate::store::Store;

verus! {

/// Whether `incr` may act on a key: the key is absent or holds a number.
pub open spec fn incrementable(m: Map<Seq<char>, DataV>, k: Seq<char>) -> bool {
    !m.contains_key(k) || m[k] matches DataV::Prim(PrimV::Num(_))
}

/// The counter value that `incr` leaves under the key: 1 when the key was
/// absent, otherwise the successor of the stored number, wrapping around at
/// the numeric limits with no saturation.
pub open spec fn incr_value(m: Map<Seq<char>, DataV>, k: Seq<char>) -> i64 {
    if !m.contains_key(k) {
        1
    } else {
        vstd::wrapping::i64_specs::wrapping_add(m[k]->Prim_0->Num_0, 1)
    }
}

/// Increments the counter under `key`: an absent key becomes 1; a stored
/// number becomes its wrapping successor; anything else fails and leaves
/// the store unchanged. Returns the new counter value.
pub fn command(store: &mut Store, key: &String) -> (r: Result<i64, ApplicationError>)
    ensures
        match r {
            Ok(v) => {
                &&& incrementable(old(store)@, key@)
                &&& v == incr_value(old(store)@, key@)
                &&& final(store)@ == old(store)@.insert(key@, DataV::Prim(PrimV::Num(v)))
            },
            Err(e) => {
                &&& !incrementable(old(store)@, key@)
                &&& e@ == ErrV::WrongType(render_data(old(store)@[key@]), TypeKind::Number)
                &&& final(store)@ == old(store)@
            },
        },
{
    let next: Result<i64, ApplicationError> = match store.get(key) {
        None => Ok(1),
        Some(Data::Primitive(Primitive::Number(n))) => Ok(n.wrapping_add(1)),
        Some(d) => Err(ApplicationError::WrongType(d.render(), TypeKind::Number)),
    };
    match next {
        Ok(v) => {
            store.insert(key.clone(), Data::Primitive(Primitive::Number(v)));
            Ok(v)
        },
        Err(e) => Err(e),
    }
}

} // verus!
