//! The `sdiff` operation and its store-destination variant: the elements of
//! a base set present in none of the other sets.

use vstd::prelude::*;
use crate::domain::{keys_view, Data, DataV, PrimSet, PrimV};
use crate::errors::ApplicationError;
use crate::store::Store;
use crate::set::utilities::{
    all_resolve, get_set, get_sets, member_of_none, multi_resolve_err, resolve_err, resolves_set,
    set_at, sets_at,
};

verus! {

/// The difference of a base set and a list of other sets: the elements of
/// the base present in none of the others. With no other sets the result
/// equals the base verbatim; that is a documented edge case, not an error.
pub open spec fn diff_spec(base: Set<PrimV>, others: Seq<Set<PrimV>>) -> Set<PrimV> {
    base.filter(
        |e: PrimV| forall|j: int| 0 <= j < others.len() ==> !(#[trigger] others[j]).contains(e),
    )
}

/// Computes the difference of the set under `base_key` and the sets under
/// `keys` as a fresh set. The other keys are resolved first, in order, then
/// the base key; the first key that does not hold a set aborts the whole
/// operation with that key's error. Never mutates the store.
pub fn command(store: &Store, base_key: &String, keys: &Vec<String>) -> (r: Result<
    PrimSet,
    ApplicationError,
>)
    ensures
        match r {
            Ok(s) => {
                &&& all_resolve(store@, keys_view(keys@))
                &&& resolves_set(store@, base_key@)
                &&& s@ == diff_spec(
                    set_at(store@, base_key@),
                    sets_at(store@, keys_view(keys@)),
                )
            },
            Err(e) => {
                ||| {
                    &&& !all_resolve(store@, keys_view(keys@))
                    &&& e@ == multi_resolve_err(store@, keys_view(keys@))
                }
                ||| {
                    &&& all_resolve(store@, keys_view(keys@))
                    &&& !resolves_set(store@, base_key@)
                    &&& e@ == resolve_err(store@, base_key@)
                }
            },
        },
{
    broadcast use vstd::prelude::Seq::lemma_push_to_set_commute;

    let ghost svs = sets_at(store@, keys_view(keys@));
    let sets = get_sets(store, keys)?;
    let base = get_set(store, base_key)?;
    let bn = base.len();
    let ghost bs = base.elems_seq();
    let mut result = PrimSet::new();
    let mut j: usize = 0;
    proof {
        assert(result@ =~= diff_spec(bs.subrange(0, 0).to_set(), svs));
    }
    while j < bn
        invariant
            j <= bn,
            bn == bs.len(),
            bs == base.elems_seq(),
            sets@.len() == svs.len(),
            forall|k: int| 0 <= k < svs.len() ==> (#[trigger] sets@[k])@ == svs[k],
            result@ == diff_spec(bs.subrange(0, j as int).to_set(), svs),
        decreases bn - j,
    {
        let p = base.get_at(j);
        if member_of_none(&sets, p, Ghost(svs)) {
            result.insert(p.clone());
        }
        proof {
            assert(bs.subrange(0, j + 1) =~= bs.subrange(0, j as int).push(bs[j as int]));
            bs.subrange(0, j as int).lemma_push_to_set_commute(bs[j as int]);
            assert(result@ =~= diff_spec(bs.subrange(0, j + 1).to_set(), svs));
        }
        j = j + 1;
    }
    proof {
        base.lemma_enum();
        assert(bs.subrange(0, bn as int) =~= bs);
    }
    Ok(result)
}

/// Computes the difference and stores it under the destination key,
/// overwriting whatever was there; returns the difference's cardinality.
/// On failure the store is left unchanged.
pub fn store_command(
    store: &mut Store,
    destination: &String,
    base_key: &String,
    keys: &Vec<String>,
) -> (r: Result<usize, ApplicationError>)
    ensures
        match r {
            Ok(n) => {
                &&& all_resolve(old(store)@, keys_view(keys@))
                &&& resolves_set(old(store)@, base_key@)
                &&& n == diff_spec(
                    set_at(old(store)@, base_key@),
                    sets_at(old(store)@, keys_view(keys@)),
                ).len()
                &&& final(store)@ == old(store)@.insert(
                    destination@,
                    DataV::SetOf(
                        diff_spec(
                            set_at(old(store)@, base_key@),
                            sets_at(old(store)@, keys_view(keys@)),
                        ),
                    ),
                )
            },
            Err(e) => {
                &&& final(store)@ == old(store)@
                &&& {
                    ||| {
                        &&& !all_resolve(old(store)@, keys_view(keys@))
                        &&& e@ == multi_resolve_err(old(store)@, keys_view(keys@))
                    }
                    ||| {
                        &&& all_resolve(old(store)@, keys_view(keys@))
                        &&& !resolves_set(old(store)@, base_key@)
                        &&& e@ == resolve_err(old(store)@, base_key@)
                    }
                }
            },
        },
{
    match command(store, base_key, keys) {
        Ok(result) => {
            let size = result.len();
            store.insert(destination.clone(), Data::SetOf(result));
            Ok(size)
        },
        Err(e) => Err(e),
    }
}

} // verus!
