//! The `sinter` operation and its store-destination variant: the elements
//! present in every one of the sets stored under a list of keys.

use vstd::prelude::*;
use crate::domain::{keys_view, Data, DataV, PrimSet, PrimV};
use crate::errors::{ApplicationError, ErrV};
use crate::store::Store;
use crate::set::utilities::{all_resolve, get_sets, member_of_all, multi_resolve_err, sets_at};

verus! {

/// The intersection of a non-empty list of sets: the elements present in
/// every one of them.
pub open spec fn inter_spec(sets: Seq<Set<PrimV>>) -> Set<PrimV>
    recommends
        sets.len() > 0,
{
    sets[0].filter(
        |e: PrimV| forall|j: int| 0 <= j < sets.len() ==> (#[trigger] sets[j]).contains(e),
    )
}

/// Computes the intersection of the sets stored under `keys` as a fresh
/// set. Requires at least two keys; resolves them in order, failing fast on
/// the first that does not hold a set. The intersection is computed by
/// scanning the smallest set and testing membership in the rest; its value
/// is independent of which set is scanned. Never mutates the store.
pub fn command(store: &Store, keys: &Vec<String>) -> (r: Result<PrimSet, ApplicationError>)
    ensures
        match r {
            Ok(s) => {
                &&& keys@.len() >= 2
                &&& all_resolve(store@, keys_view(keys@))
                &&& s@ == inter_spec(sets_at(store@, keys_view(keys@)))
            },
            Err(e) => {
                ||| {
                    &&& keys@.len() < 2
                    &&& e@ == ErrV::InsufficientOperands("intersect"@)
                }
                ||| {
                    &&& keys@.len() >= 2
                    &&& !all_resolve(store@, keys_view(keys@))
                    &&& e@ == multi_resolve_err(store@, keys_view(keys@))
                }
            },
        },
{
    broadcast use vstd::prelude::Seq::lemma_push_to_set_commute;

    if keys.len() < 2 {
        return Err(ApplicationError::InsufficientOperands("intersect".to_owned()));
    }
    let ghost svs = sets_at(store@, keys_view(keys@));
    let sets = get_sets(store, keys)?;
    let m = sets.len();
    let mut mi: usize = 0;
    let mut i: usize = 1;
    while i < m
        invariant
            1 <= i <= m,
            m == sets@.len(),
            mi < i,
        decreases m - i,
    {
        if sets[i].len() < sets[mi].len() {
            mi = i;
        }
        i = i + 1;
    }
    let scan = sets[mi];
    let sn = scan.len();
    let ghost ms = scan.elems_seq();
    let mut result = PrimSet::new();
    let mut j: usize = 0;
    proof {
        assert(result@ =~= filter_all(ms.subrange(0, 0).to_set(), svs));
    }
    while j < sn
        invariant
            j <= sn,
            sn == ms.len(),
            ms == scan.elems_seq(),
            sets@.len() == svs.len(),
            forall|k: int| 0 <= k < svs.len() ==> (#[trigger] sets@[k])@ == svs[k],
            result@ == filter_all(ms.subrange(0, j as int).to_set(), svs),
        decreases sn - j,
    {
        let p = scan.get_at(j);
        if member_of_all(&sets, p, Ghost(svs)) {
            result.insert(p.clone());
        }
        proof {
            assert(ms.subrange(0, j + 1) =~= ms.subrange(0, j as int).push(ms[j as int]));
            ms.subrange(0, j as int).lemma_push_to_set_commute(ms[j as int]);
            assert(result@ =~= filter_all(ms.subrange(0, j + 1).to_set(), svs));
        }
        j = j + 1;
    }
    proof {
        scan.lemma_enum();
        assert(ms.subrange(0, sn as int) =~= ms);
        assert(result@ =~= inter_spec(svs)) by {
            assert(scan@ == svs[mi as int]);
            assert(forall|e: PrimV|
                filter_all(svs[mi as int], svs).contains(e) <==> inter_spec(svs).contains(e));
        }
    }
    Ok(result)
}

/// The elements of `base` present in every one of `sets`.
spec fn filter_all(base: Set<PrimV>, sets: Seq<Set<PrimV>>) -> Set<PrimV> {
    base.filter(
        |e: PrimV| forall|j: int| 0 <= j < sets.len() ==> (#[trigger] sets[j]).contains(e),
    )
}

/// Computes the intersection and stores it under the destination key,
/// overwriting whatever was there; returns the intersection's cardinality.
/// On failure the store is left unchanged.
pub fn store_command(store: &mut Store, destination: &String, keys: &Vec<String>) -> (r: Result<
    usize,
    ApplicationError,
>)
    ensures
        match r {
            Ok(n) => {
                &&& keys@.len() >= 2
                &&& all_resolve(old(store)@, keys_view(keys@))
                &&& n == inter_spec(sets_at(old(store)@, keys_view(keys@))).len()
                &&& final(store)@ == old(store)@.insert(
                    destination@,
                    DataV::SetOf(inter_spec(sets_at(old(store)@, keys_view(keys@)))),
                )
            },
            Err(e) => {
                &&& final(store)@ == old(store)@
                &&& {
                    ||| {
                        &&& keys@.len() < 2
                        &&& e@ == ErrV::InsufficientOperands("intersect"@)
                    }
                    ||| {
                        &&& keys@.len() >= 2
                        &&& !all_resolve(old(store)@, keys_view(keys@))
                        &&& e@ == multi_resolve_err(old(store)@, keys_view(keys@))
                    }
                }
            },
        },
{
    match command(store, keys) {
        Ok(result) => {
            let size = result.len();
            store.insert(destination.clone(), Data::SetOf(result));
            Ok(size)
        },
        Err(e) => Err(e),
    }
}

} // verus!
