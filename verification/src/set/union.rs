//! The `sunion` operation and its store-destination variant: the union of
//! the sets stored under a list of keys.

use vstd::prelude::*;
use crate::domain::{keys_view, Data, DataV, PrimSet, PrimV};
use crate::errors::ApplicationError;
use crate::store::Store;
use crate::set::utilities::{all_resolve, get_sets, multi_resolve_err, sets_at};

verus! {

/// The union of a list of sets. No minimum count: zero sets yield the empty
/// set, one set yields a copy.
pub open spec fn union_spec(sets: Seq<Set<PrimV>>) -> Set<PrimV>
    decreases sets.len(),
{
    if sets.len() == 0 {
        Set::empty()
    } else {
        union_spec(sets.drop_last()).union(sets.last())
    }
}

/// An element lies in the union exactly when it lies in one of the sets.
pub proof fn lemma_union_spec_membership(sets: Seq<Set<PrimV>>, x: PrimV)
    ensures
        union_spec(sets).contains(x) <==> exists|i: int|
            0 <= i < sets.len() && (#[trigger] sets[i]).contains(x),
    decreases sets.len(),
{
    if sets.len() > 0 {
        lemma_union_spec_membership(sets.drop_last(), x);
        if union_spec(sets).contains(x) && !sets.last().contains(x) {
            let i = choose|i: int|
                0 <= i < sets.drop_last().len() && (#[trigger] sets.drop_last()[i]).contains(x);
            assert(sets[i].contains(x));
        }
        if exists|i: int| 0 <= i < sets.len() && (#[trigger] sets[i]).contains(x) {
            let i = choose|i: int| 0 <= i < sets.len() && (#[trigger] sets[i]).contains(x);
            if i < sets.len() - 1 {
                assert(sets.drop_last()[i].contains(x));
            }
        }
    }
}

/// Computes the union of the sets stored under `keys` as a fresh set,
/// resolving the keys in order and failing fast on the first that does not
/// hold a set. Never mutates the store.
pub fn command(store: &Store, keys: &Vec<String>) -> (r: Result<PrimSet, ApplicationError>)
    ensures
        match r {
            Ok(s) => {
                &&& all_resolve(store@, keys_view(keys@))
                &&& s@ == union_spec(sets_at(store@, keys_view(keys@)))
            },
            Err(e) => {
                &&& !all_resolve(store@, keys_view(keys@))
                &&& e@ == multi_resolve_err(store@, keys_view(keys@))
            },
        },
{
    broadcast use vstd::prelude::Seq::lemma_push_to_set_commute;

    let ghost svs = sets_at(store@, keys_view(keys@));
    let sets = get_sets(store, keys)?;
    let m = sets.len();
    let mut result = PrimSet::new();
    let mut i: usize = 0;
    proof {
        assert(result@ =~= union_spec(svs.subrange(0, 0)));
    }
    while i < m
        invariant
            i <= m,
            m == sets@.len(),
            m == svs.len(),
            forall|j: int| 0 <= j < m ==> (#[trigger] sets@[j])@ == svs[j],
            result@ == union_spec(svs.subrange(0, i as int)),
        decreases m - i,
    {
        let s = sets[i];
        let sn = s.len();
        let ghost u = result@;
        let ghost es = s.elems_seq();
        let mut j: usize = 0;
        proof {
            assert(result@ =~= u.union(es.subrange(0, 0).to_set()));
        }
        while j < sn
            invariant
                j <= sn,
                sn == es.len(),
                es == s.elems_seq(),
                result@ == u.union(es.subrange(0, j as int).to_set()),
            decreases sn - j,
        {
            let p = s.get_at(j).clone();
            result.insert(p);
            proof {
                assert(es.subrange(0, j + 1) =~= es.subrange(0, j as int).push(es[j as int]));
                es.subrange(0, j as int).lemma_push_to_set_commute(es[j as int]);
                assert(result@ =~= u.union(es.subrange(0, j + 1).to_set()));
            }
            j = j + 1;
        }
        proof {
            s.lemma_enum();
            assert(es.subrange(0, sn as int) =~= es);
            assert(svs.subrange(0, i + 1).drop_last() =~= svs.subrange(0, i as int));
            assert(result@ =~= union_spec(svs.subrange(0, i + 1)));
        }
        i = i + 1;
    }
    proof {
        assert(svs.subrange(0, m as int) =~= svs);
    }
    Ok(result)
}

/// Computes the union and stores it under the destination key, overwriting
/// whatever was there; returns the union's cardinality. On failure the
/// store is left unchanged.
pub fn store_command(store: &mut Store, destination: &String, keys: &Vec<String>) -> (r: Result<
    usize,
    ApplicationError,
>)
    ensures
        match r {
            Ok(n) => {
                &&& all_resolve(old(store)@, keys_view(keys@))
                &&& n == union_spec(sets_at(old(store)@, keys_view(keys@))).len()
                &&& final(store)@ == old(store)@.insert(
                    destination@,
                    DataV::SetOf(union_spec(sets_at(old(store)@, keys_view(keys@)))),
                )
            },
            Err(e) => {
                &&& !all_resolve(old(store)@, keys_view(keys@))
                &&& e@ == multi_resolve_err(old(store)@, keys_view(keys@))
                &&& final(store)@ == old(store)@
            },
        },
{
    match command(store, keys) {
        Ok(u) => {
            let size = u.len();
            store.insert(destination.clone(), Data::SetOf(u));
            Ok(size)
        },
        Err(e) => Err(e),
    }
}

} // verus!
