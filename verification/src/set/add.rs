//! The `sadd` operation over a batch of values: inserts each value into the
//! set stored under a key, creating the set when the key is absent.

use vstd::prelude::*;
use crate::domain::{prims_view, render_data, Data, DataV, PrimSet, Primitive, PrimV};
use crate::errors::{ApplicationError, ErrV, TypeKind};
use crate::store::Store;

verus! {

/// Whether `sadd` may write under a key: the key is absent or already holds
/// a set.
pub open spec fn saddable(m: Map<Seq<char>, DataV>, k: Seq<char>) -> bool {
    !m.contains_key(k) || m[k] is SetOf
}

/// The set already stored under a key, or the empty set when the key is
/// absent.
pub open spec fn prior_set(m: Map<Seq<char>, DataV>, k: Seq<char>) -> Set<PrimV> {
    if m.contains_key(k) {
        m[k]->SetOf_0
    } else {
        Set::empty()
    }
}

/// Inserts every value of a batch into a set; returns how many were newly
/// added. Duplicates within the batch count as added only once.
pub fn insert_values(set: &mut PrimSet, values: Vec<Primitive>) -> (added: usize)
    ensures
        final(set)@ == old(set)@.union(prims_view(values@).to_set()),
        added == final(set)@.len() - old(set)@.len(),
{
    broadcast use vstd::prelude::Seq::lemma_push_to_set_commute;

    let ghost vs = prims_view(values@);
    let before = set.len();
    let n = values.len();
    let mut i: usize = 0;
    proof {
        assert(vs.subrange(0, 0).to_set() =~= Set::<PrimV>::empty());
        assert(set@.union(vs.subrange(0, 0).to_set()) =~= set@);
    }
    while i < n
        invariant
            i <= n,
            n == values@.len(),
            vs == prims_view(values@),
            set@ == old(set)@.union(vs.subrange(0, i as int).to_set()),
        decreases n - i,
    {
        let p = values[i].clone();
        set.insert(p);
        proof {
            assert(vs.subrange(0, i + 1) =~= vs.subrange(0, i as int).push(vs[i as int]));
            vs.subrange(0, i as int).lemma_push_to_set_commute(vs[i as int]);
            assert(set@ =~= old(set)@.union(vs.subrange(0, i + 1).to_set()));
        }
        i = i + 1;
    }
    proof {
        assert(vs.subrange(0, n as int) =~= vs);
        set.lemma_enum();
        assert(old(set)@.subset_of(set@));
        vstd::set_lib::lemma_len_subset(old(set)@, set@);
    }
    let after = set.len();
    after - before
}

/// Adds a batch of values to the set stored under `key`. When the key is
/// absent, a fresh set holding the distinct values is created (an empty
/// batch legally creates an empty set); when it holds a set, the values are
/// inserted. Returns how many values were not already present. Fails, and
/// leaves the store unchanged, when the key holds a primitive.
pub fn command(store: &mut Store, key: &String, values: Vec<Primitive>) -> (r: Result<
    usize,
    ApplicationError,
>)
    ensures
        match r {
            Ok(n) => {
                &&& saddable(old(store)@, key@)
                &&& final(store)@ == old(store)@.insert(
                    key@,
                    DataV::SetOf(
                        prior_set(old(store)@, key@).union(prims_view(values@).to_set()),
                    ),
                )
                &&& n == prior_set(old(store)@, key@).union(prims_view(values@).to_set()).len()
                    - prior_set(old(store)@, key@).len()
            },
            Err(e) => {
                &&& !saddable(old(store)@, key@)
                &&& e@ == ErrV::WrongType(render_data(old(store)@[key@]), TypeKind::SetLike)
                &&& final(store)@ == old(store)@
            },
        },
{
    match store.remove(key) {
        None => {
            let mut s = PrimSet::new();
            let added = insert_values(&mut s, values);
            proof {
                assert(s@ =~= prior_set(old(store)@, key@).union(prims_view(values@).to_set()));
                assert(prior_set(old(store)@, key@).len() == 0) by {
                    assert(prior_set(old(store)@, key@) =~= Set::<PrimV>::empty());
                }
            }
            store.insert(key.clone(), Data::SetOf(s));
            proof {
                assert(old(store)@.remove(key@) =~= old(store)@);
            }
            Ok(added)
        },
        Some(Data::SetOf(mut s)) => {
            let added = insert_values(&mut s, values);
            store.insert(key.clone(), Data::SetOf(s));
            proof {
                assert(final(store)@ =~= old(store)@.insert(
                    key@,
                    DataV::SetOf(
                        prior_set(old(store)@, key@).union(prims_view(values@).to_set()),
                    ),
                ));
            }
            Ok(added)
        },
        Some(d) => {
            let msg = d.render();
            store.insert(key.clone(), d);
            proof {
                assert(final(store)@ =~= old(store)@);
            }
            Err(ApplicationError::WrongType(msg, TypeKind::SetLike))
        },
    }
}

} // verus!
