//! Resolving keys to sets. Every multi-key operation resolves its source
//! keys through these helpers, failing fast on the first key that is absent
//! or holds a primitive instead of a set.

use vstd::prelude::*;
use crate::domain::{render_data, Data, DataV, PrimSet, Primitive, PrimV};
use crate::errors::{ApplicationError, ErrV, TypeKind};
use crate::store::Store;

verus! {

/// Whether a key holds a set.
pub open spec fn resolves_set(m: Map<Seq<char>, DataV>, k: Seq<char>) -> bool {
    m.contains_key(k) && m[k] is SetOf
}

/// The set held under a key.
pub open spec fn set_at(m: Map<Seq<char>, DataV>, k: Seq<char>) -> Set<PrimV> {
    m[k]->SetOf_0
}

/// The error reported for a key that does not hold a set: the key is
/// missing, or the value found under it has the wrong shape.
pub open spec fn resolve_err(m: Map<Seq<char>, DataV>, k: Seq<char>) -> ErrV {
    if !m.contains_key(k) {
        ErrV::NoSuchKey(k)
    } else {
        ErrV::WrongType(render_data(m[k]), TypeKind::SetLike)
    }
}

/// Whether every listed key holds a set.
pub open spec fn all_resolve(m: Map<Seq<char>, DataV>, ks: Seq<Seq<char>>) -> bool {
    forall|i: int| 0 <= i < ks.len() ==> resolves_set(m, #[trigger] ks[i])
}

/// The error of the first listed key that does not hold a set.
pub open spec fn multi_resolve_err(m: Map<Seq<char>, DataV>, ks: Seq<Seq<char>>) -> ErrV
    decreases ks.len(),
{
    if ks.len() == 0 {
        arbitrary()
    } else if !resolves_set(m, ks[0]) {
        resolve_err(m, ks[0])
    } else {
        multi_resolve_err(m, ks.drop_first())
    }
}

/// The sets held under a list of keys.
pub open spec fn sets_at(m: Map<Seq<char>, DataV>, ks: Seq<Seq<char>>) -> Seq<Set<PrimV>> {
    ks.map_values(|k: Seq<char>| set_at(m, k))
}

pub proof fn lemma_multi_resolve_err_at(m: Map<Seq<char>, DataV>, ks: Seq<Seq<char>>, i: int)
    requires
        0 <= i < ks.len(),
        !resolves_set(m, ks[i]),
        forall|j: int| 0 <= j < i ==> resolves_set(m, #[trigger] ks[j]),
    ensures
        multi_resolve_err(m, ks) == resolve_err(m, ks[i]),
    decreases i,
{
    if i > 0 {
        assert(forall|j: int| 0 <= j < ks.drop_first().len() ==> ks.drop_first()[j] == ks[j + 1]);
        lemma_multi_resolve_err_at(m, ks.drop_first(), i - 1);
    }
}

/// Resolves one key to the set stored under it.
pub fn get_set<'a>(store: &'a Store, key: &String) -> (r: Result<&'a PrimSet, ApplicationError>)
    ensures
        match r {
            Ok(s) => resolves_set(store@, key@) && s@ == set_at(store@, key@),
            Err(e) => !resolves_set(store@, key@) && e@ == resolve_err(store@, key@),
        },
{
    match store.get(key) {
        Some(Data::SetOf(s)) => Ok(s),
        Some(d) => Err(ApplicationError::WrongType(d.render(), TypeKind::SetLike)),
        None => Err(ApplicationError::NoSuchKey(key.clone())),
    }
}

/// Resolves every listed key to its set, in order, failing fast on the
/// first key that does not hold one.
pub fn get_sets<'a>(store: &'a Store, keys: &Vec<String>) -> (r: Result<
    Vec<&'a PrimSet>,
    ApplicationError,
>)
    ensures
        match r {
            Ok(v) => {
                &&& all_resolve(store@, crate::domain::keys_view(keys@))
                &&& v@.len() == keys@.len()
                &&& forall|i: int|
                    0 <= i < keys@.len() ==> (#[trigger] v@[i])@ == set_at(store@, keys@[i]@)
            },
            Err(e) => {
                &&& !all_resolve(store@, crate::domain::keys_view(keys@))
                &&& e@ == multi_resolve_err(store@, crate::domain::keys_view(keys@))
            },
        },
{
    let ghost kvs = crate::domain::keys_view(keys@);
    let n = keys.len();
    let mut out: Vec<&'a PrimSet> = Vec::new();
    let mut i: usize = 0;
    while i < n
        invariant
            i <= n,
            n == keys@.len(),
            kvs == crate::domain::keys_view(keys@),
            out@.len() == i,
            forall|j: int| 0 <= j < i ==> resolves_set(store@, #[trigger] kvs[j]),
            forall|j: int| 0 <= j < i ==> (#[trigger] out@[j])@ == set_at(store@, keys@[j]@),
        decreases n - i,
    {
        match get_set(store, &keys[i]) {
            Ok(s) => {
                out.push(s);
            },
            Err(e) => {
                proof {
                    lemma_multi_resolve_err_at(store@, kvs, i as int);
                }
                return Err(e);
            },
        }
        i = i + 1;
    }
    Ok(out)
}

/// Whether a primitive is an element of every one of the given sets, stated
/// over the sets' views.
pub(crate) fn member_of_all(sets: &Vec<&PrimSet>, p: &Primitive, svs: Ghost<Seq<Set<PrimV>>>) -> (r:
    bool)
    requires
        sets@.len() == svs@.len(),
        forall|k: int| 0 <= k < svs@.len() ==> (#[trigger] sets@[k])@ == svs@[k],
    ensures
        r == (forall|j: int| 0 <= j < svs@.len() ==> (#[trigger] svs@[j]).contains(p@)),
{
    let n = sets.len();
    let mut j: usize = 0;
    while j < n
        invariant
            j <= n,
            n == sets@.len(),
            n == svs@.len(),
            forall|k: int| 0 <= k < svs@.len() ==> (#[trigger] sets@[k])@ == svs@[k],
            forall|k: int| 0 <= k < j ==> (#[trigger] svs@[k]).contains(p@),
        decreases n - j,
    {
        if !sets[j].contains(p) {
            return false;
        }
        j = j + 1;
    }
    true
}

/// Whether a primitive is an element of none of the given sets, stated over
/// the sets' views.
pub(crate) fn member_of_none(
    sets: &Vec<&PrimSet>,
    p: &Primitive,
    svs: Ghost<Seq<Set<PrimV>>>,
) -> (r: bool)
    requires
        sets@.len() == svs@.len(),
        forall|k: int| 0 <= k < svs@.len() ==> (#[trigger] sets@[k])@ == svs@[k],
    ensures
        r == (forall|j: int| 0 <= j < svs@.len() ==> !(#[trigger] svs@[j]).contains(p@)),
{
    let n = sets.len();
    let mut j: usize = 0;
    while j < n
        invariant
            j <= n,
            n == sets@.len(),
            n == svs@.len(),
            forall|k: int| 0 <= k < svs@.len() ==> (#[trigger] sets@[k])@ == svs@[k],
            forall|k: int| 0 <= k < j ==> !(#[trigger] svs@[k]).contains(p@),
        decreases n - j,
    {
        if sets[j].contains(p) {
            return false;
        }
        j = j + 1;
    }
    true
}

} // verus!
