//! The laws the store obeys, stated over the mathematical views of the
//! operations and proved from their contracts.

use vstd::prelude::*;
use crate::domain::{render_prim, DataV, PrimV};
use crate::dispatch::{step_output, step_store};
use crate::errors::{ErrV, TypeKind};
use crate::incr::{incr_value, incrementable};
use crate::set::add::prior_set;
use crate::set::diff::diff_spec;
use crate::set::inter::inter_spec;
use crate::set::union::{lemma_union_spec_membership, union_spec};
use crate::set::utilities::{all_resolve, resolves_set, set_at, sets_at};
use crate::text::dec_str;

verus! {

/// For every key not yet written, `get` fails with the missing-key error,
/// and the store is left unchanged.
pub proof fn lemma_get_absent(m: Map<Seq<char>, DataV>, k: Seq<char>)
    requires
        !m.contains_key(k),
    ensures
        step_output(m, crate::domain::CommandV::Get(k)) == Err::<Seq<char>, ErrV>(
            ErrV::NoSuchKey(k),
        ),
        step_store(m, crate::domain::CommandV::Get(k)) == m,
{
}

/// The store reached by applying `incr` to one key `n` times in a row.
pub open spec fn incr_n(m: Map<Seq<char>, DataV>, k: Seq<char>, n: nat) -> Map<Seq<char>, DataV>
    decreases n,
{
    if n == 0 {
        m
    } else {
        step_store(incr_n(m, k, (n - 1) as nat), crate::domain::CommandV::Incr(k))
    }
}

/// Applying `incr` `n` times to a key that was absent leaves the counter at
/// exactly `n`, and the `n`-th application reports `n`. The law holds while
/// `n` stays within the numeric range; past it the counter wraps.
pub proof fn lemma_incr_n_from_absent(m: Map<Seq<char>, DataV>, k: Seq<char>, n: nat)
    requires
        !m.contains_key(k),
        1 <= n <= i64::MAX,
    ensures
        incr_n(m, k, n) == m.insert(k, DataV::Prim(PrimV::Num(n as i64))),
        step_output(incr_n(m, k, (n - 1) as nat), crate::domain::CommandV::Incr(k)) == Ok::<
            Seq<char>,
            ErrV,
        >(dec_str(n as int)),
    decreases n,
{
    if n > 1 {
        lemma_incr_n_from_absent(m, k, (n - 1) as nat);
    }
}

/// `incr` on a string-valued key always fails with the wrong-type error and
/// leaves the store unchanged.
pub proof fn lemma_incr_on_string_fails(m: Map<Seq<char>, DataV>, k: Seq<char>, s: Seq<char>)
    requires
        m.contains_key(k),
        m[k] == DataV::Prim(PrimV::Str(s)),
    ensures
        step_output(m, crate::domain::CommandV::Incr(k)) == Err::<Seq<char>, ErrV>(
            ErrV::WrongType(render_prim(PrimV::Str(s)), TypeKind::Number),
        ),
        step_store(m, crate::domain::CommandV::Incr(k)) == m,
{
}

/// Adding one value under a fresh key reports 1 and makes membership of
/// that value true; adding the same value again reports 0 and changes
/// nothing.
pub proof fn lemma_sadd_fresh(m: Map<Seq<char>, DataV>, k: Seq<char>, v: PrimV)
    requires
        !m.contains_key(k),
    ensures
        ({
            let m1 = step_store(m, crate::domain::CommandV::Sadd(k, seq![v]));
            &&& step_output(m, crate::domain::CommandV::Sadd(k, seq![v])) == Ok::<
                Seq<char>,
                ErrV,
            >(dec_str(1))
            &&& step_output(m1, crate::domain::CommandV::Sismember(k, v)) == Ok::<
                Seq<char>,
                ErrV,
            >("true"@)
            &&& step_output(m1, crate::domain::CommandV::Sadd(k, seq![v])) == Ok::<
                Seq<char>,
                ErrV,
            >(dec_str(0))
            &&& step_store(m1, crate::domain::CommandV::Sadd(k, seq![v])) == m1
        }),
{
    broadcast use vstd::prelude::Seq::lemma_push_to_set_commute;

    let vs = seq![v];
    assert(vs =~= Seq::<PrimV>::empty().push(v));
    Seq::<PrimV>::empty().lemma_push_to_set_commute(v);
    let single = Set::<PrimV>::empty().insert(v);
    assert(prior_set(m, k).union(vs.to_set()) =~= single);
    assert(single.len() == 1) by {
        assert(single.remove(v) =~= Set::<PrimV>::empty());
    }
    let m1 = step_store(m, crate::domain::CommandV::Sadd(k, seq![v]));
    assert(prior_set(m1, k) == single);
    assert(single.union(vs.to_set()) =~= single);
    assert(m1.insert(k, DataV::SetOf(single)) =~= m1);
}

/// The cardinality reported after adding `n` pairwise-distinct values under
/// a fresh key is exactly `n`.
pub proof fn lemma_scard_after_sadd(m: Map<Seq<char>, DataV>, k: Seq<char>, vals: Seq<PrimV>)
    requires
        !m.contains_key(k),
        vals.no_duplicates(),
    ensures
        step_output(
            step_store(m, crate::domain::CommandV::Sadd(k, vals)),
            crate::domain::CommandV::Scard(k),
        ) == Ok::<Seq<char>, ErrV>(dec_str(vals.len() as int)),
{
    vals.unique_seq_to_set();
    assert(prior_set(m, k).union(vals.to_set()) =~= vals.to_set());
}

/// Self-difference is always empty.
pub proof fn lemma_self_difference_empty(a: Set<PrimV>)
    ensures
        diff_spec(a, seq![a]) == Set::<PrimV>::empty(),
{
    assert(diff_spec(a, seq![a]) =~= Set::<PrimV>::empty()) by {
        assert(seq![a][0] == a);
    }
}

/// Self-intersection equals the set itself.
pub proof fn lemma_self_intersection(a: Set<PrimV>)
    ensures
        inter_spec(seq![a, a]) == a,
{
    assert(inter_spec(seq![a, a]) =~= a) by {
        assert(seq![a, a][0] == a);
        assert(seq![a, a][1] == a);
    }
}

/// The combined cardinality of a list of sets.
pub open spec fn sum_len(sets: Seq<Set<PrimV>>) -> int
    decreases sets.len(),
{
    if sets.len() == 0 {
        0
    } else {
        sum_len(sets.drop_last()) + sets.last().len()
    }
}

/// Whether no element lies in two of the listed sets.
pub open spec fn pairwise_disjoint(sets: Seq<Set<PrimV>>) -> bool {
    forall|i: int, j: int|
        0 <= i < j < sets.len() ==> (#[trigger] sets[i]).disjoint(#[trigger] sets[j])
}

proof fn lemma_union_len_exact_implies_disjoint(a: Set<PrimV>, b: Set<PrimV>)
    requires
        a.finite(),
        b.finite(),
        a.union(b).len() == a.len() + b.len(),
    ensures
        a.disjoint(b),
{
    if !a.disjoint(b) {
        let x = choose|x: PrimV| a.contains(x) && b.contains(x);
        assert(a.union(b) =~= a.union(b.remove(x)));
        vstd::set_lib::lemma_len_union(a, b.remove(x));
        assert(b.remove(x).len() == b.len() - 1) by {
            assert(b.remove(x).insert(x) =~= b);
        }
    }
}

/// The union of finite sets is at least as large as each of them, at most
/// as large as their combined size, and exactly that size precisely when
/// they are pairwise disjoint.
pub proof fn lemma_union_size_bounds(sets: Seq<Set<PrimV>>)
    requires
        forall|i: int| 0 <= i < sets.len() ==> (#[trigger] sets[i]).finite(),
    ensures
        union_spec(sets).finite(),
        forall|i: int| 0 <= i < sets.len() ==> (#[trigger] sets[i]).len() <= union_spec(sets).len(),
        union_spec(sets).len() <= sum_len(sets),
        pairwise_disjoint(sets) <==> union_spec(sets).len() == sum_len(sets),
    decreases sets.len(),
{
    if sets.len() > 0 {
        let front = sets.drop_last();
        let u = union_spec(front);
        let last = sets.last();
        assert(forall|i: int| 0 <= i < front.len() ==> front[i] == sets[i]);
        lemma_union_size_bounds(front);
        vstd::set_lib::lemma_len_union(u, last);
        assert forall|i: int| 0 <= i < sets.len() implies (#[trigger] sets[i]).len() <= union_spec(
            sets,
        ).len() by {
            if i < sets.len() - 1 {
                assert(front[i].len() <= u.len());
            }
            assert(sets[i].subset_of(union_spec(sets))) by {
                assert forall|x: PrimV| sets[i].contains(x) implies union_spec(sets).contains(
                    x,
                ) by {
                    lemma_union_spec_membership(sets, x);
                }
            }
            vstd::set_lib::lemma_len_subset(sets[i], union_spec(sets));
        }
        if pairwise_disjoint(sets) {
            assert(pairwise_disjoint(front));
            assert(u.disjoint(last)) by {
                assert forall|x: PrimV| u.contains(x) implies !last.contains(x) by {
                    lemma_union_spec_membership(front, x);
                    let i = choose|i: int| 0 <= i < front.len() && (#[trigger] front[i]).contains(
                        x,
                    );
                    assert(sets[i].disjoint(sets[sets.len() - 1]));
                }
            }
            vstd::set_lib::lemma_set_disjoint_lens(u, last);
            assert(u + last =~= union_spec(sets));
        }
        if union_spec(sets).len() == sum_len(sets) {
            vstd::set_lib::lemma_len_union_ind(u, last);
            assert(u.len() == sum_len(front));
            assert(union_spec(sets).len() == u.len() + last.len());
            lemma_union_len_exact_implies_disjoint(u, last);
            assert(pairwise_disjoint(sets)) by {
                assert forall|i: int, j: int|
                    0 <= i < j < sets.len() implies (#[trigger] sets[i]).disjoint(
                    #[trigger] sets[j]) by {
                    if j < sets.len() - 1 {
                        assert(front[i].disjoint(front[j]));
                    } else {
                        assert forall|x: PrimV| sets[i].contains(x) implies !sets[j].contains(
                            x,
                        ) by {
                            if sets[j].contains(x) {
                                assert(front[i].contains(x));
                                lemma_union_spec_membership(front, x);
                                assert(u.contains(x) && last.contains(x));
                            }
                        }
                    }
                }
            }
        }
    }
}

/// The intersection of a non-empty list of finite sets is no larger than
/// any of them.
pub proof fn lemma_intersection_size_bound(sets: Seq<Set<PrimV>>)
    requires
        sets.len() >= 1,
        forall|i: int| 0 <= i < sets.len() ==> (#[trigger] sets[i]).finite(),
    ensures
        forall|i: int| 0 <= i < sets.len() ==> inter_spec(sets).len() <= (#[trigger] sets[i]).len(),
{
    assert forall|i: int| 0 <= i < sets.len() implies inter_spec(sets).len() <= (
    #[trigger] sets[i]).len() by {
        assert(inter_spec(sets).subset_of(sets[i]));
        vstd::set_lib::lemma_len_subset(inter_spec(sets), sets[i]);
    }
}

/// Difference-store run twice, the second time reading the first run's
/// destination as its base alongside the same other keys, computes exactly
/// the set the first run stored. The law asks that the destination not be
/// one of the other keys: overwriting an operand changes what the second
/// run reads.
pub proof fn lemma_sdiffstore_idempotent(
    m: Map<Seq<char>, DataV>,
    dest: Seq<char>,
    base: Seq<char>,
    keys: Seq<Seq<char>>,
)
    requires
        all_resolve(m, keys),
        resolves_set(m, base),
        !keys.contains(dest),
    ensures
        ({
            let m1 = step_store(m, crate::domain::CommandV::SdiffStore(dest, base, keys));
            &&& resolves_set(m1, dest)
            &&& all_resolve(m1, keys)
            &&& diff_spec(set_at(m1, dest), sets_at(m1, keys)) == set_at(m1, dest)
        }),
{
    let d = diff_spec(set_at(m, base), sets_at(m, keys));
    let m1 = step_store(m, crate::domain::CommandV::SdiffStore(dest, base, keys));
    assert forall|i: int| 0 <= i < keys.len() implies resolves_set(m1, #[trigger] keys[i]) && set_at(
        m1,
        keys[i],
    ) == set_at(m, keys[i]) by {
        assert(keys[i] != dest);
    }
    assert(sets_at(m1, keys) =~= sets_at(m, keys));
    assert(diff_spec(set_at(m1, dest), sets_at(m1, keys)) =~= d);
}

/// Intersection-store run twice, the second time reading the first run's
/// destination as a source alongside the same keys, computes exactly the
/// set the first run stored. The law asks that the destination not be one
/// of the source keys: overwriting an operand changes what the second run
/// reads.
pub proof fn lemma_sinterstore_idempotent(
    m: Map<Seq<char>, DataV>,
    dest: Seq<char>,
    keys: Seq<Seq<char>>,
)
    requires
        keys.len() >= 2,
        all_resolve(m, keys),
        !keys.contains(dest),
    ensures
        ({
            let m1 = step_store(m, crate::domain::CommandV::SinterStore(dest, keys));
            let again = seq![dest] + keys;
            &&& again.len() >= 2
            &&& all_resolve(m1, again)
            &&& inter_spec(sets_at(m1, again)) == inter_spec(sets_at(m, keys))
        }),
{
    let v = inter_spec(sets_at(m, keys));
    let m1 = step_store(m, crate::domain::CommandV::SinterStore(dest, keys));
    let again = seq![dest] + keys;
    assert forall|i: int| 0 <= i < keys.len() implies resolves_set(m1, #[trigger] keys[i]) && set_at(
        m1,
        keys[i],
    ) == set_at(m, keys[i]) by {
        assert(keys[i] != dest);
    }
    assert(all_resolve(m1, again)) by {
        assert forall|i: int| 0 <= i < again.len() implies resolves_set(
            m1,
            #[trigger] again[i],
        ) by {
            if i > 0 {
                assert(again[i] == keys[i - 1]);
            }
        }
    }
    assert(inter_spec(sets_at(m1, again)) =~= v) by {
        assert(sets_at(m1, again)[0] == v);
        assert forall|x: PrimV| #[trigger] inter_spec(sets_at(m1, again)).contains(x) <==> v.contains(
            x,
        ) by {
            assert(sets_at(m, keys)[0] == set_at(m, keys[0]));
            if v.contains(x) {
                assert forall|i: int|
                    0 <= i < again.len() implies (#[trigger] sets_at(m1, again)[i]).contains(x) by {
                    if i > 0 {
                        assert(again[i] == keys[i - 1]);
                        assert(sets_at(m, keys)[i - 1].contains(x));
                    }
                }
            }
            if inter_spec(sets_at(m1, again)).contains(x) {
                assert(sets_at(m1, again)[0].contains(x));
            }
        }
    }
}

/// Union-store run twice, the second time reading the first run's
/// destination as a source alongside the same keys, computes exactly the
/// set the first run stored. The law asks that the destination not be one
/// of the source keys: overwriting an operand changes what the second run
/// reads.
pub proof fn lemma_sunionstore_idempotent(
    m: Map<Seq<char>, DataV>,
    dest: Seq<char>,
    keys: Seq<Seq<char>>,
)
    requires
        all_resolve(m, keys),
        !keys.contains(dest),
    ensures
        ({
            let m1 = step_store(m, crate::domain::CommandV::SunionStore(dest, keys));
            let again = seq![dest] + keys;
            &&& all_resolve(m1, again)
            &&& union_spec(sets_at(m1, again)) == union_spec(sets_at(m, keys))
        }),
{
    let v = union_spec(sets_at(m, keys));
    let m1 = step_store(m, crate::domain::CommandV::SunionStore(dest, keys));
    let again = seq![dest] + keys;
    assert forall|i: int| 0 <= i < keys.len() implies resolves_set(m1, #[trigger] keys[i]) && set_at(
        m1,
        keys[i],
    ) == set_at(m, keys[i]) by {
        assert(keys[i] != dest);
    }
    assert(all_resolve(m1, again)) by {
        assert forall|i: int| 0 <= i < again.len() implies resolves_set(
            m1,
            #[trigger] again[i],
        ) by {
            if i > 0 {
                assert(again[i] == keys[i - 1]);
            }
        }
    }
    assert(union_spec(sets_at(m1, again)) =~= v) by {
        assert forall|x: PrimV| #[trigger] union_spec(sets_at(m1, again)).contains(x) <==> v.contains(
            x,
        ) by {
            lemma_union_spec_membership(sets_at(m1, again), x);
            lemma_union_spec_membership(sets_at(m, keys), x);
            if union_spec(sets_at(m1, again)).contains(x) {
                let i = choose|i: int|
                    0 <= i < again.len() && (#[trigger] sets_at(m1, again)[i]).contains(x);
                if i > 0 {
                    assert(again[i] == keys[i - 1]);
                    assert(sets_at(m, keys)[i - 1].contains(x));
                }
            }
            if v.contains(x) {
                let i = choose|i: int|
                    0 <= i < keys.len() && (#[trigger] sets_at(m, keys)[i]).contains(x);
                assert(again[i + 1] == keys[i]);
                assert(sets_at(m1, again)[i + 1].contains(x));
            }
        }
    }
}

} // verus!
