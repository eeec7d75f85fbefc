//! The dispatcher: maps a parsed command to the corresponding store
//! operation, applies it, and renders the success value to display text.
//! Dispatch is total given a syntactically valid command; all remaining
//! failure surface comes from the operations themselves.

use vstd::prelude::*;
use crate::domain::{render_data, render_prim, Command, CommandV, DataV, PrimSet, PrimV};
use crate::errors::{ApplicationError, ErrV, TypeKind};
use crate::incr::{incr_value, incrementable};
use crate::set::add::{prior_set, saddable};
use crate::set::diff::diff_spec;
use crate::set::inter::inter_spec;
use crate::set::union::union_spec;
use crate::set::utilities::{
    all_resolve, multi_resolve_err, resolve_err, resolves_set, set_at, sets_at,
};
use crate::store::Store;
use crate::text::{dec_str, i64_to_string, u64_to_string};

verus! {

/// The store left behind by one command: the write that the command
/// performs when it succeeds, and the store unchanged when it fails or only
/// reads.
pub open spec fn step_store(m: Map<Seq<char>, DataV>, c: CommandV) -> Map<Seq<char>, DataV> {
    match c {
        CommandV::Assign(k, d) => m.insert(k, d),
        CommandV::Incr(k) => if incrementable(m, k) {
            m.insert(k, DataV::Prim(PrimV::Num(incr_value(m, k))))
        } else {
            m
        },
        CommandV::Sadd(k, vals) => if saddable(m, k) {
            m.insert(k, DataV::SetOf(prior_set(m, k).union(vals.to_set())))
        } else {
            m
        },
        CommandV::SdiffStore(dest, base, keys) => if all_resolve(m, keys) && resolves_set(
            m,
            base,
        ) {
            m.insert(dest, DataV::SetOf(diff_spec(set_at(m, base), sets_at(m, keys))))
        } else {
            m
        },
        CommandV::SinterStore(dest, keys) => if keys.len() >= 2 && all_resolve(m, keys) {
            m.insert(dest, DataV::SetOf(inter_spec(sets_at(m, keys))))
        } else {
            m
        },
        CommandV::SunionStore(dest, keys) => if all_resolve(m, keys) {
            m.insert(dest, DataV::SetOf(union_spec(sets_at(m, keys))))
        } else {
            m
        },
        _ => m,
    }
}

/// The display text or error of one command whose output is determined by
/// the store alone: every command but the three set-algebra reads, whose
/// enumerated listing is pinned down separately.
pub open spec fn step_output(m: Map<Seq<char>, DataV>, c: CommandV) -> Result<Seq<char>, ErrV> {
    match c {
        CommandV::Echo(t) => Ok(t),
        CommandV::Assign(_, d) => Ok(render_data(d)),
        CommandV::Get(k) => if m.contains_key(k) {
            Ok(render_data(m[k]))
        } else {
            Err(ErrV::NoSuchKey(k))
        },
        CommandV::Incr(k) => if incrementable(m, k) {
            Ok(dec_str(incr_value(m, k) as int))
        } else {
            Err(ErrV::WrongType(render_data(m[k]), TypeKind::Number))
        },
        CommandV::Sadd(k, vals) => if saddable(m, k) {
            Ok(dec_str(prior_set(m, k).union(vals.to_set()).len() - prior_set(m, k).len()))
        } else {
            Err(ErrV::WrongType(render_data(m[k]), TypeKind::SetLike))
        },
        CommandV::Scard(k) => if resolves_set(m, k) {
            Ok(dec_str(set_at(m, k).len() as int))
        } else {
            Err(resolve_err(m, k))
        },
        CommandV::Sismember(k, p) => if resolves_set(m, k) {
            Ok(
                if set_at(m, k).contains(p) {
                    "true"@
                } else {
                    "false"@
                },
            )
        } else {
            Err(resolve_err(m, k))
        },
        CommandV::SdiffStore(_, base, keys) => if !all_resolve(m, keys) {
            Err(multi_resolve_err(m, keys))
        } else if !resolves_set(m, base) {
            Err(resolve_err(m, base))
        } else {
            Ok(dec_str(diff_spec(set_at(m, base), sets_at(m, keys)).len() as int))
        },
        CommandV::SinterStore(_, keys) => if keys.len() < 2 {
            Err(ErrV::InsufficientOperands("intersect"@))
        } else if !all_resolve(m, keys) {
            Err(multi_resolve_err(m, keys))
        } else {
            Ok(dec_str(inter_spec(sets_at(m, keys)).len() as int))
        },
        CommandV::SunionStore(_, keys) => if !all_resolve(m, keys) {
            Err(multi_resolve_err(m, keys))
        } else {
            Ok(dec_str(union_spec(sets_at(m, keys)).len() as int))
        },
        _ => arbitrary(),
    }
}

/// The set that one of the three set-algebra reads computes, or the error
/// it fails with.
pub open spec fn listing_result(m: Map<Seq<char>, DataV>, c: CommandV) -> Result<Set<PrimV>, ErrV> {
    match c {
        CommandV::Sdiff(base, keys) => if !all_resolve(m, keys) {
            Err(multi_resolve_err(m, keys))
        } else if !resolves_set(m, base) {
            Err(resolve_err(m, base))
        } else {
            Ok(diff_spec(set_at(m, base), sets_at(m, keys)))
        },
        CommandV::Sinter(keys) => if keys.len() < 2 {
            Err(ErrV::InsufficientOperands("intersect"@))
        } else if !all_resolve(m, keys) {
            Err(multi_resolve_err(m, keys))
        } else {
            Ok(inter_spec(sets_at(m, keys)))
        },
        CommandV::Sunion(keys) => if !all_resolve(m, keys) {
            Err(multi_resolve_err(m, keys))
        } else {
            Ok(union_spec(sets_at(m, keys)))
        },
        _ => arbitrary(),
    }
}

/// One line of an enumerated listing: the element's 0-based index, a
/// closing parenthesis, the element, and a line break.
pub open spec fn line_of(elems: Seq<PrimV>, i: int) -> Seq<char> {
    dec_str(i) + ") "@ + render_prim(elems[i]) + "\n"@
}

/// The first `n` lines of an enumerated listing.
pub open spec fn listing_pre(elems: Seq<PrimV>, n: int) -> Seq<char>
    decreases n,
{
    if n <= 0 {
        Seq::empty()
    } else {
        listing_pre(elems, n - 1) + line_of(elems, n - 1)
    }
}

/// The enumerated multi-line listing of a sequence of elements, with
/// 0-based indices.
pub open spec fn listing(elems: Seq<PrimV>) -> Seq<char> {
    listing_pre(elems, elems.len() as int)
}

/// Renders a set as an enumerated listing of its elements in some order
/// without repetition.
fn render_listing(s: &PrimSet) -> (out: String)
    ensures
        exists|elems: Seq<PrimV>|
            elems.no_duplicates() && elems.to_set() == s@ && out@ == #[trigger] listing(elems),
{
    let ghost es = s.elems_seq();
    let n = s.len();
    let mut out = String::new();
    let mut j: usize = 0;
    while j < n
        invariant
            j <= n,
            n == es.len(),
            es == s.elems_seq(),
            out@ == listing_pre(es, j as int),
        decreases n - j,
    {
        let p = s.get_at(j);
        let line = u64_to_string(j as u64).concat(") ").concat(p.render().as_str()).concat("\n");
        proof {
            reveal_strlit(") ");
            reveal_strlit("\n");
            assert(line@ =~= line_of(es, j as int));
        }
        out = out.concat(line.as_str());
        j = j + 1;
    }
    proof {
        s.lemma_enum();
        assert(es.no_duplicates() && es.to_set() == s@ && out@ == listing(es));
    }
    out
}

/// Applies one command to the store and renders the outcome: the store is
/// changed exactly as the command's operation prescribes, and the returned
/// text or error is the one the command's contract names. For the three
/// set-algebra reads the text is the enumerated listing of the computed
/// set, in some order without repetition.
pub fn execute(store: &mut Store, command: Command) -> (r: Result<String, ApplicationError>)
    ensures
        final(store)@ == step_store(old(store)@, command@),
        (match command@ {
            CommandV::Sdiff(_, _) | CommandV::Sinter(_) | CommandV::Sunion(_) => (match listing_result(
                old(store)@,
                command@,
            ) {
                Ok(rs) => r matches Ok(out) && (exists|elems: Seq<PrimV>|
                    elems.no_duplicates() && elems.to_set() == rs && out@ == #[trigger] listing(
                        elems,
                    )),
                Err(ev) => r matches Err(e) && e@ == ev,
            }),
            _ => (match step_output(old(store)@, command@) {
                Ok(t) => r matches Ok(out) && out@ == t,
                Err(ev) => r matches Err(e) && e@ == ev,
            }),
        }),
{
    match command {
        Command::Echo(t) => Ok(t),
        Command::Assign(k, d) => {
            let printed = d.render();
            store.insert(k, d);
            Ok(printed)
        },
        Command::Get(k) => match store.get(&k) {
            Some(d) => Ok(d.render()),
            None => Err(ApplicationError::NoSuchKey(k)),
        },
        Command::Incr(k) => match crate::incr::command(store, &k) {
            Ok(v) => Ok(i64_to_string(v)),
            Err(e) => Err(e),
        },
        Command::Sadd(k, vals) => match crate::set::add::command(store, &k, vals) {
            Ok(n) => Ok(u64_to_string(n as u64)),
            Err(e) => Err(e),
        },
        Command::Scard(k) => match crate::scard::command(store, &k) {
            Ok(n) => Ok(u64_to_string(n as u64)),
            Err(e) => Err(e),
        },
        Command::Sismember(k, p) => match crate::set::ismember::command(store, &k, &p) {
            Ok(b) => Ok(
                if b {
                    "true".to_owned()
                } else {
                    "false".to_owned()
                },
            ),
            Err(e) => Err(e),
        },
        Command::Sdiff(base, keys) => match crate::set::diff::command(store, &base, &keys) {
            Ok(s) => Ok(render_listing(&s)),
            Err(e) => Err(e),
        },
        Command::SdiffStore(dest, base, keys) => match crate::set::diff::store_command(
            store,
            &dest,
            &base,
            &keys,
        ) {
            Ok(n) => Ok(u64_to_string(n as u64)),
            Err(e) => Err(e),
        },
        Command::Sinter(keys) => match crate::set::inter::command(store, &keys) {
            Ok(s) => Ok(render_listing(&s)),
            Err(e) => Err(e),
        },
        Command::SinterStore(dest, keys) => match crate::set::interstore::command(
            store,
            &dest,
            &keys,
        ) {
            Ok(n) => Ok(u64_to_string(n as u64)),
            Err(e) => Err(e),
        },
        Command::Sunion(keys) => match crate::set::union::command(store, &keys) {
            Ok(s) => Ok(render_listing(&s)),
            Err(e) => Err(e),
        },
        Command::SunionStore(dest, keys) => match crate::set::union::store_command(
            store,
            &dest,
            &keys,
        ) {
            Ok(n) => Ok(u64_to_string(n as u64)),
            Err(e) => Err(e),
        },
    }
}

} // verus!
