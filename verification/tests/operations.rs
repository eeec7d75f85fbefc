//! The store operations called directly, and the small error-handling
//! helpers.

use ruddis::domain::{Data, Primitive};
use ruddis::errors::{ApplicationError, Fallible, Flattenable, TypeKind};
use ruddis::store::Store;

fn key(s: &str) -> String {
    s.to_string()
}

#[test]
fn incr_applied_n_times_yields_n() {
    let mut store = Store::new();
    let k = key("n");
    for expected in 1..=10i64 {
        assert_eq!(ruddis::incr::command(&mut store, &k).unwrap(), expected);
    }
}

#[test]
fn incr_on_a_string_key_always_fails_with_wrong_type() {
    let mut store = Store::new();
    let k = key("s");
    store.insert(k.clone(), Data::Primitive(Primitive::String("bar".to_string())));
    for _ in 0..3 {
        let e = ruddis::incr::command(&mut store, &k).unwrap_err();
        assert!(matches!(e, ApplicationError::WrongType(_, TypeKind::Number)));
    }
}

#[test]
fn sadd_fresh_returns_one_then_zero_and_membership_holds() {
    let mut store = Store::new();
    let k = key("s");
    let v = Primitive::Number(7);
    assert_eq!(ruddis::sadd::command(&mut store, &k, v.clone()).unwrap(), 1);
    assert!(ruddis::set::ismember::command(&store, &k, &v).unwrap());
    assert_eq!(ruddis::sadd::command(&mut store, &k, v).unwrap(), 0);
}

#[test]
fn scard_equals_the_number_of_distinct_values_added() {
    let mut store = Store::new();
    let k = key("s");
    let vals = vec![
        Primitive::Number(1),
        Primitive::String("1".to_string()),
        Primitive::Number(2),
        Primitive::String("two".to_string()),
    ];
    assert_eq!(ruddis::set::add::command(&mut store, &k, vals).unwrap(), 4);
    assert_eq!(ruddis::scard::command(&store, &k).unwrap(), 4);
}

#[test]
fn get_set_and_get_sets_resolve_in_order() {
    let mut store = Store::new();
    ruddis::sadd::command(&mut store, &key("a"), Primitive::Number(1)).unwrap();
    ruddis::sadd::command(&mut store, &key("b"), Primitive::Number(2)).unwrap();
    assert!(ruddis::set::utilities::get_set(&store, &key("a")).is_ok());
    let e = ruddis::set::utilities::get_set(&store, &key("c")).unwrap_err();
    assert!(matches!(e, ApplicationError::NoSuchKey(_)));
    let sets = ruddis::set::utilities::get_sets(&store, &vec![key("a"), key("b")]).unwrap();
    assert_eq!(sets.len(), 2);
    let e = ruddis::set::utilities::get_sets(&store, &vec![key("a"), key("c"), key("missing")])
        .unwrap_err();
    assert_eq!(e.message(), "No value at key c");
}

#[test]
fn diffstore_twice_reading_its_destination_is_stable() {
    let mut store = Store::new();
    let vals = |ns: &[i64]| ns.iter().map(|n| Primitive::Number(*n)).collect::<Vec<_>>();
    ruddis::set::add::command(&mut store, &key("a"), vals(&[1, 2, 3])).unwrap();
    ruddis::set::add::command(&mut store, &key("b"), vals(&[2])).unwrap();
    let first = ruddis::set::diff::store_command(&mut store, &key("dest"), &key("a"), &vec![key(
        "b",
    )])
    .unwrap();
    let second = ruddis::set::diff::store_command(&mut store, &key("dest2"), &key("dest"), &vec![
        key("b"),
    ])
    .unwrap();
    assert_eq!(first, 2);
    assert_eq!(second, 2);
    for v in [1, 3] {
        assert!(
            ruddis::set::ismember::command(&store, &key("dest2"), &Primitive::Number(v)).unwrap()
        );
    }
}

#[test]
fn interstore_twice_reading_its_destination_is_stable() {
    let mut store = Store::new();
    let vals = |ns: &[i64]| ns.iter().map(|n| Primitive::Number(*n)).collect::<Vec<_>>();
    ruddis::set::add::command(&mut store, &key("a"), vals(&[1, 2])).unwrap();
    ruddis::set::add::command(&mut store, &key("b"), vals(&[2, 3])).unwrap();
    let first =
        ruddis::set::interstore::command(&mut store, &key("dest"), &vec![key("a"), key("b")])
            .unwrap();
    let second =
        ruddis::set::interstore::command(&mut store, &key("dest2"), &vec![key("dest"), key("b")])
            .unwrap();
    assert_eq!(first, 1);
    assert_eq!(second, 1);
    assert!(ruddis::set::ismember::command(&store, &key("dest2"), &Primitive::Number(2)).unwrap());
}

#[test]
fn unionstore_twice_reading_its_destination_is_stable() {
    let mut store = Store::new();
    let vals = |ns: &[i64]| ns.iter().map(|n| Primitive::Number(*n)).collect::<Vec<_>>();
    ruddis::set::add::command(&mut store, &key("a"), vals(&[1, 2])).unwrap();
    ruddis::set::add::command(&mut store, &key("b"), vals(&[2, 3])).unwrap();
    let first =
        ruddis::set::union::store_command(&mut store, &key("dest"), &vec![key("a"), key("b")])
            .unwrap();
    let second =
        ruddis::set::union::store_command(&mut store, &key("dest2"), &vec![key("dest"), key("b")])
            .unwrap();
    assert_eq!(first, 3);
    assert_eq!(second, 3);
}

#[test]
fn union_size_is_bounded_by_operands() {
    let mut store = Store::new();
    let vals = |ns: &[i64]| ns.iter().map(|n| Primitive::Number(*n)).collect::<Vec<_>>();
    ruddis::set::add::command(&mut store, &key("a"), vals(&[1, 2, 3])).unwrap();
    ruddis::set::add::command(&mut store, &key("b"), vals(&[3, 4])).unwrap();
    ruddis::set::add::command(&mut store, &key("c"), vals(&[5])).unwrap();
    let overlapping =
        ruddis::set::union::command(&store, &vec![key("a"), key("b")]).unwrap().len();
    assert!(overlapping >= 3 && overlapping <= 5);
    assert_eq!(overlapping, 4);
    // Pairwise disjoint operands: the union size is exactly the sum.
    let disjoint = ruddis::set::union::command(&store, &vec![key("b"), key("c")]).unwrap().len();
    assert_eq!(disjoint, 3);
}

#[test]
fn intersection_size_is_at_most_the_smallest_operand() {
    let mut store = Store::new();
    let vals = |ns: &[i64]| ns.iter().map(|n| Primitive::Number(*n)).collect::<Vec<_>>();
    ruddis::set::add::command(&mut store, &key("a"), vals(&[1, 2, 3])).unwrap();
    ruddis::set::add::command(&mut store, &key("b"), vals(&[2, 3])).unwrap();
    let n = ruddis::set::inter::command(&store, &vec![key("a"), key("b")]).unwrap().len();
    assert!(n <= 2);
    assert_eq!(n, 2);
}

#[test]
fn insert_values_counts_distinct_new_values() {
    let mut s = ruddis::domain::PrimSet::new();
    let n = ruddis::set::add::insert_values(
        &mut s,
        vec![Primitive::Number(1), Primitive::Number(1), Primitive::Number(2)],
    );
    assert_eq!(n, 2);
    assert_eq!(s.len(), 2);
    let n = ruddis::set::add::insert_values(&mut s, vec![Primitive::Number(2)]);
    assert_eq!(n, 0);
}

#[test]
fn renderings() {
    assert_eq!(Primitive::String("x".to_string()).render(), "\"x\"");
    assert_eq!(Primitive::Number(-5).render(), "-5");
    assert_eq!(Primitive::Number(0).render(), "0");
    assert_eq!(Data::Primitive(Primitive::Number(10)).render(), "10");
    let s = ruddis::domain::PrimSet::new();
    assert_eq!(Data::SetOf(s).render(), "<Set>");
}

#[test]
fn fail_to_carries_the_message_for_absent_values() {
    let some: Option<i32> = Some(3);
    assert_eq!(some.fail_to("nope").unwrap(), 3);
    let none: Option<i32> = None;
    let e = none.fail_to("nope").unwrap_err();
    assert_eq!(e.message(), "nope");
}

#[test]
fn flatten_collapses_nested_results() {
    let ok: Result<Result<i32, ApplicationError>, ApplicationError> = Ok(Ok(3));
    assert_eq!(Flattenable::flatten(ok).unwrap(), 3);
    let inner: Result<Result<i32, ApplicationError>, ApplicationError> =
        Ok(Err(ApplicationError::ParseError("inner".to_string())));
    assert_eq!(Flattenable::flatten(inner).unwrap_err().message(), "inner");
    let outer: Result<Result<i32, ApplicationError>, ApplicationError> =
        Err(ApplicationError::ParseError("outer".to_string()));
    assert_eq!(Flattenable::flatten(outer).unwrap_err().message(), "outer");
}

#[test]
fn primitive_equality_is_structural() {
    assert_eq!(Primitive::Number(1), Primitive::Number(1));
    assert_ne!(Primitive::Number(1), Primitive::String("1".to_string()));
    assert_eq!(Primitive::String("a".to_string()), Primitive::String("a".to_string()));
    assert_ne!(Primitive::String("a".to_string()), Primitive::String("b".to_string()));
}
