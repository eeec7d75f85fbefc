//! End-to-end scenarios through the parser and the dispatcher.

use ruddis::dispatch::execute;
use ruddis::parse::parse_cmd;
use ruddis::store::Store;

fn run(store: &mut Store, line: &str) -> Result<String, ruddis::errors::ApplicationError> {
    match parse_cmd(line) {
        Ok(cmd) => execute(store, cmd),
        Err(e) => Err(e),
    }
}

fn run_ok(store: &mut Store, line: &str) -> String {
    run(store, line).unwrap()
}

fn run_err(store: &mut Store, line: &str) -> String {
    run(store, line).unwrap_err().message()
}

#[test]
fn set_get_incr_on_string() {
    let mut store = Store::new();
    assert_eq!(run_ok(&mut store, "set foo \"bar\""), "\"bar\"");
    assert_eq!(run_ok(&mut store, "get foo"), "\"bar\"");
    assert_eq!(run_err(&mut store, "incr foo"), "\"bar\" is not a number");
}

#[test]
fn sadd_scard_sismember() {
    let mut store = Store::new();
    assert_eq!(run_ok(&mut store, "sadd s 1 2 2 3"), "3");
    assert_eq!(run_ok(&mut store, "scard s"), "3");
    assert_eq!(run_ok(&mut store, "sismember s 2"), "true");
}

#[test]
fn sinterstore_scenario() {
    let mut store = Store::new();
    assert_eq!(run_ok(&mut store, "sadd a 1 2"), "2");
    assert_eq!(run_ok(&mut store, "sadd b 2 3"), "2");
    assert_eq!(run_ok(&mut store, "sinterstore dest a b"), "1");
    assert_eq!(run_ok(&mut store, "get dest"), "<Set>");
    assert_eq!(run_ok(&mut store, "sismember dest 2"), "true");
}

#[test]
fn echo_returns_first_token() {
    let mut store = Store::new();
    assert_eq!(run_ok(&mut store, "echo hello"), "hello");
    assert_eq!(run_ok(&mut store, "echo hello world"), "hello");
}

#[test]
fn get_absent_key_fails() {
    let mut store = Store::new();
    assert_eq!(run_err(&mut store, "get missing"), "No value at key missing");
}

#[test]
fn incr_counts_up_from_absent() {
    let mut store = Store::new();
    assert_eq!(run_ok(&mut store, "incr n"), "1");
    assert_eq!(run_ok(&mut store, "incr n"), "2");
    assert_eq!(run_ok(&mut store, "incr n"), "3");
    assert_eq!(run_ok(&mut store, "get n"), "3");
}

#[test]
fn incr_wraps_at_the_numeric_limit() {
    let mut store = Store::new();
    assert_eq!(run_ok(&mut store, "set n 9223372036854775807"), "9223372036854775807");
    assert_eq!(run_ok(&mut store, "incr n"), "-9223372036854775808");
}

#[test]
fn incr_on_set_fails() {
    let mut store = Store::new();
    run_ok(&mut store, "sadd s 1");
    assert_eq!(run_err(&mut store, "incr s"), "<Set> is not a number");
}

#[test]
fn set_overwrites_any_previous_value() {
    let mut store = Store::new();
    run_ok(&mut store, "sadd k 1 2");
    assert_eq!(run_ok(&mut store, "set k 7"), "7");
    assert_eq!(run_ok(&mut store, "get k"), "7");
    assert_eq!(run_ok(&mut store, "set k \"x\""), "\"x\"");
    assert_eq!(run_ok(&mut store, "get k"), "\"x\"");
}

#[test]
fn sadd_readd_counts_only_new_values() {
    let mut store = Store::new();
    assert_eq!(run_ok(&mut store, "sadd s 1"), "1");
    assert_eq!(run_ok(&mut store, "sadd s 1"), "0");
    assert_eq!(run_ok(&mut store, "sadd s 1 2"), "1");
    assert_eq!(run_ok(&mut store, "scard s"), "2");
}

#[test]
fn sadd_with_no_values_creates_an_empty_set() {
    let mut store = Store::new();
    assert_eq!(run_ok(&mut store, "sadd s"), "0");
    assert_eq!(run_ok(&mut store, "scard s"), "0");
}

#[test]
fn sadd_on_primitive_fails() {
    let mut store = Store::new();
    run_ok(&mut store, "set k 5");
    assert_eq!(run_err(&mut store, "sadd k 1"), "5 is not a set");
}

#[test]
fn string_and_number_elements_stay_distinct() {
    let mut store = Store::new();
    assert_eq!(run_ok(&mut store, "sadd s \"1\""), "1");
    assert_eq!(run_ok(&mut store, "sismember s 1"), "false");
    assert_eq!(run_ok(&mut store, "sadd s 1"), "1");
    assert_eq!(run_ok(&mut store, "scard s"), "2");
}

#[test]
fn scard_errors() {
    let mut store = Store::new();
    assert_eq!(run_err(&mut store, "scard missing"), "No value at key missing");
    run_ok(&mut store, "set k \"v\"");
    assert_eq!(run_err(&mut store, "scard k"), "\"v\" is not a set");
}

#[test]
fn sismember_errors_and_false_case() {
    let mut store = Store::new();
    assert_eq!(run_err(&mut store, "sismember missing 1"), "No value at key missing");
    run_ok(&mut store, "sadd s 1");
    assert_eq!(run_ok(&mut store, "sismember s 2"), "false");
    run_ok(&mut store, "set p 3");
    assert_eq!(run_err(&mut store, "sismember p 3"), "3 is not a set");
}

#[test]
fn sunion_lists_elements_with_indices() {
    let mut store = Store::new();
    run_ok(&mut store, "sadd a 1 2");
    assert_eq!(run_ok(&mut store, "sunion a"), "0) 1\n1) 2\n");
}

#[test]
fn sunion_of_no_keys_is_empty() {
    let mut store = Store::new();
    assert_eq!(run_ok(&mut store, "sunion"), "");
}

#[test]
fn sunionstore_reports_union_size() {
    let mut store = Store::new();
    run_ok(&mut store, "sadd a 1 2");
    run_ok(&mut store, "sadd b 2 3");
    assert_eq!(run_ok(&mut store, "sunionstore dest a b"), "3");
    assert_eq!(run_ok(&mut store, "scard dest"), "3");
    assert_eq!(run_ok(&mut store, "sismember dest 3"), "true");
}

#[test]
fn sunion_fails_fast_on_the_first_bad_key() {
    let mut store = Store::new();
    run_ok(&mut store, "sadd a 1");
    run_ok(&mut store, "set p 5");
    assert_eq!(run_err(&mut store, "sunion a missing p"), "No value at key missing");
    assert_eq!(run_err(&mut store, "sunion a p missing"), "5 is not a set");
}

#[test]
fn sdiff_removes_elements_of_the_others() {
    let mut store = Store::new();
    run_ok(&mut store, "sadd a 1 2 3");
    run_ok(&mut store, "sadd b 2");
    run_ok(&mut store, "sadd c 3");
    assert_eq!(run_ok(&mut store, "sdiffstore dest a b c"), "1");
    assert_eq!(run_ok(&mut store, "sismember dest 1"), "true");
    assert_eq!(run_ok(&mut store, "sismember dest 2"), "false");
}

#[test]
fn self_difference_is_empty() {
    let mut store = Store::new();
    run_ok(&mut store, "sadd a 1 2 3");
    assert_eq!(run_ok(&mut store, "sdiff a a"), "");
    assert_eq!(run_ok(&mut store, "sdiffstore dest a a"), "0");
    assert_eq!(run_ok(&mut store, "scard dest"), "0");
}

#[test]
fn sdiffstore_with_no_others_copies_the_base() {
    let mut store = Store::new();
    run_ok(&mut store, "sadd a 1 2");
    assert_eq!(run_ok(&mut store, "sdiffstore dest a"), "2");
    assert_eq!(run_ok(&mut store, "scard dest"), "2");
    assert_eq!(run_ok(&mut store, "sismember dest 1"), "true");
}

#[test]
fn self_intersection_is_the_set_itself() {
    let mut store = Store::new();
    run_ok(&mut store, "sadd a 1 2 3");
    assert_eq!(run_ok(&mut store, "sinter a a"), "0) 1\n1) 2\n2) 3\n");
    assert_eq!(run_ok(&mut store, "sinterstore dest a a"), "3");
}

#[test]
fn sinter_requires_two_keys() {
    let mut store = Store::new();
    run_ok(&mut store, "sadd a 1");
    assert_eq!(run_err(&mut store, "sinter a"), "Not enough sets to intersect");
    assert_eq!(run_err(&mut store, "sinterstore dest a"), "Not enough sets to intersect");
    assert_eq!(run_err(&mut store, "sinter"), "Not enough sets to intersect");
}

#[test]
fn disjoint_intersection_is_empty() {
    let mut store = Store::new();
    run_ok(&mut store, "sadd a 1 2");
    run_ok(&mut store, "sadd b 3 4");
    assert_eq!(run_ok(&mut store, "sinterstore dest a b"), "0");
}

#[test]
fn store_variants_overwrite_primitive_destinations() {
    let mut store = Store::new();
    run_ok(&mut store, "sadd a 1 2");
    run_ok(&mut store, "sadd b 2 3");
    run_ok(&mut store, "set dest \"old\"");
    assert_eq!(run_ok(&mut store, "sunionstore dest a b"), "3");
    assert_eq!(run_ok(&mut store, "get dest"), "<Set>");
}

#[test]
fn failed_operations_leave_the_store_unchanged() {
    let mut store = Store::new();
    run_ok(&mut store, "set k 5");
    assert_eq!(run_err(&mut store, "sadd k 1"), "5 is not a set");
    assert_eq!(run_ok(&mut store, "get k"), "5");
    assert_eq!(run_err(&mut store, "sdiffstore k k missing"), "No value at key missing");
    assert_eq!(run_ok(&mut store, "get k"), "5");
}

#[test]
fn negative_numbers_round_trip() {
    let mut store = Store::new();
    assert_eq!(run_ok(&mut store, "set n -42"), "-42");
    assert_eq!(run_ok(&mut store, "get n"), "-42");
    assert_eq!(run_ok(&mut store, "incr n"), "-41");
}
