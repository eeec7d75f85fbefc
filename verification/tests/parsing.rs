//! The parser alone: the token grammar, the value literals, and the
//! documented parse failures.

use ruddis::domain::{Command, Primitive};
use ruddis::errors::ApplicationError;
use ruddis::parse::{parse_cmd, parse_primitive};

fn parse_err(line: &str) -> String {
    parse_cmd(line).unwrap_err().message()
}

#[test]
fn empty_and_blank_lines_are_rejected() {
    assert_eq!(parse_err(""), "No command given");
    assert_eq!(parse_err("   \t  "), "No command given");
}

#[test]
fn unknown_commands_are_named() {
    assert_eq!(parse_err("bogus x y"), "No such command: bogus");
    assert_eq!(parse_err("SET k 1"), "No such command: SET");
}

#[test]
fn missing_arguments_are_rejected() {
    assert_eq!(parse_err("echo"), "Nothing to echo");
    assert_eq!(parse_err("set"), "No key provided");
    assert_eq!(parse_err("set k"), "No value provided");
    assert_eq!(parse_err("get"), "No key provided");
    assert_eq!(parse_err("incr"), "No key provided");
    assert_eq!(parse_err("sadd"), "No key provided");
    assert_eq!(parse_err("scard"), "No key provided");
    assert_eq!(parse_err("sismember"), "No key provided");
    assert_eq!(parse_err("sismember k"), "No value provided");
    assert_eq!(parse_err("sdiff"), "No base key provided");
    assert_eq!(parse_err("sdiffstore"), "No destination provided");
    assert_eq!(parse_err("sdiffstore dest"), "No base key provided");
    assert_eq!(parse_err("sinterstore"), "No destination provided");
    assert_eq!(parse_err("sunionstore"), "No destination provided");
}

#[test]
fn bad_value_literals_are_rejected() {
    assert_eq!(parse_err("set k bare"), "Unknown Type");
    assert_eq!(parse_err("set k \""), "Unknown Type");
    assert_eq!(parse_err("set k 12x"), "Unknown Type");
    assert_eq!(parse_err("set k +5"), "Unknown Type");
    assert_eq!(parse_err("set k -"), "Unknown Type");
    assert_eq!(parse_err("sadd k 1 oops"), "Unknown Type");
}

#[test]
fn tokens_split_on_runs_of_whitespace() {
    let cmd = parse_cmd("  sadd \t s  1   2 ").unwrap();
    match cmd {
        Command::Sadd(key, vals) => {
            assert_eq!(key, "s");
            assert_eq!(vals.len(), 2);
        }
        _ => panic!("wrong command"),
    }
}

#[test]
fn quoted_tokens_are_string_literals() {
    match parse_primitive("\"bar\"").unwrap() {
        Primitive::String(s) => assert_eq!(s, "bar"),
        _ => panic!("wrong variant"),
    }
    match parse_primitive("\"\"").unwrap() {
        Primitive::String(s) => assert_eq!(s, ""),
        _ => panic!("wrong variant"),
    }
    // Inner quotes are taken literally, not unescaped.
    match parse_primitive("\"a\"b\"").unwrap() {
        Primitive::String(s) => assert_eq!(s, "a\"b"),
        _ => panic!("wrong variant"),
    }
}

#[test]
fn numeric_tokens_are_number_literals() {
    match parse_primitive("42").unwrap() {
        Primitive::Number(n) => assert_eq!(n, 42),
        _ => panic!("wrong variant"),
    }
    match parse_primitive("-7").unwrap() {
        Primitive::Number(n) => assert_eq!(n, -7),
        _ => panic!("wrong variant"),
    }
    match parse_primitive("007").unwrap() {
        Primitive::Number(n) => assert_eq!(n, 7),
        _ => panic!("wrong variant"),
    }
}

#[test]
fn number_literals_cover_exactly_the_64_bit_range() {
    match parse_primitive("9223372036854775807").unwrap() {
        Primitive::Number(n) => assert_eq!(n, i64::MAX),
        _ => panic!("wrong variant"),
    }
    match parse_primitive("-9223372036854775808").unwrap() {
        Primitive::Number(n) => assert_eq!(n, i64::MIN),
        _ => panic!("wrong variant"),
    }
    assert!(matches!(
        parse_primitive("9223372036854775808"),
        Err(ApplicationError::ParseError(_))
    ));
    assert!(matches!(
        parse_primitive("-9223372036854775809"),
        Err(ApplicationError::ParseError(_))
    ));
}

#[test]
fn a_quoted_number_is_a_string() {
    match parse_primitive("\"1\"").unwrap() {
        Primitive::String(s) => assert_eq!(s, "1"),
        _ => panic!("wrong variant"),
    }
}

#[test]
fn parse_is_pure_and_builds_the_right_command() {
    assert!(matches!(parse_cmd("get k").unwrap(), Command::Get(_)));
    assert!(matches!(parse_cmd("incr k").unwrap(), Command::Incr(_)));
    assert!(matches!(parse_cmd("scard k").unwrap(), Command::Scard(_)));
    assert!(matches!(parse_cmd("echo hi").unwrap(), Command::Echo(_)));
    assert!(matches!(parse_cmd("set k 1").unwrap(), Command::Assign(_, _)));
    assert!(matches!(parse_cmd("sismember k 1").unwrap(), Command::Sismember(_, _)));
    assert!(matches!(parse_cmd("sdiff a b").unwrap(), Command::Sdiff(_, _)));
    assert!(matches!(parse_cmd("sdiffstore d a b").unwrap(), Command::SdiffStore(_, _, _)));
    assert!(matches!(parse_cmd("sinter a b").unwrap(), Command::Sinter(_)));
    assert!(matches!(parse_cmd("sinterstore d a b").unwrap(), Command::SinterStore(_, _)));
    assert!(matches!(parse_cmd("sunion a").unwrap(), Command::Sunion(_)));
    assert!(matches!(parse_cmd("sunionstore d a").unwrap(), Command::SunionStore(_, _)));
}

#[test]
fn sunion_and_sinter_take_any_number_of_keys_at_parse_time() {
    match parse_cmd("sunion").unwrap() {
        Command::Sunion(keys) => assert_eq!(keys.len(), 0),
        _ => panic!("wrong command"),
    }
    match parse_cmd("sinter a").unwrap() {
        Command::Sinter(keys) => assert_eq!(keys.len(), 1),
        _ => panic!("wrong command"),
    }
}
