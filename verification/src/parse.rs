//! The parser: turns one line of text into a validated [`Command`],
//! rejecting malformed input with a descriptive error before any store
//! access occurs. Parsing is pure and total except for the documented
//! failures.

use vstd::prelude::*;
use crate::domain::{keys_view, prims_view, Command, CommandV, Data, DataV, Primitive, PrimV};
use crate::errors::{ApplicationError, ErrV};
use crate::text::{int_literal_val, is_int_literal, tokenize, tokens_of};

verus! {

/// Whether a token is a string literal: a single leading and a single
/// trailing double-quote character. Inner quotes are taken literally, not
/// unescaped.
pub open spec fn is_string_literal(s: Seq<char>) -> bool {
    s.len() >= 2 && s[0] == '"' && s.last() == '"'
}

/// The value-literal grammar: a quoted token is a string literal whose
/// payload is the inner text; otherwise a token that parses as a base-10
/// signed 64-bit integer is a number literal; any other token is rejected.
pub open spec fn parse_prim_spec(s: Seq<char>) -> Result<PrimV, ErrV> {
    if is_string_literal(s) {
        Ok(PrimV::Str(s.subrange(1, s.len() - 1)))
    } else if is_int_literal(s) {
        Ok(PrimV::Num(int_literal_val(s) as i64))
    } else {
        Err(ErrV::ParseError("Unknown Type"@))
    }
}

/// The value literals of a list of tokens, or the error of the first token
/// that matches no literal rule.
pub open spec fn parse_prims_spec(toks: Seq<Seq<char>>) -> Result<Seq<PrimV>, ErrV>
    decreases toks.len(),
{
    if toks.len() == 0 {
        Ok(Seq::empty())
    } else {
        match parse_prim_spec(toks[0]) {
            Ok(p) => match parse_prims_spec(toks.drop_first()) {
                Ok(rest) => Ok(seq![p] + rest),
                Err(e) => Err(e),
            },
            Err(e) => Err(e),
        }
    }
}

/// The command denoted by the tokens of one line.
pub open spec fn parse_tokens_spec(toks: Seq<Seq<char>>) -> Result<CommandV, ErrV> {
    if toks.len() == 0 {
        Err(ErrV::ParseError("No command given"@))
    } else {
        let cmd = toks[0];
        if cmd == "echo"@ {
            if toks.len() < 2 {
                Err(ErrV::ParseError("Nothing to echo"@))
            } else {
                Ok(CommandV::Echo(toks[1]))
            }
        } else if cmd == "set"@ {
            if toks.len() < 2 {
                Err(ErrV::ParseError("No key provided"@))
            } else if toks.len() < 3 {
                Err(ErrV::ParseError("No value provided"@))
            } else {
                match parse_prim_spec(toks[2]) {
                    Ok(p) => Ok(CommandV::Assign(toks[1], DataV::Prim(p))),
                    Err(e) => Err(e),
                }
            }
        } else if cmd == "get"@ {
            if toks.len() < 2 {
                Err(ErrV::ParseError("No key provided"@))
            } else {
                Ok(CommandV::Get(toks[1]))
            }
        } else if cmd == "incr"@ {
            if toks.len() < 2 {
                Err(ErrV::ParseError("No key provided"@))
            } else {
                Ok(CommandV::Incr(toks[1]))
            }
        } else if cmd == "sadd"@ {
            if toks.len() < 2 {
                Err(ErrV::ParseError("No key provided"@))
            } else {
                match parse_prims_spec(toks.skip(2)) {
                    Ok(vals) => Ok(CommandV::Sadd(toks[1], vals)),
                    Err(e) => Err(e),
                }
            }
        } else if cmd == "scard"@ {
            if toks.len() < 2 {
                Err(ErrV::ParseError("No key provided"@))
            } else {
                Ok(CommandV::Scard(toks[1]))
            }
        } else if cmd == "sismember"@ {
            if toks.len() < 2 {
                Err(ErrV::ParseError("No key provided"@))
            } else if toks.len() < 3 {
                Err(ErrV::ParseError("No value provided"@))
            } else {
                match parse_prim_spec(toks[2]) {
                    Ok(p) => Ok(CommandV::Sismember(toks[1], p)),
                    Err(e) => Err(e),
                }
            }
        } else if cmd == "sdiff"@ {
            if toks.len() < 2 {
                Err(ErrV::ParseError("No base key provided"@))
            } else {
                Ok(CommandV::Sdiff(toks[1], toks.skip(2)))
            }
        } else if cmd == "sdiffstore"@ {
            if toks.len() < 2 {
                Err(ErrV::ParseError("No destination provided"@))
            } else if toks.len() < 3 {
                Err(ErrV::ParseError("No base key provided"@))
            } else {
                Ok(CommandV::SdiffStore(toks[1], toks[2], toks.skip(3)))
            }
        } else if cmd == "sinter"@ {
            Ok(CommandV::Sinter(toks.skip(1)))
        } else if cmd == "sinterstore"@ {
            if toks.len() < 2 {
                Err(ErrV::ParseError("No destination provided"@))
            } else {
                Ok(CommandV::SinterStore(toks[1], toks.skip(2)))
            }
        } else if cmd == "sunion"@ {
            Ok(CommandV::Sunion(toks.skip(1)))
        } else if cmd == "sunionstore"@ {
            if toks.len() < 2 {
                Err(ErrV::ParseError("No destination provided"@))
            } else {
                Ok(CommandV::SunionStore(toks[1], toks.skip(2)))
            }
        } else {
            Err(ErrV::ParseError("No such command: "@ + cmd))
        }
    }
}

/// The command denoted by one line of text: the line is split into
/// whitespace-separated tokens, the first token names the command, and the
/// rest are its arguments.
pub open spec fn parse_spec(line: Seq<char>) -> Result<CommandV, ErrV> {
    parse_tokens_spec(tokens_of(line))
}

/// Parses one token as a value literal.
pub fn parse_primitive(token: &str) -> (r: Result<Primitive, ApplicationError>)
    ensures
        match r {
            Ok(p) => parse_prim_spec(token@) matches Ok(pv) && p@ == pv,
            Err(e) => parse_prim_spec(token@) matches Err(ev) && e@ == ev,
        },
{
    let n = token.unicode_len();
    if n >= 2 && token.get_char(0) == '"' && token.get_char(n - 1) == '"' {
        let inner = token.substring_char(1, n - 1).to_owned();
        Ok(Primitive::String(inner))
    } else {
        match crate::text::parse_i64(token) {
            Some(v) => Ok(Primitive::Number(v)),
            None => Err(ApplicationError::ParseError("Unknown Type".to_owned())),
        }
    }
}

fn token_is(t: &String, lit: &str) -> (r: bool)
    ensures
        r == (t@ == lit@),
{
    t.eq(&lit.to_owned())
}

fn rest_tokens(toks: &Vec<String>, from: usize) -> (r: Vec<String>)
    requires
        from <= toks@.len(),
    ensures
        keys_view(r@) == keys_view(toks@).skip(from as int),
{
    let n = toks.len();
    let mut out: Vec<String> = Vec::new();
    let mut i: usize = from;
    while i < n
        invariant
            from <= i <= n,
            n == toks@.len(),
            keys_view(out@) =~= keys_view(toks@).subrange(from as int, i as int),
        decreases n - i,
    {
        let ghost prev = keys_view(out@);
        out.push(toks[i].clone());
        proof {
            assert(keys_view(out@) =~= prev.push(toks@[i as int]@));
            assert(keys_view(toks@).subrange(from as int, i + 1) =~= keys_view(
                toks@,
            ).subrange(from as int, i as int).push(toks@[i as int]@));
        }
        i = i + 1;
    }
    proof {
        assert(keys_view(toks@).subrange(from as int, n as int) =~= keys_view(toks@).skip(
            from as int,
        ));
    }
    out
}

fn rest_values(toks: &Vec<String>, from: usize) -> (r: Result<Vec<Primitive>, ApplicationError>)
    requires
        from <= toks@.len(),
    ensures
        match r {
            Ok(vals) => parse_prims_spec(keys_view(toks@).skip(from as int)) matches Ok(pvs)
                && prims_view(vals@) == pvs,
            Err(e) => parse_prims_spec(keys_view(toks@).skip(from as int)) matches Err(ev) && e@
                == ev,
        },
{
    let ghost whole = keys_view(toks@).skip(from as int);
    let n = toks.len();
    let mut out: Vec<Primitive> = Vec::new();
    let mut i: usize = from;
    proof {
        assert(keys_view(toks@).skip(from as int) =~= whole.skip(0));
    }
    while i < n
        invariant
            from <= i <= n,
            n == toks@.len(),
            whole == keys_view(toks@).skip(from as int),
            prims_view(out@).len() == i - from,
            parse_prims_spec(whole) == match parse_prims_spec(whole.skip(i - from)) {
                Ok(rest) => Ok::<Seq<PrimV>, ErrV>(prims_view(out@) + rest),
                Err(e) => Err::<Seq<PrimV>, ErrV>(e),
            },
        decreases n - i,
    {
        proof {
            assert(whole.skip(i - from)[0] == toks@[i as int]@);
        }
        match parse_primitive(toks[i].as_str()) {
            Ok(p) => {
                let ghost prev = prims_view(out@);
                out.push(p);
                proof {
                    assert(prims_view(out@) =~= prev.push(p@));
                    assert(whole.skip(i - from).drop_first() =~= whole.skip(i + 1 - from));
                    assert(parse_prims_spec(whole) == match parse_prims_spec(
                        whole.skip(i + 1 - from),
                    ) {
                        Ok(rest) => Ok::<Seq<PrimV>, ErrV>(prims_view(out@) + rest),
                        Err(e) => Err::<Seq<PrimV>, ErrV>(e),
                    }) by {
                        if parse_prims_spec(whole.skip(i + 1 - from)) is Ok {
                            let rest = parse_prims_spec(whole.skip(i + 1 - from))->Ok_0;
                            assert(prev + (seq![p@] + rest) =~= prims_view(out@) + rest);
                        }
                    }
                }
            },
            Err(e) => {
                return Err(e);
            },
        }
        i = i + 1;
    }
    proof {
        assert(whole.skip(n - from) =~= Seq::<Seq<char>>::empty());
        assert(parse_prims_spec(whole.skip(n - from)) == Ok::<Seq<PrimV>, ErrV>(Seq::empty()));
        if parse_prims_spec(whole) is Ok {
            assert(prims_view(out@) + Seq::<PrimV>::empty() =~= prims_view(out@));
        }
    }
    Ok(out)
}

/// Parses one line of text into a command, or the error that names the
/// first thing wrong with it: an empty line, an unrecognized command name,
/// a missing positional argument, or a value token that matches no literal
/// rule.
pub fn parse_cmd(line: &str) -> (r: Result<Command, ApplicationError>)
    ensures
        match r {
            Ok(c) => parse_spec(line@) matches Ok(cv) && c@ == cv,
            Err(e) => parse_spec(line@) matches Err(ev) && e@ == ev,
        },
{
    let toks = tokenize(line);
    let ghost tv = tokens_of(line@);
    proof {
        assert(keys_view(toks@) == tv);
    }
    if toks.len() == 0 {
        return Err(ApplicationError::ParseError("No command given".to_owned()));
    }
    let cmd = &toks[0];
    if token_is(cmd, "echo") {
        if toks.len() < 2 {
            Err(ApplicationError::ParseError("Nothing to echo".to_owned()))
        } else {
            Ok(Command::Echo(toks[1].clone()))
        }
    } else if token_is(cmd, "set") {
        if toks.len() < 2 {
            Err(ApplicationError::ParseError("No key provided".to_owned()))
        } else if toks.len() < 3 {
            Err(ApplicationError::ParseError("No value provided".to_owned()))
        } else {
            match parse_primitive(toks[2].as_str()) {
                Ok(p) => Ok(Command::Assign(toks[1].clone(), Data::Primitive(p))),
                Err(e) => Err(e),
            }
        }
    } else if token_is(cmd, "get") {
        if toks.len() < 2 {
            Err(ApplicationError::ParseError("No key provided".to_owned()))
        } else {
            Ok(Command::Get(toks[1].clone()))
        }
    } else if token_is(cmd, "incr") {
        if toks.len() < 2 {
            Err(ApplicationError::ParseError("No key provided".to_owned()))
        } else {
            Ok(Command::Incr(toks[1].clone()))
        }
    } else if token_is(cmd, "sadd") {
        if toks.len() < 2 {
            Err(ApplicationError::ParseError("No key provided".to_owned()))
        } else {
            match rest_values(&toks, 2) {
                Ok(vals) => Ok(Command::Sadd(toks[1].clone(), vals)),
                Err(e) => Err(e),
            }
        }
    } else if token_is(cmd, "scard") {
        if toks.len() < 2 {
            Err(ApplicationError::ParseError("No key provided".to_owned()))
        } else {
            Ok(Command::Scard(toks[1].clone()))
        }
    } else if token_is(cmd, "sismember") {
        if toks.len() < 2 {
            Err(ApplicationError::ParseError("No key provided".to_owned()))
        } else if toks.len() < 3 {
            Err(ApplicationError::ParseError("No value provided".to_owned()))
        } else {
            match parse_primitive(toks[2].as_str()) {
                Ok(p) => Ok(Command::Sismember(toks[1].clone(), p)),
                Err(e) => Err(e),
            }
        }
    } else if token_is(cmd, "sdiff") {
        if toks.len() < 2 {
            Err(ApplicationError::ParseError("No base key provided".to_owned()))
        } else {
            Ok(Command::Sdiff(toks[1].clone(), rest_tokens(&toks, 2)))
        }
    } else if token_is(cmd, "sdiffstore") {
        if toks.len() < 2 {
            Err(ApplicationError::ParseError("No destination provided".to_owned()))
        } else if toks.len() < 3 {
            Err(ApplicationError::ParseError("No base key provided".to_owned()))
        } else {
            Ok(Command::SdiffStore(toks[1].clone(), toks[2].clone(), rest_tokens(&toks, 3)))
        }
    } else if token_is(cmd, "sinter") {
        Ok(Command::Sinter(rest_tokens(&toks, 1)))
    } else if token_is(cmd, "sinterstore") {
        if toks.len() < 2 {
            Err(ApplicationError::ParseError("No destination provided".to_owned()))
        } else {
            Ok(Command::SinterStore(toks[1].clone(), rest_tokens(&toks, 2)))
        }
    } else if token_is(cmd, "sunion") {
        Ok(Command::Sunion(rest_tokens(&toks, 1)))
    } else if token_is(cmd, "sunionstore") {
        if toks.len() < 2 {
            Err(ApplicationError::ParseError("No destination provided".to_owned()))
        } else {
            Ok(Command::SunionStore(toks[1].clone(), rest_tokens(&toks, 2)))
        }
    } else {
        let msg = "No such command: ".to_owned().concat(cmd.as_str());
        proof {
            assert(msg@ =~= "No such command: "@ + tv[0]);
        }
        Err(ApplicationError::ParseError(msg))
    }
}

} // verus!
