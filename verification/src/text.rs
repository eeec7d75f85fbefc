//! Text-level building blocks shared by the parser and the renderer:
//! decimal rendering of integers, the value-literal grammar for signed
//! 64-bit numbers, and whitespace tokenization of a command line.

use vstd::prelude::*;

verus! {

/// The character for one decimal digit value (0 through 9).
pub open spec fn digit_char(d: int) -> char {
    if d == 0 {
        '0'
    } else if d == 1 {
        '1'
    } else if d == 2 {
        '2'
    } else if d == 3 {
        '3'
    } else if d == 4 {
        '4'
    } else if d == 5 {
        '5'
    } else if d == 6 {
        '6'
    } else if d == 7 {
        '7'
    } else if d == 8 {
        '8'
    } else {
        '9'
    }
}

/// The decimal digits of a non-negative integer, most significant first.
pub open spec fn dec_digits(n: int) -> Seq<char>
    decreases n,
{
    if n < 10 {
        seq![digit_char(n)]
    } else {
        dec_digits(n / 10).push(digit_char(n % 10))
    }
}

/// The decimal rendering of a signed integer: a minus sign for negative
/// values, then the digits with no leading zero.
pub open spec fn dec_str(n: int) -> Seq<char> {
    if n < 0 {
        seq!['-'] + dec_digits(-n)
    } else {
        dec_digits(n)
    }
}

fn digit_str(d: u64) -> (r: &'static str)
    requires
        d < 10,
    ensures
        r@.len() == 1,
        r@[0] == digit_char(d as int),
{
    proof {
        reveal_strlit("0");
        reveal_strlit("1");
        reveal_strlit("2");
        reveal_strlit("3");
        reveal_strlit("4");
        reveal_strlit("5");
        reveal_strlit("6");
        reveal_strlit("7");
        reveal_strlit("8");
        reveal_strlit("9");
    }
    match d {
        0 => "0",
        1 => "1",
        2 => "2",
        3 => "3",
        4 => "4",
        5 => "5",
        6 => "6",
        7 => "7",
        8 => "8",
        _ => "9",
    }
}

/// Renders a non-negative integer as its decimal digits.
pub fn u64_to_string(n: u64) -> (r: String)
    ensures
        r@ == dec_digits(n as int),
    decreases n,
{
    if n < 10 {
        let r = digit_str(n).to_owned();
        proof {
            assert(r@ =~= dec_digits(n as int));
        }
        r
    } else {
        let hi = u64_to_string(n / 10);
        let r = hi.concat(digit_str(n % 10));
        proof {
            assert(r@ =~= dec_digits(n as int));
        }
        r
    }
}

/// Renders a signed 64-bit integer as decimal text.
pub fn i64_to_string(n: i64) -> (r: String)
    ensures
        r@ == dec_str(n as int),
{
    if n >= 0 {
        u64_to_string(n as u64)
    } else {
        let mag: u64 = (-(n as i128)) as u64;
        let r = "-".to_owned().concat(u64_to_string(mag).as_str());
        proof {
            reveal_strlit("-");
            assert(r@ =~= dec_str(n as int));
        }
        r
    }
}

/// Whether a character is a decimal digit.
pub open spec fn is_digit(c: char) -> bool {
    48 <= c as u32 <= 57
}

/// The value of one decimal digit character.
pub open spec fn digit_val(c: char) -> int {
    c as u32 - 48
}

/// Whether every character of a sequence is a decimal digit.
pub open spec fn all_digits(s: Seq<char>) -> bool {
    forall|i: int| 0 <= i < s.len() ==> is_digit(#[trigger] s[i])
}

/// The value of a sequence of decimal digit characters (0 when empty).
pub open spec fn digits_val(s: Seq<char>) -> int
    decreases s.len(),
{
    if s.len() == 0 {
        0
    } else {
        digits_val(s.drop_last()) * 10 + digit_val(s.last())
    }
}

/// Whether a token matches the number-literal grammar: an optional leading
/// minus sign, then one or more decimal digits, with the value in the range
/// of a signed 64-bit integer.
pub open spec fn is_int_literal(s: Seq<char>) -> bool {
    if s.len() > 0 && s[0] == '-' {
        s.len() > 1 && all_digits(s.skip(1)) && digits_val(s.skip(1)) <= i64::MAX + 1
    } else {
        s.len() > 0 && all_digits(s) && digits_val(s) <= i64::MAX
    }
}

/// The value of a token that matches the number-literal grammar.
pub open spec fn int_literal_val(s: Seq<char>) -> int {
    if s[0] == '-' {
        -digits_val(s.skip(1))
    } else {
        digits_val(s)
    }
}

proof fn lemma_digits_val_nonneg(s: Seq<char>)
    requires
        all_digits(s),
    ensures
        digits_val(s) >= 0,
    decreases s.len(),
{
    if s.len() > 0 {
        lemma_digits_val_nonneg(s.drop_last());
    }
}

/// The value of a run of digits never drops as the run is extended.
proof fn lemma_digits_val_prefix_le(s: Seq<char>, i: int, j: int)
    requires
        all_digits(s),
        0 <= i <= j <= s.len(),
    ensures
        digits_val(s.subrange(0, i)) <= digits_val(s.subrange(0, j)),
    decreases j - i,
{
    if i < j {
        lemma_digits_val_prefix_le(s, i, j - 1);
        let p = s.subrange(0, j - 1);
        let q = s.subrange(0, j);
        assert(q.drop_last() =~= p);
        assert(all_digits(p)) by {
            assert(forall|k: int| 0 <= k < p.len() ==> p[k] == s[k]);
        }
        lemma_digits_val_nonneg(p);
    }
}

/// Parses a token as a base-10 signed 64-bit integer, exactly when the
/// token matches the number-literal grammar.
pub fn parse_i64(s: &str) -> (r: Option<i64>)
    ensures
        match r {
            Some(v) => is_int_literal(s@) && v as int == int_literal_val(s@),
            None => !is_int_literal(s@),
        },
{
    let n = s.unicode_len();
    if n == 0 {
        return None;
    }
    let neg = s.get_char(0) == '-';
    let start: usize = if neg {
        1
    } else {
        0
    };
    if start == n {
        return None;
    }
    let ghost body = if neg {
        s@.skip(1)
    } else {
        s@
    };
    let cap: u64 = if neg {
        9223372036854775808
    } else {
        9223372036854775807
    };
    let mut acc: u64 = 0;
    let mut i: usize = start;
    while i < n
        invariant
            start <= i <= n,
            n == s@.len(),
            start == if neg {
                1int
            } else {
                0int
            },
            body == if neg {
                s@.skip(1)
            } else {
                s@
            },
            start < n,
            neg ==> s@[0] == '-',
            !neg ==> !(s@[0] == '-'),
            cap == if neg {
                i64::MAX + 1
            } else {
                i64::MAX as int
            },
            all_digits(s@.subrange(start as int, i as int)),
            acc as int == digits_val(s@.subrange(start as int, i as int)),
            acc <= cap,
        decreases n - i,
    {
        let c = s.get_char(i);
        let cu = c as u32;
        if cu < 48 || cu > 57 {
            proof {
                assert(body[i - start] == s@[i as int]);
                assert(!all_digits(body));
            }
            return None;
        }
        let d = (cu - 48) as u64;
        let ghost pre = s@.subrange(start as int, i as int);
        let ghost cur = s@.subrange(start as int, i + 1);
        proof {
            assert(cur.drop_last() =~= pre);
        }
        if acc > (cap - d) / 10 {
            proof {
                // The value of this digit run already exceeds the cap, and
                // appending more digits can only increase it.
                assert(acc * 10 + d > cap) by (nonlinear_arith)
                    requires
                        acc > (cap - d) / 10,
                        d < 10,
                        acc >= 0,
                        cap >= d,
                ;
                if is_int_literal(s@) {
                    assert(all_digits(body));
                    assert(all_digits(s@.subrange(start as int, n as int))) by {
                        assert(forall|k: int|
                            0 <= k < n - start ==> s@.subrange(start as int, n as int)[k] == body[k]);
                    }
                    lemma_digits_val_prefix_le(
                        s@.subrange(start as int, n as int),
                        i + 1 - start,
                        n - start,
                    );
                    assert(s@.subrange(start as int, n as int).subrange(0, i + 1 - start) =~= cur);
                    assert(s@.subrange(start as int, n as int).subrange(0, n - start) =~= s@.subrange(
                        start as int,
                        n as int,
                    ));
                    assert(body =~= s@.subrange(start as int, n as int));
                    assert(digits_val(body) >= digits_val(cur));
                    assert(digits_val(cur) == acc * 10 + d);
                }
            }
            return None;
        }
        proof {
            assert(acc * 10 + d <= cap) by (nonlinear_arith)
                requires
                    acc <= (cap - d) / 10,
                    d < 10,
                    acc >= 0,
                    cap >= d,
            ;
        }
        acc = acc * 10 + d;
        i = i + 1;
    }
    proof {
        assert(s@.subrange(start as int, n as int) =~= body);
    }
    if neg {
        let v = (-(acc as i128)) as i64;
        Some(v)
    } else {
        Some(acc as i64)
    }
}

/// Whether a character separates tokens on a command line: a space or one
/// of the control characters tab through carriage return.
pub open spec fn is_ws(c: char) -> bool {
    c == ' ' || c == '\t' || c == '\n' || c == '\u{b}' || c == '\u{c}' || c == '\r'
}

fn is_ws_char(c: char) -> (r: bool)
    ensures
        r == is_ws(c),
{
    c == ' ' || c == '\t' || c == '\n' || c == '\u{b}' || c == '\u{c}' || c == '\r'
}

/// The length of the maximal whitespace-free prefix of a sequence.
pub open spec fn token_end(s: Seq<char>) -> int
    decreases s.len(),
{
    if s.len() == 0 || is_ws(s[0]) {
        0
    } else {
        1 + token_end(s.drop_first())
    }
}

proof fn lemma_token_end(s: Seq<char>)
    ensures
        0 <= token_end(s) <= s.len(),
        forall|k: int| 0 <= k < token_end(s) ==> !is_ws(#[trigger] s[k]),
        token_end(s) == s.len() || is_ws(s[token_end(s)]),
    decreases s.len(),
{
    if s.len() > 0 && !is_ws(s[0]) {
        lemma_token_end(s.drop_first());
        assert forall|k: int| 0 <= k < token_end(s) implies !is_ws(#[trigger] s[k]) by {
            if k > 0 {
                assert(s.drop_first()[k - 1] == s[k]);
            }
        }
        assert(s.drop_first()[token_end(s.drop_first())] == s[token_end(s)] || token_end(s)
            == s.len());
    }
}

proof fn lemma_token_end_is(s: Seq<char>, k: int)
    requires
        0 <= k <= s.len(),
        forall|j: int| 0 <= j < k ==> !is_ws(#[trigger] s[j]),
        k == s.len() || is_ws(s[k]),
    ensures
        token_end(s) == k,
    decreases s.len(),
{
    if k > 0 {
        assert(forall|j: int| 0 <= j < s.drop_first().len() ==> s.drop_first()[j] == s[j + 1]);
        lemma_token_end_is(s.drop_first(), k - 1);
    }
}

/// The tokens of a command line: the maximal whitespace-free runs of its
/// characters, in order.
pub open spec fn tokens_of(s: Seq<char>) -> Seq<Seq<char>>
    decreases s.len(),
    via tokens_of_dec
{
    if s.len() == 0 {
        Seq::empty()
    } else if is_ws(s[0]) {
        tokens_of(s.drop_first())
    } else {
        seq![s.subrange(0, token_end(s))] + tokens_of(s.skip(token_end(s)))
    }
}

#[via_fn]
proof fn tokens_of_dec(s: Seq<char>) {
    if s.len() > 0 && !is_ws(s[0]) {
        lemma_token_end(s);
    }
}

/// Splits a command line into its whitespace-separated tokens.
pub fn tokenize(line: &str) -> (tokens: Vec<String>)
    ensures
        tokens@.map_values(|t: String| t@) == tokens_of(line@),
{
    let n = line.unicode_len();
    let mut toks: Vec<String> = Vec::new();
    let mut i: usize = 0;
    proof {
        assert(line@.skip(0) =~= line@);
    }
    while i < n
        invariant
            i <= n,
            n == line@.len(),
            toks@.map_values(|t: String| t@) + tokens_of(line@.skip(i as int)) =~~= tokens_of(
                line@,
            ),
        decreases n - i,
    {
        let c = line.get_char(i);
        if is_ws_char(c) {
            proof {
                assert(line@.skip(i as int).drop_first() =~= line@.skip(i + 1));
            }
            i = i + 1;
        } else {
            let mut j: usize = i + 1;
            while j < n && !is_ws_char(line.get_char(j))
                invariant
                    i < j <= n,
                    n == line@.len(),
                    forall|k: int| i <= k < j ==> !is_ws(#[trigger] line@[k]),
                decreases n - j,
            {
                j = j + 1;
            }
            proof {
                let t = line@.skip(i as int);
                assert(forall|k: int| 0 <= k < t.len() ==> t[k] == line@[k + i]);
                lemma_token_end_is(t, j - i);
                assert(t.subrange(0, j - i) =~= line@.subrange(i as int, j as int));
                assert(t.skip(j - i) =~= line@.skip(j as int));
            }
            let tok = line.substring_char(i, j).to_owned();
            let ghost prev = toks@.map_values(|t: String| t@);
            toks.push(tok);
            proof {
                assert(toks@.map_values(|t: String| t@) =~~= prev.push(line@.subrange(
                    i as int,
                    j as int,
                )));
            }
            i = j;
        }
    }
    proof {
        assert(line@.skip(n as int) =~= Seq::<char>::empty());
        assert(toks@.map_values(|t: String| t@) =~~= tokens_of(line@));
    }
    toks
}

} // verus!
