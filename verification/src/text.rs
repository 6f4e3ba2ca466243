//! Decimal text: rendering numbers as digit characters and parsing them
//! back, with the round-trip proved.

use vstd::prelude::*;
use vstd::std_specs::iter::IteratorSpec;
use vstd::string::StringExecFns;

verus! {

/// The decimal digit characters.
pub open spec fn digit_char(d: int) -> char {
    if d == 0 {
        '0'
    } else if d == 1 {
        '1'
    } else if d == 2 {
        '2'
    } else if d == 3 {
        '3'
    } else if d == 4 {
        '4'
    } else if d == 5 {
        '5'
    } else if d == 6 {
        '6'
    } else if d == 7 {
        '7'
    } else if d == 8 {
        '8'
    } else {
        '9'
    }
}

/// Value of a digit character, or -1 for any other character.
pub open spec fn digit_val(c: char) -> int {
    if c == '0' {
        0
    } else if c == '1' {
        1
    } else if c == '2' {
        2
    } else if c == '3' {
        3
    } else if c == '4' {
        4
    } else if c == '5' {
        5
    } else if c == '6' {
        6
    } else if c == '7' {
        7
    } else if c == '8' {
        8
    } else if c == '9' {
        9
    } else {
        -1
    }
}

pub open spec fn is_digit(c: char) -> bool {
    digit_val(c) >= 0
}

/// Decimal rendering of a non-negative number, most significant digit
/// first, without leading zeroes.
pub open spec fn dec_chars(n: int) -> Seq<char>
    decreases n,
{
    if n < 10 {
        seq![digit_char(n)]
    } else {
        dec_chars(n / 10).push(digit_char(n % 10))
    }
}

/// Number of digits in the decimal rendering.
pub open spec fn num_digits(n: int) -> int
    decreases n,
{
    if n < 10 {
        1
    } else {
        1 + num_digits(n / 10)
    }
}

pub open spec fn pow10(k: int) -> int
    decreases k,
{
    if k <= 0 {
        1
    } else {
        10 * pow10(k - 1)
    }
}

/// A decimal rendering is never empty, starts with a digit, and consists
/// of digits only.
pub proof fn lemma_dec_chars_shape(n: int)
    requires
        0 <= n,
    ensures
        dec_chars(n).len() == num_digits(n),
        1 <= num_digits(n),
        forall|i: int| 0 <= i < dec_chars(n).len() ==> is_digit(#[trigger] dec_chars(n)[i]),
    decreases n,
{
    if n >= 10 {
        lemma_dec_chars_shape(n / 10);
    }
}

/// Greedy digit accumulation: consumes leading digits, folding them onto
/// `acc`, and returns the value with the unconsumed remainder.
pub open spec fn sp_num_acc(s: Seq<char>, acc: int) -> (int, Seq<char>)
    decreases s.len(),
{
    if s.len() > 0 && is_digit(s[0]) {
        sp_num_acc(s.drop_first(), acc * 10 + digit_val(s[0]))
    } else {
        (acc, s)
    }
}

/// Parses a decimal number: at least one leading digit, greedily.
pub open spec fn sp_num(s: Seq<char>) -> Option<(int, Seq<char>)> {
    if s.len() == 0 || !is_digit(s[0]) {
        None
    } else {
        Some(sp_num_acc(s, 0))
    }
}

/// The accumulated value only grows while digits are consumed.
pub proof fn lemma_sp_num_acc_grows(s: Seq<char>, acc: int)
    requires
        0 <= acc,
    ensures
        sp_num_acc(s, acc).0 >= acc,
        sp_num_acc(s, acc).1.len() <= s.len(),
    decreases s.len(),
{
    if s.len() > 0 && is_digit(s[0]) {
        lemma_sp_num_acc_grows(s.drop_first(), acc * 10 + digit_val(s[0]));
    }
}

/// Running the accumulator through a rendered number folds exactly that
/// number onto the accumulator and continues with the rest.
pub proof fn lemma_sp_num_acc_dec(n: int, acc: int, rest: Seq<char>)
    requires
        0 <= n,
    ensures
        sp_num_acc(dec_chars(n) + rest, acc) == sp_num_acc(
            rest,
            acc * pow10(num_digits(n)) + n,
        ),
    decreases n,
{
    lemma_dec_chars_shape(n);
    if n < 10 {
        let s = dec_chars(n) + rest;
        assert(s[0] == digit_char(n));
        assert(s.drop_first() =~= rest);
        assert(digit_val(digit_char(n)) == n);
        reveal_with_fuel(pow10, 2);
        assert(pow10(1) == 10);
        assert(sp_num_acc(s, acc) == sp_num_acc(rest, acc * 10 + n));
        assert(acc * pow10(1) + n == acc * 10 + n) by (nonlinear_arith)
            requires
                pow10(1) == 10,
        ;
    } else {
        let d = digit_char(n % 10);
        let s = dec_chars(n) + rest;
        assert(s =~= dec_chars(n / 10) + (seq![d] + rest));
        lemma_sp_num_acc_dec(n / 10, acc, seq![d] + rest);
        let k = num_digits(n / 10);
        let acc2 = acc * pow10(k) + n / 10;
        let t = seq![d] + rest;
        assert(t[0] == d);
        assert(t.drop_first() =~= rest);
        assert(is_digit(d));
        assert(digit_val(d) == n % 10);
        assert(sp_num_acc(t, acc2) == sp_num_acc(rest, acc2 * 10 + n % 10));
        assert(num_digits(n) == k + 1);
        assert(pow10(k + 1) == 10 * pow10(k));
        assert(acc2 * 10 + n % 10 == acc * pow10(k + 1) + n) by (nonlinear_arith)
            requires
                acc2 == acc * pow10(k) + n / 10,
                pow10(k + 1) == 10 * pow10(k),
                n == 10 * (n / 10) + n % 10,
        {
        }
    }
}

/// Parsing the rendering of `n`, followed by anything that does not start
/// with a digit, yields `n` and that remainder: the decimal round trip.
pub proof fn lemma_sp_num_dec(n: int, rest: Seq<char>)
    requires
        0 <= n,
        rest.len() == 0 || !is_digit(rest[0]),
    ensures
        sp_num(dec_chars(n) + rest) == Some((n, rest)),
{
    lemma_dec_chars_shape(n);
    let s = dec_chars(n) + rest;
    assert(s[0] == dec_chars(n)[0]);
    lemma_sp_num_acc_dec(n, 0, rest);
    assert(0 * pow10(num_digits(n)) + n == n) by (nonlinear_arith);
}

/// One decimal digit as a string slice.
pub fn digit_str(d: u8) -> (r: &'static str)
    requires
        d < 10,
    ensures
        r@ == seq![digit_char(d as int)],
{
    match d {
        0 => {
            proof {
                reveal_strlit("0");
                assert("0"@ =~= seq![digit_char(0int)]);
            }
            "0"
        },
        1 => {
            proof {
                reveal_strlit("1");
                assert("1"@ =~= seq![digit_char(1int)]);
            }
            "1"
        },
        2 => {
            proof {
                reveal_strlit("2");
                assert("2"@ =~= seq![digit_char(2int)]);
            }
            "2"
        },
        3 => {
            proof {
                reveal_strlit("3");
                assert("3"@ =~= seq![digit_char(3int)]);
            }
            "3"
        },
        4 => {
            proof {
                reveal_strlit("4");
                assert("4"@ =~= seq![digit_char(4int)]);
            }
            "4"
        },
        5 => {
            proof {
                reveal_strlit("5");
                assert("5"@ =~= seq![digit_char(5int)]);
            }
            "5"
        },
        6 => {
            proof {
                reveal_strlit("6");
                assert("6"@ =~= seq![digit_char(6int)]);
            }
            "6"
        },
        7 => {
            proof {
                reveal_strlit("7");
                assert("7"@ =~= seq![digit_char(7int)]);
            }
            "7"
        },
        8 => {
            proof {
                reveal_strlit("8");
                assert("8"@ =~= seq![digit_char(8int)]);
            }
            "8"
        },
        _ => {
            proof {
                reveal_strlit("9");
                assert("9"@ =~= seq![digit_char(9int)]);
            }
            "9"
        },
    }
}

/// Appends the decimal rendering of `n` to `s`.
pub fn push_dec(s: &mut String, n: u64)
    ensures
        final(s)@ == old(s)@ + dec_chars(n as int),
    decreases n,
{
    let ghost s0 = s@;
    if n >= 10 {
        push_dec(s, n / 10);
    }
    s.append(digit_str((n % 10) as u8));
    proof {
        assert(s@ =~= s0 + dec_chars(n as int));
    }
}

/// The characters of a string slice, collected by walking its character
/// iterator.
pub fn str_to_chars(s: &str) -> (v: Vec<char>)
    ensures
        v@ == s@,
{
    let mut it = s.chars();
    let mut v: Vec<char> = Vec::new();
    loop
        invariant
            it.obeys_prophetic_iter_laws(),
            IteratorSpec::decrease(&it) is Some,
            v@ + IteratorSpec::remaining(&it) == s@,
        ensures
            v@ == s@,
        decreases IteratorSpec::decrease(&it).unwrap(),
    {
        match it.next() {
            Some(c) => {
                proof {
                    assert(v@.push(c) + IteratorSpec::remaining(&it) =~= s@);
                }
                v.push(c);
            },
            None => {
                proof {
                    assert(v@ =~= s@);
                }
                break ;
            },
        }
    }
    v
}

/// The value of one digit character, if it is one.
pub fn char_digit(c: char) -> (r: Option<u8>)
    ensures
        r is Some <==> is_digit(c),
        r matches Some(d) ==> d as int == digit_val(c),
{
    match c {
        '0' => Some(0),
        '1' => Some(1),
        '2' => Some(2),
        '3' => Some(3),
        '4' => Some(4),
        '5' => Some(5),
        '6' => Some(6),
        '7' => Some(7),
        '8' => Some(8),
        '9' => Some(9),
        _ => None,
    }
}

/// Parses a decimal number from `v` starting at `start`.
///
/// `None` means there is no digit at `start`, or the digit run encodes a
/// value beyond `u64::MAX`; the document parser treats both as rejection,
/// since every value the document may carry fits in a `u64`.
pub fn parse_num(v: &Vec<char>, start: usize) -> (r: Option<(u64, usize)>)
    requires
        start <= v@.len(),
    ensures
        r matches Some(p) ==> start < p.1 <= v@.len() && sp_num(v@.skip(start as int)) == Some(
            (p.0 as int, v@.skip(p.1 as int)),
        ),
        r is None ==> (sp_num(v@.skip(start as int)) is None || (sp_num(
            v@.skip(start as int),
        ) matches Some(q) && q.0 > u64::MAX)),
{
    let ghost orig = v@.skip(start as int);
    if start == v.len() {
        return None;
    }
    let d0 = match char_digit(v[start]) {
        Some(d) => d,
        None => {
            proof {
                assert(orig[0] == v@[start as int]);
            }
            return None;
        },
    };
    let mut acc: u64 = d0 as u64;
    let mut pos: usize = start + 1;
    proof {
        assert(orig[0] == v@[start as int]);
        assert(orig.drop_first() =~= v@.skip(pos as int));
        assert(sp_num_acc(orig, 0) == sp_num_acc(v@.skip(pos as int), acc as int));
    }
    loop
        invariant
            start < pos <= v@.len(),
            orig == v@.skip(start as int),
            orig.len() > 0 && is_digit(orig[0]),
            sp_num_acc(orig, 0) == sp_num_acc(v@.skip(pos as int), acc as int),
        ensures
            sp_num_acc(orig, 0) == sp_num_acc(v@.skip(pos as int), acc as int),
            start < pos <= v@.len(),
            pos == v@.len() || !is_digit(v@[pos as int]),
        decreases v@.len() - pos,
    {
        if pos == v.len() {
            break ;
        }
        let d = match char_digit(v[pos]) {
            Some(d) => d,
            None => {
                break ;
            },
        };
        proof {
            let suf = v@.skip(pos as int);
            assert(suf[0] == v@[pos as int]);
            assert(suf.drop_first() =~= v@.skip(pos + 1));
            lemma_sp_num_acc_grows(suf.drop_first(), acc as int * 10 + digit_val(suf[0]));
        }
        let next = match acc.checked_mul(10) {
            Some(m) => match m.checked_add(d as u64) {
                Some(a) => a,
                None => {
                    return None;
                },
            },
            None => {
                return None;
            },
        };
        acc = next;
        pos = pos + 1;
    }
    proof {
        let suf = v@.skip(pos as int);
        if pos < v@.len() {
            assert(suf[0] == v@[pos as int]);
        }
        assert(sp_num_acc(suf, acc as int) == (acc as int, suf));
    }
    Some((acc, pos))
}

} // verus!
