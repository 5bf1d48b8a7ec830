//! Whole numbers as decimal text.
use crate::text::{append_all, chars_of, is_digit, digit, string_of};
use vstd::prelude::*;

verus! {

/// The character of a decimal digit.
pub open spec fn digit_char(d: int) -> char {
    (48 + d) as char
}

/// The value of a decimal digit.
pub open spec fn digit_value(c: char) -> int {
    c as int - 48
}

/// A natural number in decimal, without leading zeros.
pub open spec fn dec(n: nat) -> Seq<char>
    decreases n,
{
    if n < 10 {
        seq![digit_char(n as int)]
    } else {
        dec(n / 10).push(digit_char((n % 10) as int))
    }
}

/// A whole number in decimal, with a minus sign where it is negative.
pub open spec fn dec_int(i: int) -> Seq<char> {
    if i < 0 {
        seq!['-'] + dec((-i) as nat)
    } else {
        dec(i as nat)
    }
}

/// A natural number in decimal with at least two digits.
pub open spec fn dec2(n: nat) -> Seq<char> {
    if n < 10 {
        seq!['0'] + dec(n)
    } else {
        dec(n)
    }
}

fn digits(n: u64) -> (r: Vec<char>)
    ensures
        r@ == dec(n as nat),
    decreases n,
{
    let d: u8 = (n % 10) as u8;
    let c: char = (48 + d) as char;
    if n < 10 {
        let mut v: Vec<char> = Vec::new();
        v.push(c);
        assert(v@ =~= dec(n as nat));
        v
    } else {
        let mut v: Vec<char> = digits(n / 10);
        v.push(c);
        v
    }
}

/// `dec` of a machine word.
pub fn decimal(n: u64) -> (r: String)
    ensures
        r@ == dec(n as nat),
{
    string_of(&digits(n))
}

/// `dec_int` of a machine word.
pub fn decimal_i64(i: i64) -> (r: String)
    ensures
        r@ == dec_int(i as int),
{
    if i < 0 {
        let m: u64 = (0 - (i as i128)) as u64;
        let mut v: Vec<char> = Vec::new();
        v.push('-');
        let d: Vec<char> = digits(m);
        append_all(&mut v, &d);
        assert(v@ =~= seq!['-'] + dec((-(i as int)) as nat));
        string_of(&v)
    } else {
        decimal(i as u64)
    }
}

/// All characters are decimal digits.
pub open spec fn all_digits(s: Seq<char>) -> bool {
    forall|i: int| 0 <= i < s.len() ==> is_digit(#[trigger] s[i])
}

/// The number that a row of digits stands for.
pub open spec fn value(s: Seq<char>) -> int
    decreases s.len(),
{
    if s.len() == 0 {
        0
    } else {
        10 * value(s.drop_last()) + digit_value(s.last())
    }
}

/// The text after an optional sign.
pub open spec fn unsigned_part(s: Seq<char>) -> Seq<char> {
    if s.len() > 0 && (s[0] == '-' || s[0] == '+') {
        s.skip(1)
    } else {
        s
    }
}

/// The number written in `s`: an optional sign and at least one digit.
pub open spec fn signed_value(s: Seq<char>) -> int {
    if s.len() > 0 && s[0] == '-' {
        -value(unsigned_part(s))
    } else {
        value(unsigned_part(s))
    }
}

/// The 64-bit number that `s` is the text of, if it is one.
pub open spec fn parse_int(s: Seq<char>) -> Option<int> {
    if unsigned_part(s).len() > 0 && all_digits(unsigned_part(s)) && i64::MIN <= signed_value(s) <= i64::MAX {
        Some(signed_value(s))
    } else {
        None
    }
}

proof fn lemma_value_bounds(s: Seq<char>)
    requires
        all_digits(s),
    ensures
        value(s) >= 0,
    decreases s.len(),
{
    if s.len() > 0 {
        assert forall|i: int| 0 <= i < s.drop_last().len() implies is_digit(#[trigger] s.drop_last()[i]) by {
            assert(is_digit(s[i]));
        }
        assert(is_digit(s[s.len() - 1]));
        lemma_value_bounds(s.drop_last());
    }
}

proof fn lemma_value_grows(s: Seq<char>, i: int)
    requires
        all_digits(s),
        0 <= i <= s.len(),
    ensures
        0 <= value(s.take(i)) <= value(s),
    decreases s.len(),
{
    lemma_value_bounds(s);
    if i == s.len() {
        assert(s.take(i) =~= s);
    } else {
        assert forall|k: int| 0 <= k < s.drop_last().len() implies is_digit(#[trigger] s.drop_last()[k]) by {
            assert(is_digit(s[k]));
        }
        assert(is_digit(s[s.len() - 1]));
        lemma_value_grows(s.drop_last(), i);
        assert(s.drop_last().take(i) =~= s.take(i));
    }
}

/// `parse_int` of a string.
pub fn parse_i64(s: &str) -> (r: Option<i64>)
    ensures
        r is Some <==> parse_int(s@) is Some,
        r is Some ==> r->0 == parse_int(s@)->0,
{
    let v: Vec<char> = chars_of(s);
    let signed: bool = v.len() > 0 && (v[0] == '-' || v[0] == '+');
    let negative: bool = v.len() > 0 && v[0] == '-';
    let start: usize = if signed { 1 } else { 0 };
    let ghost body = unsigned_part(s@);
    assert(body =~= v@.skip(start as int));
    if start == v.len() {
        return None;
    }
    let mut acc: u64 = 0;
    let mut i: usize = start;
    assert(body.take(0) =~= Seq::<char>::empty());
    while i < v.len()
        invariant
            start <= i <= v.len(),
            v@ == s@,
            body == unsigned_part(s@),
            body == v@.skip(start as int),
            negative == (s@.len() > 0 && s@[0] == '-'),
            acc == value(body.take(i - start)),
            acc <= 9223372036854775808,
            forall|k: int| 0 <= k < i - start ==> is_digit(#[trigger] body[k]),
        decreases v.len() - i,
    {
        assert(body[i - start] == v@[i as int]);
        if !digit(v[i]) {
            return None;
        }
        assert(body.take(i - start + 1).drop_last() =~= body.take(i - start));
        assert(body.take(i - start + 1).last() == v@[i as int]);
        let d: u64 = (v[i] as u32 - 48) as u64;
        if acc > 922337203685477580 || 10 * acc + d > 9223372036854775808 {
            proof {
                assert(value(body.take(i - start + 1)) > 9223372036854775808);
                if all_digits(body) {
                    lemma_value_grows(body, i - start + 1);
                }
            }
            return None;
        }
        acc = 10 * acc + d;
        i += 1;
    }
    assert(body.take(v.len() - start) =~= body);
    if negative {
        Some((0 - (acc as i128)) as i64)
    } else if acc <= 9223372036854775807 {
        Some(acc as i64)
    } else {
        None
    }
}

proof fn lemma_dec_digits(n: nat)
    ensures
        dec(n).len() > 0,
        all_digits(dec(n)),
        value(dec(n)) == n,
    decreases n,
{
    if n < 10 {
        assert(dec(n).drop_last() =~= Seq::<char>::empty());
        assert(value(dec(n).drop_last()) == 0);
    } else {
        lemma_dec_digits(n / 10);
        assert(dec(n).drop_last() =~= dec(n / 10));
        assert forall|i: int| 0 <= i < dec(n).len() implies is_digit(#[trigger] dec(n)[i]) by {
            if i < dec(n / 10).len() {
                assert(dec(n)[i] == dec(n / 10)[i]);
            }
        }
    }
}

/// Reading back the decimal text of a 64-bit number gives that number.
pub proof fn parse_undoes_decimal(i: int)
    requires
        i64::MIN <= i <= i64::MAX,
    ensures
        parse_int(dec_int(i)) == Some(i),
{
    if i < 0 {
        lemma_dec_digits((-i) as nat);
        assert(dec_int(i).skip(1) =~= dec((-i) as nat));
    } else {
        lemma_dec_digits(i as nat);
        assert(is_digit(dec(i as nat)[0]));
    }
}

/// Different numbers have different decimal texts.
pub proof fn decimal_is_injective(i: int, j: int)
    requires
        i64::MIN <= i <= i64::MAX,
        i64::MIN <= j <= i64::MAX,
        dec_int(i) == dec_int(j),
    ensures
        i == j,
{
    parse_undoes_decimal(i);
    parse_undoes_decimal(j);
}

} // verus!
