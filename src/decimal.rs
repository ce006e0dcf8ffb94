use vstd::prelude::*;

use crate::parse_spec::{digit_value, digits_value};

verus! {

pub open spec fn digit_char(d: nat) -> char {
    if d == 0 {
        '0'
    } else if d == 1 {
        '1'
    } else if d == 2 {
        '2'
    } else if d == 3 {
        '3'
    } else if d == 4 {
        '4'
    } else if d == 5 {
        '5'
    } else if d == 6 {
        '6'
    } else if d == 7 {
        '7'
    } else if d == 8 {
        '8'
    } else {
        '9'
    }
}

/// The decimal digits of `n`, without leading zeros
pub open spec fn nat_text(n: nat) -> Seq<char>
    decreases n,
{
    if n < 10 {
        seq![digit_char(n)]
    } else {
        nat_text(n / 10).push(digit_char(n % 10))
    }
}

/// The decimal text of `x`, with a leading `-` when it is negative
pub open spec fn int_text(x: int) -> Seq<char> {
    if x < 0 {
        seq!['-'] + nat_text((-x) as nat)
    } else {
        nat_text(x as nat)
    }
}

/// Reading the decimal text of `n` back gives `n`
pub proof fn lemma_nat_text_value(n: nat)
    ensures
        digits_value(nat_text(n), 0, nat_text(n).len() as int, 10) == n,
        nat_text(n).len() >= 1,
    decreases n,
{
    let t = nat_text(n);
    if n < 10 {
        assert(digits_value(t, 0, 0, 10) == 0);
    } else {
        lemma_nat_text_value(n / 10);
        let p = nat_text(n / 10);
        lemma_digits_value_prefix(t, p, p.len() as int);
        assert(t[t.len() - 1] == digit_char(n % 10));
    }
}

proof fn lemma_digits_value_prefix(t: Seq<char>, p: Seq<char>, j: int)
    requires
        0 <= j <= p.len(),
        p.len() <= t.len(),
        forall|k: int| 0 <= k < p.len() ==> t[k] == p[k],
    ensures
        digits_value(t, 0, j, 10) == digits_value(p, 0, j, 10),
    decreases j,
{
    if j > 0 {
        lemma_digits_value_prefix(t, p, j - 1);
    }
}

/// Different numbers have different decimal texts
pub proof fn lemma_nat_text_injective(a: nat, b: nat)
    requires
        nat_text(a) == nat_text(b),
    ensures
        a == b,
{
    lemma_nat_text_value(a);
    lemma_nat_text_value(b);
}

fn digit_str(d: u64) -> (r: &'static str)
    requires
        d < 10,
    ensures
        r@ == seq![digit_char(d as nat)],
{
    proof {
        reveal_strlit("0");
        reveal_strlit("1");
        reveal_strlit("2");
        reveal_strlit("3");
        reveal_strlit("4");
        reveal_strlit("5");
        reveal_strlit("6");
        reveal_strlit("7");
        reveal_strlit("8");
        reveal_strlit("9");
    }
    if d == 0 {
        "0"
    } else if d == 1 {
        "1"
    } else if d == 2 {
        "2"
    } else if d == 3 {
        "3"
    } else if d == 4 {
        "4"
    } else if d == 5 {
        "5"
    } else if d == 6 {
        "6"
    } else if d == 7 {
        "7"
    } else if d == 8 {
        "8"
    } else {
        "9"
    }
}

/// The decimal text of a number
pub fn u64_text(n: u64) -> (r: String)
    ensures
        r@ == nat_text(n as nat),
    decreases n,
{
    if n < 10 {
        String::from_str(digit_str(n))
    } else {
        let mut text = u64_text(n / 10);
        text.append(digit_str(n % 10));
        text
    }
}

/// The decimal text of a signed number
pub fn i32_text(x: i32) -> (r: String)
    ensures
        r@ == int_text(x as int),
{
    if x < 0 {
        let digits = u64_text((0 - x as i64) as u64);
        proof {
            reveal_strlit("-");
        }
        let mut text = String::from_str("-");
        text.append(digits.as_str());
        text
    } else {
        u64_text(x as u64)
    }
}

} // verus!
