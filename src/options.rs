use vstd::prelude::*;

use crate::executer::ExecuterKind;
use crate::parse_spec::{
    chars_of, digit_value, digits_value, is_digit, is_digit_char, lemma_digits_monotone,
};

verus! {

/// The settings of a test run
#[derive(Debug)]
pub struct Options {
    /// Which implementation to test
    pub executer: ExecuterKind,
    /// Path to the top-level test directory
    pub test_dir: String,
    /// Path to the CC0 directory (with bin/cc0, bin/coin-exec and vm/c0vm)
    pub c0_home: String,
    /// Timeout in CPU seconds for running each test
    pub test_time: u64,
    /// Max amount of memory a test can use, in bytes
    pub test_memory: u64,
    /// Timeout in CPU seconds for compilation via CC0
    pub compilation_time: u64,
    /// Maximum amount of memory CC0/GCC can use, in bytes
    pub compilation_mem: u64,
}

/// Why a size could not be read
#[derive(Clone, Copy, Debug, PartialEq, Eq, Structural)]
pub enum SizeError {
    /// There is no digit in it
    NoNumber,
    /// What comes before the unit is not a whole number
    InvalidNumber,
    /// The unit is none of kb, mb, gb (or their one-letter forms k, m, g)
    InvalidUnit,
    /// The size does not fit in 64 bits
    TooLarge,
}

/// Whether `c` is white space in the sense of Unicode's White_Space property
pub open spec fn is_blank(c: char) -> bool {
    ('\u{9}' <= c && c <= '\u{d}') || c == ' ' || c == '\u{85}' || c == '\u{a0}' || c
        == '\u{1680}' || ('\u{2000}' <= c && c <= '\u{200a}') || c == '\u{2028}' || c == '\u{2029}'
        || c == '\u{202f}' || c == '\u{205f}' || c == '\u{3000}'
}

/// The first position from `i` on, before `end`, that holds no blank
pub open spec fn skip_blank(s: Seq<char>, i: int, end: int) -> int
    decreases end - i,
{
    if i < end && is_blank(s[i]) {
        skip_blank(s, i + 1, end)
    } else {
        i
    }
}

/// The end of `s[lo..j]` without its trailing blanks
pub open spec fn trim_back(s: Seq<char>, lo: int, j: int) -> int
    decreases j - lo,
{
    if j > lo && is_blank(s[j - 1]) {
        trim_back(s, lo, j - 1)
    } else {
        j
    }
}

/// The position after the last digit of `s[lo..j]`, or `lo` if there is none
pub open spec fn after_last_digit(s: Seq<char>, lo: int, j: int) -> int
    decreases j - lo,
{
    if j > lo && !is_digit(s[j - 1]) {
        after_last_digit(s, lo, j - 1)
    } else {
        j
    }
}

/// Whether `c` is the letter `l` (given in lower case) in either case
pub open spec fn is_letter(c: char, l: char) -> bool {
    c == l || c as u32 + 32 == l as u32
}

/// The number of bytes that a unit stands for, ignoring case
pub open spec fn unit_multiplier(u: Seq<char>) -> Option<nat> {
    if u.len() == 0 {
        Some(1)
    } else if u.len() > 2 || (u.len() == 2 && !is_letter(u[1], 'b')) {
        None
    } else if is_letter(u[0], 'g') {
        Some(1073741824)
    } else if is_letter(u[0], 'm') {
        Some(1048576)
    } else if is_letter(u[0], 'k') {
        Some(1024)
    } else {
        None
    }
}

/// The size that `s` gives: blanks around it are ignored; a whole number
/// comes first, then an optional unit (gb, mb, kb or their one-letter forms,
/// in any case), which blanks may separate from the number
pub open spec fn size_of(s: Seq<char>) -> Result<nat, SizeError> {
    let a = skip_blank(s, 0, s.len() as int);
    let b = trim_back(s, a, s.len() as int);
    let p = after_last_digit(s, a, b);
    if p == a {
        Err(SizeError::NoNumber)
    } else if exists|k: int| a <= k < p && !is_digit(#[trigger] s[k]) {
        Err(SizeError::InvalidNumber)
    } else {
        match unit_multiplier(s.subrange(skip_blank(s, p, b), b)) {
            None => Err(SizeError::InvalidUnit),
            Some(m) => Ok(digits_value(s, a, p, 10) as nat * m),
        }
    }
}

pub(crate) fn is_blank_char(c: char) -> (r: bool)
    ensures
        r == is_blank(c),
{
    ('\u{9}' <= c && c <= '\u{d}') || c == ' ' || c == '\u{85}' || c == '\u{a0}' || c
        == '\u{1680}' || ('\u{2000}' <= c && c <= '\u{200a}') || c == '\u{2028}' || c == '\u{2029}'
        || c == '\u{202f}' || c == '\u{205f}' || c == '\u{3000}'
}

fn is_letter_char(c: char, l: char) -> (r: bool)
    ensures
        r == is_letter(c, l),
{
    c == l || c as u32 + 32 == l as u32
}

fn multiplier_of(s: &Vec<char>, i: usize, j: usize) -> (r: Option<u64>)
    requires
        i <= j <= s@.len(),
    ensures
        match unit_multiplier(s@.subrange(i as int, j as int)) {
            Some(m) => r == Some(m as u64),
            None => r is None,
        },
        r matches Some(m) ==> 1 <= m <= 1073741824,
{
    let ghost u = s@.subrange(i as int, j as int);
    let n = j - i;
    if n == 0 {
        return Some(1);
    }
    if n > 2 || (n == 2 && !is_letter_char(s[i + 1], 'b')) {
        return None;
    }
    assert(u[0] == s@[i as int]);
    let c = s[i];
    if is_letter_char(c, 'g') {
        Some(1073741824)
    } else if is_letter_char(c, 'm') {
        Some(1048576)
    } else if is_letter_char(c, 'k') {
        Some(1024)
    } else {
        None
    }
}

/// Reads a size such as "2 GB", "512" or "10mb" as a number of bytes
pub fn parse_size(size: &str) -> (r: Result<u64, SizeError>)
    ensures
        match size_of(size@) {
            Ok(n) => if n <= u64::MAX {
                r == Ok::<u64, SizeError>(n as u64)
            } else {
                r == Err::<u64, SizeError>(SizeError::TooLarge)
            },
            Err(e) => r == Err::<u64, SizeError>(e),
        },
{
    let s = chars_of(size);
    let len = s.len();
    let mut a: usize = 0;
    while a < len && is_blank_char(s[a])
        invariant
            a <= len == s@.len(),
            skip_blank(s@, 0, len as int) == skip_blank(s@, a as int, len as int),
        decreases len - a,
    {
        a = a + 1;
    }
    let mut b: usize = len;
    while b > a && is_blank_char(s[b - 1])
        invariant
            a <= b <= len == s@.len(),
            trim_back(s@, a as int, len as int) == trim_back(s@, a as int, b as int),
        decreases b - a,
    {
        b = b - 1;
    }
    let mut p: usize = b;
    while p > a && !is_digit_char(s[p - 1])
        invariant
            a <= p <= b,
            b <= s@.len(),
            after_last_digit(s@, a as int, b as int) == after_last_digit(s@, a as int, p as int),
        decreases p - a,
    {
        p = p - 1;
    }
    if p == a {
        return Err(SizeError::NoNumber);
    }
    let mut k: usize = a;
    while k < p
        invariant
            a <= k <= p <= s@.len(),
            forall|m: int| a <= m < k ==> is_digit(#[trigger] s@[m]),
            a == skip_blank(s@, 0, s@.len() as int),
            b == trim_back(s@, a as int, s@.len() as int),
            p == after_last_digit(s@, a as int, b as int),
            p != a,
            s@ == size@,
        decreases p - k,
    {
        if !is_digit_char(s[k]) {
            assert(a <= k < p && !is_digit(s@[k as int]));
            assert(size_of(size@) == Err::<nat, SizeError>(SizeError::InvalidNumber));
            return Err(SizeError::InvalidNumber);
        }
        k = k + 1;
    }
    let mut u: usize = p;
    while u < b && is_blank_char(s[u])
        invariant
            p <= u <= b <= s@.len(),
            forall|m: int| a <= m < p ==> is_digit(#[trigger] s@[m]),
            a == skip_blank(s@, 0, s@.len() as int),
            b == trim_back(s@, a as int, s@.len() as int),
            p == after_last_digit(s@, a as int, b as int),
            p != a,
            s@ == size@,
            skip_blank(s@, p as int, b as int) == skip_blank(s@, u as int, b as int),
        decreases b - u,
    {
        u = u + 1;
    }
    let multiplier = match multiplier_of(&s, u, b) {
        Some(m) => m,
        None => {
            return Err(SizeError::InvalidUnit);
        },
    };
    // The number, as long as it fits in 64 bits
    let mut value: u128 = 0;
    let mut j: usize = a;
    while j < p
        invariant
            a <= j <= p <= s@.len(),
            forall|m: int| a <= m < p ==> is_digit(#[trigger] s@[m]),
            value as int == digits_value(s@, a as int, j as int, 10),
            value <= u64::MAX,
            1 <= multiplier <= 1073741824,
            unit_multiplier(s@.subrange(skip_blank(s@, p as int, b as int), b as int)) == Some(
                multiplier as nat,
            ),
            a == skip_blank(s@, 0, s@.len() as int),
            b == trim_back(s@, a as int, s@.len() as int),
            p == after_last_digit(s@, a as int, b as int),
            p != a,
            s@ == size@,
        decreases p - j,
    {
        let d = (s[j] as u32 - '0' as u32) as u128;
        let next = value * 10 + d;
        if next > u64::MAX as u128 {
            proof {
                assert forall|m: int| a <= m < p implies 0 <= #[trigger] digit_value(s@[m]) < 10 by {
                    assert(is_digit(s@[m]));
                }
                lemma_digits_monotone(s@, a as int, (j + 1) as int, p as int, 10);
                let v = digits_value(s@, a as int, p as int, 10);
                let m = multiplier as int;
                assert(v * m >= v) by (nonlinear_arith)
                    requires
                        v >= 0,
                        m >= 1,
                ;
                assert(!exists|k: int| a <= k < p && !is_digit(#[trigger] s@[k]));
                assert(size_of(size@) == Ok::<nat, SizeError>((v * m) as nat));
            }
            return Err(SizeError::TooLarge);
        }
        value = next;
        j = j + 1;
    }
    assert(value * (multiplier as u128) <= 0x1_0000_0000_0000_0000 * 1073741824) by (nonlinear_arith)
        requires
            value <= u64::MAX,
            multiplier <= 1073741824,
    ;
    let bytes = value * multiplier as u128;
    if bytes > u64::MAX as u128 {
        return Err(SizeError::TooLarge);
    }
    Ok(bytes as u64)
}

} // verus!
