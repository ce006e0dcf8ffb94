use vstd::prelude::*;

use crate::spec::{
    predicate_model, spec_model, specs_model, Behavior, ImplementationPredicate, PredicateModel,
    Spec, SpecModel, Specs,
};

verus! {

/// A token of the spec language
#[derive(Clone, Copy, Debug, PartialEq, Eq, Structural)]
pub enum SpecToken {
    TestStartMarker,
    CompileError,
    Runs,
    InfiniteLoop,
    Abort,
    Failure,
    Segfault,
    DivZero,
    /// `return *` or `return <int>`, lexed as one token
    Return(Option<i32>),
    Star,
    Number(i32),
    Lib,
    Typechecked,
    GarbageCollected,
    Safe,
    False,
    /// An implementation name; the name is the text the token spans
    Implementation,
    Not,
    Comma,
    Or,
    Semicolon,
    FatArrow,
    Error,
}

/// A token together with the positions (in characters) of its first
/// character and of the character after it
#[derive(Clone, Copy, Debug, PartialEq, Eq, Structural)]
pub struct Lexeme {
    pub token: SpecToken,
    pub start: usize,
    pub end: usize,
}

pub open spec fn is_space(c: char) -> bool {
    c == ' ' || c == '\t'
}

pub open spec fn is_ident_start(c: char) -> bool {
    ('a' <= c && c <= 'z') || ('A' <= c && c <= 'Z') || c == '_'
}

pub open spec fn is_ident_char(c: char) -> bool {
    is_ident_start(c) || ('0' <= c && c <= '9') || c == '-'
}

pub open spec fn is_digit(c: char) -> bool {
    '0' <= c && c <= '9'
}

pub open spec fn is_hex_digit(c: char) -> bool {
    is_digit(c) || ('a' <= c && c <= 'f') || ('A' <= c && c <= 'F')
}

pub open spec fn digit_value(c: char) -> int {
    if is_digit(c) {
        c as int - '0' as int
    } else if 'a' <= c && c <= 'f' {
        c as int - 'a' as int + 10
    } else {
        c as int - 'A' as int + 10
    }
}

/// The first position at or after `i` that holds no space or tab
pub open spec fn skip_spaces(s: Seq<char>, i: int) -> int
    decreases s.len() - i,
{
    if 0 <= i < s.len() && is_space(s[i]) {
        skip_spaces(s, i + 1)
    } else {
        i
    }
}

/// The end of the run of identifier characters that starts at `i`
pub open spec fn ident_end(s: Seq<char>, i: int) -> int
    decreases s.len() - i,
{
    if 0 <= i < s.len() && is_ident_char(s[i]) {
        ident_end(s, i + 1)
    } else {
        i
    }
}

/// The end of the run of decimal digits that starts at `i`
pub open spec fn digits_end(s: Seq<char>, i: int) -> int
    decreases s.len() - i,
{
    if 0 <= i < s.len() && is_digit(s[i]) {
        digits_end(s, i + 1)
    } else {
        i
    }
}

/// The end of the run of hexadecimal digits that starts at `i`
pub open spec fn hex_end(s: Seq<char>, i: int) -> int
    decreases s.len() - i,
{
    if 0 <= i < s.len() && is_hex_digit(s[i]) {
        hex_end(s, i + 1)
    } else {
        i
    }
}

/// The value of the digits `s[i..j]` in the given base
pub open spec fn digits_value(s: Seq<char>, i: int, j: int, base: int) -> int
    decreases j - i,
{
    if j <= i {
        0
    } else {
        digits_value(s, i, j - 1, base) * base + digit_value(s[j - 1])
    }
}

/// The keyword spelt by `w`, if any (`return` is handled apart)
pub open spec fn keyword(w: Seq<char>) -> Option<SpecToken> {
    if w == seq!['e', 'r', 'r', 'o', 'r'] {
        Some(SpecToken::CompileError)
    } else if w == seq!['r', 'u', 'n', 's'] {
        Some(SpecToken::Runs)
    } else if w == seq!['i', 'n', 'f', 'l', 'o', 'o', 'p'] {
        Some(SpecToken::InfiniteLoop)
    } else if w == seq!['a', 'b', 'o', 'r', 't'] {
        Some(SpecToken::Abort)
    } else if w == seq!['f', 'a', 'i', 'l', 'u', 'r', 'e'] {
        Some(SpecToken::Failure)
    } else if w == seq!['s', 'e', 'g', 'f', 'a', 'u', 'l', 't'] {
        Some(SpecToken::Segfault)
    } else if w == seq!['d', 'i', 'v', '-', 'b', 'y', '-', 'z', 'e', 'r', 'o'] {
        Some(SpecToken::DivZero)
    } else if w == seq!['l', 'i', 'b'] {
        Some(SpecToken::Lib)
    } else if w == seq!['t', 'y', 'p', 'e', 'c', 'h', 'e', 'c', 'k'] {
        Some(SpecToken::Typechecked)
    } else if w == seq!['g', 'c'] {
        Some(SpecToken::GarbageCollected)
    } else if w == seq!['s', 'a', 'f', 'e'] {
        Some(SpecToken::Safe)
    } else if w == seq!['f', 'a', 'l', 's', 'e'] {
        Some(SpecToken::False)
    } else if w == seq!['o', 'r'] {
        Some(SpecToken::Or)
    } else {
        None
    }
}

pub open spec fn return_word() -> Seq<char> {
    seq!['r', 'e', 't', 'u', 'r', 'n']
}

pub open spec fn marker_word() -> Seq<char> {
    seq!['/', '/', 't', 'e', 's', 't']
}

/// The token for a number of the given value: the value if it fits in an
/// `i32`, an error otherwise
pub open spec fn number_token(value: int) -> SpecToken {
    if i32::MIN <= value <= i32::MAX {
        SpecToken::Number(value as i32)
    } else {
        SpecToken::Error
    }
}

/// The longest token that starts at `i` (a character that is no space),
/// and the position after it. A word is a keyword if it spells one and an
/// implementation name otherwise; a `return` keyword stands here alone,
/// as an error, since its argument is read in `token_at`.
pub open spec fn basic_token(s: Seq<char>, i: int) -> (SpecToken, int) {
    let c = s[i];
    let n = s.len();
    if is_ident_start(c) {
        let e = ident_end(s, i + 1);
        match keyword(s.subrange(i, e)) {
            Some(t) => (t, e),
            None => if s.subrange(i, e) == return_word() {
                (SpecToken::Error, e)
            } else {
                (SpecToken::Implementation, e)
            },
        }
    } else if c == '0' && n - i > 2 && (s[i + 1] == 'x' || s[i + 1] == 'X') && is_hex_digit(
        s[i + 2],
    ) {
        let e = hex_end(s, i + 2);
        (number_token(digits_value(s, i + 2, e, 16)), e)
    } else if c == '0' {
        (SpecToken::Number(0), i + 1)
    } else if is_digit(c) {
        let e = digits_end(s, i);
        (number_token(digits_value(s, i, e, 10)), e)
    } else if (c == '+' || c == '-') && i + 1 < n && is_digit(s[i + 1]) {
        let e = if s[i + 1] == '0' {
            i + 2
        } else {
            digits_end(s, i + 1)
        };
        let v = digits_value(s, i + 1, e, 10);
        (number_token(if c == '-' { -v } else { v }), e)
    } else if i + 6 <= n && s.subrange(i, i + 6) == marker_word() {
        (SpecToken::TestStartMarker, i + 6)
    } else if c == '=' && n - i > 1 && s[i + 1] == '>' {
        (SpecToken::FatArrow, i + 2)
    } else if c == '*' {
        (SpecToken::Star, i + 1)
    } else if c == '!' {
        (SpecToken::Not, i + 1)
    } else if c == ',' {
        (SpecToken::Comma, i + 1)
    } else if c == ';' {
        (SpecToken::Semicolon, i + 1)
    } else {
        (SpecToken::Error, i + 1)
    }
}

/// The token that starts at `i` and the position after it: a `return`
/// keyword takes the next token as its argument, which must be `*` or a
/// number
pub open spec fn token_at(s: Seq<char>, i: int) -> (SpecToken, int) {
    if is_ident_start(s[i]) && s.subrange(i, ident_end(s, i + 1))
        == return_word() {
        let e = i + 6;
        let k = skip_spaces(s, e);
        if k >= s.len() {
            (SpecToken::Error, e)
        } else {
            let (arg, end) = basic_token(s, k);
            match arg {
                SpecToken::Number(x) => (SpecToken::Return(Some(x)), end),
                SpecToken::Star => (SpecToken::Return(None), end),
                _ => (SpecToken::Error, end),
            }
        }
    } else {
        basic_token(s, i)
    }
}

/// The tokens of `s` from position `i` on; spaces and tabs separate tokens
pub open spec fn lex_from(s: Seq<char>, i: int) -> Seq<Lexeme>
    decreases s.len() - i,
{
    let k = skip_spaces(s, i);
    if k < i || k >= s.len() {
        seq![]
    } else {
        let (token, e) = token_at(s, k);
        if k < e <= s.len() && e <= usize::MAX {
            seq![Lexeme { token, start: k as usize, end: e as usize }] + lex_from(s, e)
        } else {
            seq![]
        }
    }
}

/// The tokens of `s`
pub open spec fn lex(s: Seq<char>) -> Seq<Lexeme> {
    lex_from(s, 0)
}

proof fn lemma_digits_nonneg(s: Seq<char>, i: int, j: int, base: int)
    requires
        base >= 1,
        forall|m: int| i <= m < j ==> 0 <= #[trigger] digit_value(s[m]) < base,
    ensures
        0 <= digits_value(s, i, j, base),
    decreases j - i,
{
    if j > i {
        lemma_digits_nonneg(s, i, j - 1, base);
        let v = digits_value(s, i, j - 1, base);
        assert(v * base >= 0) by (nonlinear_arith)
            requires
                v >= 0,
                base >= 1,
        ;
    }
}

/// A longer run of digits has at least the value of its prefix
pub(crate) proof fn lemma_digits_monotone(s: Seq<char>, i: int, j: int, k: int, base: int)
    requires
        i <= j <= k,
        base >= 1,
        forall|m: int| i <= m < k ==> 0 <= #[trigger] digit_value(s[m]) < base,
    ensures
        digits_value(s, i, j, base) <= digits_value(s, i, k, base),
    decreases k - j,
{
    if j < k {
        lemma_digits_monotone(s, i, j, k - 1, base);
        lemma_digits_nonneg(s, i, k - 1, base);
        let v = digits_value(s, i, k - 1, base);
        assert(v * base >= v) by (nonlinear_arith)
            requires
                v >= 0,
                base >= 1,
        ;
    }
}

fn is_ident_start_char(c: char) -> (r: bool)
    ensures
        r == is_ident_start(c),
{
    ('a' <= c && c <= 'z') || ('A' <= c && c <= 'Z') || c == '_'
}

fn is_ident_char_exec(c: char) -> (r: bool)
    ensures
        r == is_ident_char(c),
{
    is_ident_start_char(c) || ('0' <= c && c <= '9') || c == '-'
}

pub(crate) fn is_digit_char(c: char) -> (r: bool)
    ensures
        r == is_digit(c),
{
    '0' <= c && c <= '9'
}

fn is_hex_digit_char(c: char) -> (r: bool)
    ensures
        r == is_hex_digit(c),
{
    is_digit_char(c) || ('a' <= c && c <= 'f') || ('A' <= c && c <= 'F')
}

fn digit_of(c: char) -> (r: u64)
    requires
        is_hex_digit(c),
    ensures
        r as int == digit_value(c),
        r < 16,
{
    if '0' <= c && c <= '9' {
        (c as u32 - '0' as u32) as u64
    } else if 'a' <= c && c <= 'f' {
        (c as u32 - 'a' as u32 + 10) as u64
    } else {
        (c as u32 - 'A' as u32 + 10) as u64
    }
}

fn skip_spaces_at(s: &Vec<char>, i: usize) -> (r: usize)
    requires
        i <= s@.len(),
    ensures
        r == skip_spaces(s@, i as int),
        i <= r <= s@.len(),
{
    let mut j = i;
    while j < s.len() && (s[j] == ' ' || s[j] == '\t')
        invariant
            i <= j <= s@.len(),
            skip_spaces(s@, i as int) == skip_spaces(s@, j as int),
        decreases s@.len() - j,
    {
        j = j + 1;
    }
    j
}

fn ident_end_at(s: &Vec<char>, i: usize) -> (r: usize)
    requires
        i <= s@.len(),
    ensures
        r == ident_end(s@, i as int),
        i <= r <= s@.len(),
{
    let mut j = i;
    while j < s.len() && is_ident_char_exec(s[j])
        invariant
            i <= j <= s@.len(),
            ident_end(s@, i as int) == ident_end(s@, j as int),
        decreases s@.len() - j,
    {
        j = j + 1;
    }
    j
}

fn digits_end_at(s: &Vec<char>, i: usize) -> (r: usize)
    requires
        i <= s@.len(),
    ensures
        r == digits_end(s@, i as int),
        i <= r <= s@.len(),
        forall|m: int| i <= m < r ==> is_digit(#[trigger] s@[m]),
{
    let mut j = i;
    while j < s.len() && is_digit_char(s[j])
        invariant
            i <= j <= s@.len(),
            digits_end(s@, i as int) == digits_end(s@, j as int),
            forall|m: int| i <= m < j ==> is_digit(#[trigger] s@[m]),
        decreases s@.len() - j,
    {
        j = j + 1;
    }
    j
}

fn hex_end_at(s: &Vec<char>, i: usize) -> (r: usize)
    requires
        i <= s@.len(),
    ensures
        r == hex_end(s@, i as int),
        i <= r <= s@.len(),
        forall|m: int| i <= m < r ==> is_hex_digit(#[trigger] s@[m]),
{
    let mut j = i;
    while j < s.len() && is_hex_digit_char(s[j])
        invariant
            i <= j <= s@.len(),
            hex_end(s@, i as int) == hex_end(s@, j as int),
            forall|m: int| i <= m < j ==> is_hex_digit(#[trigger] s@[m]),
        decreases s@.len() - j,
    {
        j = j + 1;
    }
    j
}

/// The value of the digits `s[i..e]` in base `base`, if it is at most `limit`
fn digits_up_to(s: &Vec<char>, i: usize, e: usize, base: u64, limit: u64) -> (r: Option<u64>)
    requires
        i <= e <= s@.len(),
        base == 10 || base == 16,
        limit <= 0x8000_0000,
        forall|m: int| i <= m < e ==> is_hex_digit(#[trigger] s@[m]),
        forall|m: int| i <= m < e ==> digit_value(#[trigger] s@[m]) < base,
    ensures
        match r {
            Some(v) => v as int == digits_value(s@, i as int, e as int, base as int) && v <= limit,
            None => digits_value(s@, i as int, e as int, base as int) > limit,
        },
{
    let mut acc: u64 = 0;
    let mut j = i;
    assert forall|m: int| i <= m < e implies 0 <= #[trigger] digit_value(s@[m]) < base by {
        assert(is_hex_digit(s@[m]));
    }
    while j < e
        invariant
            i <= j <= e <= s@.len(),
            base == 10 || base == 16,
            limit <= 0x8000_0000,
            forall|m: int| i <= m < e ==> is_hex_digit(#[trigger] s@[m]),
            forall|m: int| i <= m < e ==> 0 <= #[trigger] digit_value(s@[m]) < base,
            acc as int == digits_value(s@, i as int, j as int, base as int),
            acc <= limit,
        decreases e - j,
    {
        let d = digit_of(s[j]);
        assert(acc * base <= 0x8000_0000 * 16) by (nonlinear_arith)
            requires
                acc <= 0x8000_0000,
                base <= 16,
        ;
        let next = acc * base + d;
        if next > limit {
            proof {
                lemma_digits_monotone(s@, i as int, (j + 1) as int, e as int, base as int);
            }
            return None;
        }
        acc = next;
        j = j + 1;
    }
    Some(acc)
}

/// Whether `s[i..e]` spells `w`
fn word_is(s: &Vec<char>, i: usize, e: usize, w: &[char]) -> (r: bool)
    requires
        i <= e <= s@.len(),
    ensures
        r == (s@.subrange(i as int, e as int) == w@),
{
    if e - i != w.len() {
        return false;
    }
    let mut k: usize = 0;
    while k < w.len()
        invariant
            e - i == w@.len(),
            i <= e <= s@.len(),
            k <= w@.len(),
            forall|m: int| 0 <= m < k ==> s@[i + m] == w@[m],
        decreases w@.len() - k,
    {
        if s[i + k] != w[k] {
            assert(s@.subrange(i as int, e as int)[k as int] != w@[k as int]);
            return false;
        }
        k = k + 1;
    }
    assert(s@.subrange(i as int, e as int) =~= w@);
    true
}

fn keyword_at(s: &Vec<char>, i: usize, e: usize) -> (r: Option<SpecToken>)
    requires
        i <= e <= s@.len(),
    ensures
        r == keyword(s@.subrange(i as int, e as int)),
{
    let ghost w = s@.subrange(i as int, e as int);
    if word_is(s, i, e, &['e', 'r', 'r', 'o', 'r']) {
        Some(SpecToken::CompileError)
    } else if word_is(s, i, e, &['r', 'u', 'n', 's']) {
        Some(SpecToken::Runs)
    } else if word_is(s, i, e, &['i', 'n', 'f', 'l', 'o', 'o', 'p']) {
        Some(SpecToken::InfiniteLoop)
    } else if word_is(s, i, e, &['a', 'b', 'o', 'r', 't']) {
        Some(SpecToken::Abort)
    } else if word_is(s, i, e, &['f', 'a', 'i', 'l', 'u', 'r', 'e']) {
        Some(SpecToken::Failure)
    } else if word_is(s, i, e, &['s', 'e', 'g', 'f', 'a', 'u', 'l', 't']) {
        Some(SpecToken::Segfault)
    } else if word_is(s, i, e, &['d', 'i', 'v', '-', 'b', 'y', '-', 'z', 'e', 'r', 'o']) {
        Some(SpecToken::DivZero)
    } else if word_is(s, i, e, &['l', 'i', 'b']) {
        Some(SpecToken::Lib)
    } else if word_is(s, i, e, &['t', 'y', 'p', 'e', 'c', 'h', 'e', 'c', 'k']) {
        Some(SpecToken::Typechecked)
    } else if word_is(s, i, e, &['g', 'c']) {
        Some(SpecToken::GarbageCollected)
    } else if word_is(s, i, e, &['s', 'a', 'f', 'e']) {
        Some(SpecToken::Safe)
    } else if word_is(s, i, e, &['f', 'a', 'l', 's', 'e']) {
        Some(SpecToken::False)
    } else if word_is(s, i, e, &['o', 'r']) {
        Some(SpecToken::Or)
    } else {
        None
    }
}

fn basic_token_at(s: &Vec<char>, i: usize) -> (r: (SpecToken, usize))
    requires
        i < s@.len(),
    ensures
        (r.0, r.1 as int) == basic_token(s@, i as int),
        i < r.1 <= s@.len(),
{
    let c = s[i];
    let n = s.len();
    if is_ident_start_char(c) {
        let e = ident_end_at(s, i + 1);
        match keyword_at(s, i, e) {
            Some(t) => (t, e),
            None => if word_is(s, i, e, &['r', 'e', 't', 'u', 'r', 'n']) {
                (SpecToken::Error, e)
            } else {
                (SpecToken::Implementation, e)
            },
        }
    } else if c == '0' && n - i > 2 && (s[i + 1] == 'x' || s[i + 1] == 'X') && is_hex_digit_char(
        s[i + 2],
    ) {
        let e = hex_end_at(s, i + 2);
        let token = match digits_up_to(s, i + 2, e, 16, 0x7fff_ffff) {
            Some(v) => SpecToken::Number(v as i32),
            None => SpecToken::Error,
        };
        (token, e)
    } else if c == '0' {
        (SpecToken::Number(0), i + 1)
    } else if is_digit_char(c) {
        let e = digits_end_at(s, i + 1);
        let token = match digits_up_to(s, i, e, 10, 0x7fff_ffff) {
            Some(v) => SpecToken::Number(v as i32),
            None => SpecToken::Error,
        };
        (token, e)
    } else if (c == '+' || c == '-') && n - i > 1 && is_digit_char(s[i + 1]) {
        let e = if s[i + 1] == '0' {
            i + 2
        } else {
            digits_end_at(s, i + 1)
        };
        let token = if c == '-' {
            match digits_up_to(s, i + 1, e, 10, 0x8000_0000) {
                Some(v) => SpecToken::Number((0 - v as i64) as i32),
                None => SpecToken::Error,
            }
        } else {
            match digits_up_to(s, i + 1, e, 10, 0x7fff_ffff) {
                Some(v) => SpecToken::Number(v as i32),
                None => SpecToken::Error,
            }
        };
        (token, e)
    } else if n - i >= 6 && word_is(s, i, i + 6, &['/', '/', 't', 'e', 's', 't']) {
        (SpecToken::TestStartMarker, i + 6)
    } else if c == '=' && n - i > 1 && s[i + 1] == '>' {
        (SpecToken::FatArrow, i + 2)
    } else if c == '*' {
        (SpecToken::Star, i + 1)
    } else if c == '!' {
        (SpecToken::Not, i + 1)
    } else if c == ',' {
        (SpecToken::Comma, i + 1)
    } else if c == ';' {
        (SpecToken::Semicolon, i + 1)
    } else {
        (SpecToken::Error, i + 1)
    }
}

fn token_at_exec(s: &Vec<char>, i: usize) -> (r: (SpecToken, usize))
    requires
        i < s@.len(),
    ensures
        (r.0, r.1 as int) == token_at(s@, i as int),
        i < r.1 <= s@.len(),
{
    let n = s.len();
    if is_ident_start_char(s[i]) {
        let e = ident_end_at(s, i + 1);
        if word_is(s, i, e, &['r', 'e', 't', 'u', 'r', 'n']) {
            assert(s@.subrange(i as int, e as int).len() == 6);
            let k = skip_spaces_at(s, e);
            if k >= n {
                return (SpecToken::Error, e);
            }
            let (arg, end) = basic_token_at(s, k);
            let token = match arg {
                SpecToken::Number(x) => SpecToken::Return(Some(x)),
                SpecToken::Star => SpecToken::Return(None),
                _ => SpecToken::Error,
            };
            return (token, end);
        }
    }
    basic_token_at(s, i)
}

/// Splits the characters of a spec into tokens
fn lex_chars(s: &Vec<char>) -> (r: Vec<Lexeme>)
    ensures
        r@ == lex(s@),
{
    let mut tokens: Vec<Lexeme> = Vec::new();
    let mut i: usize = 0;
    loop
        invariant
            i <= s@.len(),
            lex(s@) == tokens@ + lex_from(s@, i as int),
        ensures
            lex(s@) == tokens@,
        decreases s@.len() - i,
    {
        let k = skip_spaces_at(s, i);
        if k >= s.len() {
            assert(tokens@ + lex_from(s@, i as int) =~= tokens@);
            break;
        }
        let (token, e) = token_at_exec(s, k);
        let lexeme = Lexeme { token, start: k, end: e };
        let ghost before = tokens@;
        tokens.push(lexeme);
        assert(before + lex_from(s@, i as int) =~= tokens@ + lex_from(s@, e as int));
        i = e;
    }
    tokens
}

/// The characters of a string
pub(crate) fn chars_of(input: &str) -> (r: Vec<char>)
    ensures
        r@ == input@,
{
    let n = input.unicode_len();
    let mut chars: Vec<char> = Vec::new();
    let mut i: usize = 0;
    while i < n
        invariant
            n == input@.len(),
            i <= n,
            chars@ == input@.take(i as int),
        decreases n - i,
    {
        chars.push(input.get_char(i));
        assert(input@.take(i + 1) =~= input@.take(i as int).push(input@[i as int]));
        i = i + 1;
    }
    assert(input@.take(n as int) =~= input@);
    chars
}

proof fn lemma_lex_bounds(s: Seq<char>, i: int)
    requires
        0 <= i,
    ensures
        forall|k: int|
            0 <= k < lex_from(s, i).len() ==> i <= (#[trigger] lex_from(s, i)[k]).start
                < lex_from(s, i)[k].end <= s.len(),
    decreases s.len() - i,
{
    let k = skip_spaces(s, i);
    if k < i || k >= s.len() {
    } else {
        let (token, e) = token_at(s, k);
        if k < e <= s.len() && e <= usize::MAX {
            lemma_lex_bounds(s, e);
            let rest = lex_from(s, e);
            let l = Lexeme { token, start: k as usize, end: e as usize };
            assert(lex_from(s, i) == seq![l] + rest);
            assert forall|m: int| 0 <= m < lex_from(s, i).len() implies i <= (#[trigger] lex_from(
                s,
                i,
            )[m]).start < lex_from(s, i)[m].end <= s.len() by {
                if m > 0 {
                    assert(lex_from(s, i)[m] == rest[m - 1]);
                }
            }
        }
    }
}

// The grammar of specs, over the tokens `t` of the text `s`. Predicates are
// parsed by binding power: `!` binds tightest, then `,` (and), then `or`;
// both infix operators associate to the left.

/// The predicate that the single token `l` stands for, if it is an atom
pub open spec fn atom_model(s: Seq<char>, l: Lexeme) -> Option<PredicateModel> {
    match l.token {
        SpecToken::Lib => Some(PredicateModel::Library),
        SpecToken::Typechecked => Some(PredicateModel::Typechecked),
        SpecToken::GarbageCollected => Some(PredicateModel::GarbageCollected),
        SpecToken::Safe => Some(PredicateModel::Safe),
        SpecToken::False => Some(PredicateModel::False),
        SpecToken::Implementation => Some(
            PredicateModel::Name(s.subrange(l.start as int, l.end as int)),
        ),
        _ => None,
    }
}

/// The left and right binding powers of an infix operator
pub open spec fn infix_power(t: SpecToken) -> Option<(int, int)> {
    match t {
        SpecToken::Or => Some((1, 2)),
        SpecToken::Comma => Some((3, 4)),
        _ => None,
    }
}

/// The binding power of the prefix operator `!`
pub open spec fn not_power() -> int {
    5
}

/// Why tokens do not form what the grammar asks for: the input is empty or
/// lacks its marker, it ends too early, or a token stands where it may not;
/// with what was expected
pub enum ParseFailure {
    NotSpec,
    Eof(&'static str),
    /// The index of the offending token
    Token(int, &'static str),
}

/// The predicate that starts at token `i` and binds at least as tightly as
/// `min_bp`, with the position after it
pub open spec fn parse_pred(s: Seq<char>, t: Seq<Lexeme>, i: int, min_bp: int) -> Result<
    (PredicateModel, int),
    ParseFailure,
>
    decreases t.len() - i, 1int,
{
    if i < 0 || i >= t.len() {
        Err(ParseFailure::Eof("implementation predicate"))
    } else {
        match atom_model(s, t[i]) {
            Some(a) => pred_loop(s, t, a, i + 1, min_bp),
            None => if t[i].token == SpecToken::Not {
                match parse_pred(s, t, i + 1, not_power()) {
                    Ok((q, j)) => if i < j <= t.len() {
                        pred_loop(s, t, PredicateModel::Not(Box::new(q)), j, min_bp)
                    } else {
                        // never taken: an operand spans at least one token
                        Err(ParseFailure::Eof("implementation predicate"))
                    },
                    Err(f) => Err(f),
                }
            } else {
                Err(ParseFailure::Token(i, "implementation predicate type or prefix operator"))
            },
        }
    }
}

/// Extends the predicate `lhs`, which ends before token `i`, with the
/// infix operators that bind at least as tightly as `min_bp`
pub open spec fn pred_loop(
    s: Seq<char>,
    t: Seq<Lexeme>,
    lhs: PredicateModel,
    i: int,
    min_bp: int,
) -> Result<(PredicateModel, int), ParseFailure>
    decreases t.len() - i, 0int,
{
    if 0 <= i < t.len() {
        match infix_power(t[i].token) {
            Some((l_bp, r_bp)) => if l_bp >= min_bp {
                match parse_pred(s, t, i + 1, r_bp) {
                    Ok((rhs, j)) => if i < j <= t.len() {
                        let combined = if t[i].token == SpecToken::Comma {
                            PredicateModel::And(Box::new(lhs), Box::new(rhs))
                        } else {
                            PredicateModel::Or(Box::new(lhs), Box::new(rhs))
                        };
                        pred_loop(s, t, combined, j, min_bp)
                    } else {
                        // never taken: an operand spans at least one token
                        Err(ParseFailure::Eof("implementation predicate"))
                    },
                    Err(f) => Err(f),
                }
            } else {
                Ok((lhs, i))
            },
            None => Ok((lhs, i)),
        }
    } else {
        Ok((lhs, i))
    }
}

pub open spec fn is_behavior_token(t: SpecToken) -> bool {
    match t {
        SpecToken::CompileError | SpecToken::Runs | SpecToken::InfiniteLoop | SpecToken::Abort
        | SpecToken::Failure | SpecToken::Segfault | SpecToken::DivZero | SpecToken::Return(_) => true,
        _ => false,
    }
}

pub open spec fn behavior_of(t: SpecToken) -> Behavior {
    match t {
        SpecToken::CompileError => Behavior::CompileError,
        SpecToken::Runs => Behavior::Runs,
        SpecToken::InfiniteLoop => Behavior::InfiniteLoop,
        SpecToken::Abort => Behavior::Abort,
        SpecToken::Failure => Behavior::Failure,
        SpecToken::Segfault => Behavior::Segfault,
        SpecToken::DivZero => Behavior::DivZero,
        SpecToken::Return(x) => Behavior::Return(x),
        _ => Behavior::Skipped,
    }
}

/// The spec that starts at token `i` (`<predicate> => <spec>` or a
/// behavior), with the position after it
pub open spec fn parse_spec_at(s: Seq<char>, t: Seq<Lexeme>, i: int) -> Result<
    (SpecModel, int),
    ParseFailure,
>
    decreases t.len() - i,
{
    if i < 0 || i >= t.len() {
        Err(ParseFailure::Eof("implementation or behavior"))
    } else if is_behavior_token(t[i].token) {
        Ok((SpecModel::Behavior(behavior_of(t[i].token)), i + 1))
    } else {
        match parse_pred(s, t, i, 0) {
            Ok((p, j)) => if j >= t.len() {
                Err(ParseFailure::Eof("'=>' between implementation and behavior"))
            } else if t[j].token != SpecToken::FatArrow {
                Err(ParseFailure::Token(j, "'=>' between implementation and behavior"))
            } else if i < j {
                match parse_spec_at(s, t, j + 1) {
                    Ok((c, k)) => Ok((SpecModel::Implication(p, Box::new(c)), k)),
                    Err(f) => Err(f),
                }
            } else {
                // never taken: a predicate spans at least one token
                Err(ParseFailure::Eof("implementation or behavior"))
            },
            Err(f) => Err(f),
        }
    }
}

/// The specs, separated by semicolons, from token `i` to the end
pub open spec fn parse_specs_from(s: Seq<char>, t: Seq<Lexeme>, i: int) -> Result<
    Seq<SpecModel>,
    ParseFailure,
>
    decreases t.len() - i,
{
    match parse_spec_at(s, t, i) {
        Ok((first, j)) => if j >= t.len() {
            Ok(seq![first])
        } else if t[j].token != SpecToken::Semicolon {
            Err(ParseFailure::Token(j, "semicolon to separate tests"))
        } else if i < j {
            match parse_specs_from(s, t, j + 1) {
                Ok(rest) => Ok(seq![first] + rest),
                Err(f) => Err(f),
            }
        } else {
            // never taken: a spec spans at least one token
            Err(ParseFailure::Eof("implementation or behavior"))
        },
        Err(f) => Err(f),
    }
}

/// Whether `s` counts as a spec line at all: it must hold a token, and when
/// the marker is required, its first token must be `//test`
pub open spec fn is_spec_line(s: Seq<char>, require_marker: bool) -> bool {
    lex(s).len() > 0 && (!require_marker || lex(s)[0].token == SpecToken::TestStartMarker)
}

/// What parsing `s` gives: its specs, or why it holds none
pub open spec fn parse_outcome(s: Seq<char>, require_marker: bool) -> Result<
    Seq<SpecModel>,
    ParseFailure,
> {
    if !is_spec_line(s, require_marker) {
        Err(ParseFailure::NotSpec)
    } else {
        parse_specs_from(s, lex(s), if require_marker { 1 } else { 0 })
    }
}

/// The specs that `s` holds, if it is well formed
pub open spec fn parsed_specs(s: Seq<char>, require_marker: bool) -> Option<Seq<SpecModel>> {
    match parse_outcome(s, require_marker) {
        Ok(specs) => Some(specs),
        Err(_) => None,
    }
}

/// Whether the error `e` reports the failure `f` on the text `s` with
/// tokens `t`: the same kind and expectation, and for an unexpected token
/// its place and text
pub open spec fn reports(e: SpecParseError, f: ParseFailure, s: Seq<char>, t: Seq<Lexeme>) -> bool {
    match f {
        ParseFailure::NotSpec => e is NotSpec,
        ParseFailure::Eof(m) => e == SpecParseError::UnexpectedEOF { msg: m },
        ParseFailure::Token(k, m) => 0 <= k < t.len() && match e {
            SpecParseError::UnexpectedToken { actual, range, msg } => msg == m && range.start
                == t[k].start && range.end == t[k].end && actual@ == s.subrange(
                t[k].start as int,
                t[k].end as int,
            ),
            _ => false,
        },
    }
}

/// Parses a 'spec' string with the given options
///
/// spec ::= <predicate> => <spec>
///        | <behavior>
///
/// predicate ::= lib | typecheck | gc | safe | false | <ident>
///             | ! <predicate>
///             | <predicate>, <predicate>
///             | <predicate> or <predicate>
///
/// behavior ::= error | infloop | abort | failure | segfault | div-by-zero
///            | runs | return * | return <int>
pub fn parse(input: &str, options: ParseOptions) -> (r: Result<Specs, SpecParseError>)
    ensures
        r is Ok <==> parsed_specs(input@, options.require_test_marker) is Some,
        match parse_outcome(input@, options.require_test_marker) {
            Ok(specs) => r is Ok && specs_model(r->Ok_0@) == specs,
            Err(f) => r is Err && reports(r->Err_0, f, input@, lex(input@)),
        },
{
    let mut parser = SpecParser::new(input, options);
    parser.parse()
}

#[derive(Debug, Clone, Copy)]
pub struct ParseOptions {
    /// Whether '//test' should appear at the start of the spec string
    pub require_test_marker: bool,
}

#[derive(Debug)]
pub enum SpecParseError {
    /// The input holds no token, or does not start with //test where that
    /// is required
    NotSpec,
    /// A token that the grammar does not allow where it stands: its text,
    /// its position in the input (counted in characters), and what was
    /// expected there
    UnexpectedToken { actual: String, range: std::ops::Range<usize>, msg: &'static str },
    /// The input ended where the grammar needs more
    UnexpectedEOF { msg: &'static str },
}

/// Splits a spec line into its tokens
pub fn lex_spec(input: &str) -> (r: Vec<Lexeme>)
    ensures
        r@ == lex(input@),
{
    let chars = chars_of(input);
    lex_chars(&chars)
}

struct SpecLexer {
    tokens: Vec<Lexeme>,
    pos: usize,
}

impl SpecLexer {
    fn new(input: &str) -> (r: SpecLexer)
        ensures
            r.tokens@ == lex(input@),
            r.pos == 0,
            forall|k: int|
                0 <= k < r.tokens@.len() ==> (#[trigger] r.tokens@[k]).start < r.tokens@[k].end
                    <= input@.len(),
    {
        let chars = chars_of(input);
        let tokens = lex_chars(&chars);
        proof {
            lemma_lex_bounds(input@, 0);
        }
        SpecLexer { tokens, pos: 0 }
    }

    fn next(&mut self) -> (r: Option<Lexeme>)
        requires
            old(self).pos <= old(self).tokens@.len(),
        ensures
            final(self).tokens == old(self).tokens,
            old(self).pos < old(self).tokens@.len() ==> r == Some(old(self).tokens@[old(self).pos as int])
                && final(self).pos == old(self).pos + 1,
            old(self).pos >= old(self).tokens@.len() ==> r is None && final(self).pos == old(self).pos,
    {
        if self.pos < self.tokens.len() {
            let l = self.tokens[self.pos];
            self.pos = self.pos + 1;
            Some(l)
        } else {
            None
        }
    }

    fn peek(&self) -> (r: Option<Lexeme>)
        ensures
            self.pos < self.tokens@.len() ==> r == Some(self.tokens@[self.pos as int]),
            self.pos >= self.tokens@.len() ==> r is None,
    {
        if self.pos < self.tokens.len() {
            Some(self.tokens[self.pos])
        } else {
            None
        }
    }
}

struct SpecParser<'a> {
    input: &'a str,
    lexer: SpecLexer,
    options: ParseOptions,
}

fn infix_binding_power(tok: SpecToken) -> (r: Option<(u8, u8)>)
    ensures
        match r {
            Some((l, rb)) => infix_power(tok) == Some((l as int, rb as int)),
            None => infix_power(tok) is None,
        },
{
    match tok {
        SpecToken::Or => Some((1, 2)),
        SpecToken::Comma => Some((3, 4)),
        _ => None,
    }
}

fn prefix_binding_power(tok: SpecToken) -> (r: Option<u8>)
    ensures
        r == (if tok == SpecToken::Not {
            Some(not_power() as u8)
        } else {
            None::<u8>
        }),
{
    match tok {
        SpecToken::Not => Some(5),
        _ => None,
    }
}

impl SpecToken {
    fn is_behavior(&self) -> (r: bool)
        ensures
            r == is_behavior_token(*self),
    {
        match self {
            SpecToken::CompileError | SpecToken::Runs | SpecToken::InfiniteLoop | SpecToken::Segfault
            | SpecToken::Abort | SpecToken::Failure | SpecToken::DivZero | SpecToken::Return(_) => true,
            _ => false,
        }
    }
}

impl<'a> SpecParser<'a> {
    pub closed spec fn wf(&self) -> bool {
        &&& self.lexer.tokens@ == lex(self.input@)
        &&& self.lexer.pos <= self.lexer.tokens@.len()
        &&& forall|k: int|
            0 <= k < self.lexer.tokens@.len() ==> (#[trigger] self.lexer.tokens@[k]).start
                < self.lexer.tokens@[k].end <= self.input@.len()
    }

    fn new(input: &'a str, options: ParseOptions) -> (r: SpecParser<'a>)
        ensures
            r.wf(),
            r.input == input,
            r.options == options,
            r.lexer.pos == 0,
    {
        SpecParser { input, lexer: SpecLexer::new(input), options }
    }

    fn parse(&mut self) -> (r: Result<Specs, SpecParseError>)
        requires
            old(self).wf(),
            old(self).lexer.pos == 0,
        ensures
            r is Ok <==> parsed_specs(old(self).input@, old(self).options.require_test_marker) is Some,
            match parse_outcome(old(self).input@, old(self).options.require_test_marker) {
                Ok(specs) => r is Ok && specs_model(r->Ok_0@) == specs,
                Err(f) => r is Err && reports(r->Err_0, f, old(self).input@, old(self).lexer.tokens@),
            },
    {
        let ghost s = self.input@;
        let ghost t = self.lexer.tokens@;
        // An empty line is no spec
        if self.lexer.tokens.len() == 0 {
            return Err(SpecParseError::NotSpec);
        }
        // Make sure it starts with //test if required
        if self.options.require_test_marker {
            match self.lexer.next() {
                Some(l) => {
                    if l.token != SpecToken::TestStartMarker {
                        return Err(SpecParseError::NotSpec);
                    }
                },
                None => {
                    return Err(SpecParseError::NotSpec);
                },
            }
        }
        let ghost start = self.lexer.pos as int;
        let mut tests: Specs = Vec::new();
        loop
            invariant_except_break
                parse_specs_from(s, t, start) == match parse_specs_from(
                    s,
                    t,
                    self.lexer.pos as int,
                ) {
                    Ok(rest) => Ok(specs_model(tests@) + rest),
                    Err(f) => Err::<Seq<SpecModel>, ParseFailure>(f),
                },
            invariant
                self.wf(),
                self.input@ == s,
                self.input == old(self).input,
                self.lexer.tokens@ == t,
                self.options == old(self).options,
                s == old(self).input@,
                t == old(self).lexer.tokens@,
                is_spec_line(s, self.options.require_test_marker),
                parse_outcome(s, self.options.require_test_marker) == parse_specs_from(s, t, start),
            ensures
                parse_specs_from(s, t, start) == Ok::<Seq<SpecModel>, ParseFailure>(
                    specs_model(tests@),
                ),
            decreases t.len() - self.lexer.pos,
        {
            let spec = match self.parse_spec() {
                Ok(spec) => spec,
                Err(e) => {
                    return Err(e);
                },
            };
            let ghost old_tests = tests@;
            tests.push(spec);
            assert(specs_model(tests@) =~= specs_model(old_tests) + seq![spec_model(spec)]);
            match self.lexer.next() {
                Some(l) => {
                    if l.token != SpecToken::Semicolon {
                        return Err(self.unexpected_token(l, "semicolon to separate tests"));
                    }
                    assert(specs_model(old_tests) + (seq![spec_model(spec)] + parse_specs_from(
                        s,
                        t,
                        self.lexer.pos as int,
                    )->Ok_0) =~= specs_model(tests@) + parse_specs_from(
                        s,
                        t,
                        self.lexer.pos as int,
                    )->Ok_0);
                },
                None => {
                    assert(specs_model(old_tests) + seq![spec_model(spec)] =~= specs_model(tests@));
                    break ;
                },
            }
        }
        Ok(tests)
    }

    /// Parses a spec
    ///
    /// spec ::= <predicate> => <spec>
    ///        | <behavior>
    fn parse_spec(&mut self) -> (r: Result<Spec, SpecParseError>)
        requires
            old(self).wf(),
        ensures
            final(self).wf(),
            final(self).input == old(self).input,
            final(self).lexer.tokens == old(self).lexer.tokens,
            final(self).options == old(self).options,
            match parse_spec_at(old(self).input@, old(self).lexer.tokens@, old(self).lexer.pos as int) {
                Ok((sp, j)) => r is Ok && spec_model(r->Ok_0) == sp && final(self).lexer.pos == j,
                Err(f) => r is Err && reports(r->Err_0, f, old(self).input@, old(self).lexer.tokens@),
            },
            r is Ok ==> old(self).lexer.pos < final(self).lexer.pos,
        decreases old(self).lexer.tokens@.len() - old(self).lexer.pos,
    {
        let tok = match self.lexer.peek() {
            Some(tok) => tok,
            None => {
                return Err(SpecParseError::UnexpectedEOF { msg: "implementation or behavior" });
            },
        };
        if tok.token.is_behavior() {
            let behavior = match self.parse_behavior() {
                Ok(b) => b,
                Err(e) => {
                    return Err(e);
                },
            };
            Ok(Spec::Behavior(behavior))
        } else {
            let implementation = match self.parse_implementation(0) {
                Ok(p) => p,
                Err(e) => {
                    return Err(e);
                },
            };
            // After a predicate we always expect =>
            match self.lexer.next() {
                Some(l) => {
                    if l.token != SpecToken::FatArrow {
                        return Err(
                            self.unexpected_token(l, "'=>' between implementation and behavior"),
                        );
                    }
                },
                None => {
                    return Err(
                        SpecParseError::UnexpectedEOF {
                            msg: "'=>' between implementation and behavior",
                        },
                    );
                },
            }
            // Could be a loop too
            let consequent = match self.parse_spec() {
                Ok(c) => c,
                Err(e) => {
                    return Err(e);
                },
            };
            Ok(Spec::Implication(implementation, Box::new(consequent)))
        }
    }

    /// Parses an implementation predicate
    ///
    /// predicate ::= lib | typecheck | gc | safe | false | <ident>
    ///             | ! <predicate>
    ///             | <predicate>, <predicate>
    ///             | <predicate> or <predicate>
    fn parse_implementation(&mut self, min_bp: u8) -> (r: Result<
        ImplementationPredicate,
        SpecParseError,
    >)
        requires
            old(self).wf(),
        ensures
            final(self).wf(),
            final(self).input == old(self).input,
            final(self).lexer.tokens == old(self).lexer.tokens,
            final(self).options == old(self).options,
            match parse_pred(
                old(self).input@,
                old(self).lexer.tokens@,
                old(self).lexer.pos as int,
                min_bp as int,
            ) {
                Ok((p, j)) => r is Ok && predicate_model(r->Ok_0) == p && final(self).lexer.pos
                    == j,
                Err(f) => r is Err && reports(r->Err_0, f, old(self).input@, old(self).lexer.tokens@),
            },
            r is Ok ==> old(self).lexer.pos < final(self).lexer.pos,
        decreases old(self).lexer.tokens@.len() - old(self).lexer.pos,
    {
        let ghost s = self.input@;
        let ghost t = self.lexer.tokens@;
        let ghost i = self.lexer.pos as int;
        let first = match self.lexer.next() {
            None => {
                return Err(SpecParseError::UnexpectedEOF { msg: "implementation predicate" });
            },
            Some(l) => l,
        };
        // At the beginning of a predicate,
        // we expect an atom or a prefix operator
        let mut lhs = match first.token {
            SpecToken::Lib => ImplementationPredicate::Library,
            SpecToken::Typechecked => ImplementationPredicate::Typechecked,
            SpecToken::GarbageCollected => ImplementationPredicate::GarbageCollected,
            SpecToken::Safe => ImplementationPredicate::Safe,
            SpecToken::False => ImplementationPredicate::False,
            SpecToken::Implementation => ImplementationPredicate::ImplementationName(
                self.text_of(first),
            ),
            // Not an atom, try to parse it as a prefix operator
            tok => {
                let rhs_bp = match prefix_binding_power(tok) {
                    Some(bp) => bp,
                    None => {
                        return Err(
                            self.unexpected_token(
                                first,
                                "implementation predicate type or prefix operator",
                            ),
                        );
                    },
                };
                let operand = match self.parse_implementation(rhs_bp) {
                    Ok(p) => p,
                    Err(e) => {
                        return Err(e);
                    },
                };
                ImplementationPredicate::Not(Box::new(operand))
            },
        };
        loop
            invariant
                self.wf(),
                self.input@ == s,
                self.input == old(self).input,
                self.lexer.tokens == old(self).lexer.tokens,
                self.lexer.tokens@ == t,
                self.options == old(self).options,
                i == old(self).lexer.pos,
                i < self.lexer.pos,
                parse_pred(s, t, i, min_bp as int) == pred_loop(
                    s,
                    t,
                    predicate_model(lhs),
                    self.lexer.pos as int,
                    min_bp as int,
                ),
            ensures
                parse_pred(s, t, i, min_bp as int) == Ok::<(PredicateModel, int), ParseFailure>(
                    (predicate_model(lhs), self.lexer.pos as int),
                ),
            decreases t.len() - self.lexer.pos,
        {
            // No postfix operators so 'peek' technically could be 'next'
            let (left_bp, right_bp) = match self.lexer.peek() {
                None => {
                    break ;
                },
                Some(l) => match infix_binding_power(l.token) {
                    Some(bps) => bps,
                    None => {
                        break ;
                    },
                },
            };
            if left_bp < min_bp {
                break ;
            }
            let op = match self.lexer.next() {
                Some(l) => l,
                None => {
                    return Err(SpecParseError::UnexpectedEOF { msg: "infix operator" });
                },
            };
            let rhs = match self.parse_implementation(right_bp) {
                Ok(p) => p,
                Err(e) => {
                    return Err(e);
                },
            };
            lhs = if op.token == SpecToken::Comma {
                ImplementationPredicate::And(Box::new(lhs), Box::new(rhs))
            } else {
                ImplementationPredicate::Or(Box::new(lhs), Box::new(rhs))
            };
        }
        Ok(lhs)
    }

    /// Parses a program expected behavior
    ///
    /// behavior ::= error | infloop | abort | failure | segfault | div-by-zero
    ///            | runs | return * | return <int>
    fn parse_behavior(&mut self) -> (r: Result<Behavior, SpecParseError>)
        requires
            old(self).wf(),
        ensures
            final(self).wf(),
            final(self).input == old(self).input,
            final(self).lexer.tokens == old(self).lexer.tokens,
            final(self).options == old(self).options,
            old(self).lexer.pos < old(self).lexer.tokens@.len() && is_behavior_token(
                old(self).lexer.tokens@[old(self).lexer.pos as int].token,
            ) ==> r == Ok::<Behavior, SpecParseError>(
                behavior_of(old(self).lexer.tokens@[old(self).lexer.pos as int].token),
            ) && final(self).lexer.pos == old(self).lexer.pos + 1,
            r is Ok ==> old(self).lexer.pos < final(self).lexer.pos,
    {
        match self.lexer.next() {
            None => Err(SpecParseError::UnexpectedEOF { msg: "behavior" }),
            Some(l) => match l.token {
                SpecToken::CompileError => Ok(Behavior::CompileError),
                SpecToken::Runs => Ok(Behavior::Runs),
                SpecToken::InfiniteLoop => Ok(Behavior::InfiniteLoop),
                SpecToken::Abort => Ok(Behavior::Abort),
                SpecToken::Failure => Ok(Behavior::Failure),
                SpecToken::Segfault => Ok(Behavior::Segfault),
                SpecToken::DivZero => Ok(Behavior::DivZero),
                SpecToken::Return(x) => Ok(Behavior::Return(x)),
                _ => Err(self.unexpected_token(l, "behavior")),
            },
        }
    }

    /// The text of the input that a token spans
    fn text_of(&self, l: Lexeme) -> (r: String)
        requires
            l.start < l.end <= self.input@.len(),
        ensures
            r@ == self.input@.subrange(l.start as int, l.end as int),
    {
        self.input.substring_char(l.start, l.end).to_owned()
    }

    fn unexpected_token(&self, l: Lexeme, msg: &'static str) -> (r: SpecParseError)
        requires
            l.start < l.end <= self.input@.len(),
        ensures
            r matches SpecParseError::UnexpectedToken { actual, range, msg: m } && m == msg
                && range.start == l.start && range.end == l.end && actual@ == self.input@.subrange(
                l.start as int,
                l.end as int,
            ),
    {
        SpecParseError::UnexpectedToken { actual: self.text_of(l), range: l.start..l.end, msg }
    }
}

/// Whether `l` is an atom of the predicate language
pub open spec fn is_atom(s: Seq<char>, l: Lexeme) -> bool {
    atom_model(s, l) is Some
}

pub open spec fn atom_of(s: Seq<char>, l: Lexeme) -> PredicateModel {
    atom_model(s, l)->Some_0
}

pub open spec fn and_of(p: PredicateModel, q: PredicateModel) -> PredicateModel {
    PredicateModel::And(Box::new(p), Box::new(q))
}

pub open spec fn or_of(p: PredicateModel, q: PredicateModel) -> PredicateModel {
    PredicateModel::Or(Box::new(p), Box::new(q))
}

pub open spec fn not_of(p: PredicateModel) -> PredicateModel {
    PredicateModel::Not(Box::new(p))
}

/// `a or b, c` reads as `a or (b, c)`: `,` binds tighter than `or`
pub proof fn lemma_and_binds_tighter_than_or(
    s: Seq<char>,
    a: Lexeme,
    o: Lexeme,
    b: Lexeme,
    c: Lexeme,
    d: Lexeme,
)
    requires
        is_atom(s, a),
        is_atom(s, b),
        is_atom(s, d),
        o.token == SpecToken::Or,
        c.token == SpecToken::Comma,
    ensures
        parse_pred(s, seq![a, o, b, c, d], 0, 0) == Ok::<(PredicateModel, int), ParseFailure>(
            (or_of(atom_of(s, a), and_of(atom_of(s, b), atom_of(s, d))), 5int),
        ),
{
    let t = seq![a, o, b, c, d];
    let (pa, pb, pd) = (atom_of(s, a), atom_of(s, b), atom_of(s, d));
    assert(pred_loop(s, t, pd, 5, 4) == Ok::<(PredicateModel, int), ParseFailure>((pd, 5int)));
    assert(parse_pred(s, t, 4, 4) == Ok::<(PredicateModel, int), ParseFailure>((pd, 5int)));
    assert(pred_loop(s, t, and_of(pb, pd), 5, 2) == Ok::<(PredicateModel, int), ParseFailure>((and_of(pb, pd), 5int)));
    assert(pred_loop(s, t, pb, 3, 2) == Ok::<(PredicateModel, int), ParseFailure>((and_of(pb, pd), 5int)));
    assert(parse_pred(s, t, 2, 2) == Ok::<(PredicateModel, int), ParseFailure>((and_of(pb, pd), 5int)));
    assert(pred_loop(s, t, or_of(pa, and_of(pb, pd)), 5, 0) == Ok::<(PredicateModel, int), ParseFailure>(
        (or_of(pa, and_of(pb, pd)), 5int),
    ));
    assert(pred_loop(s, t, pa, 1, 0) == Ok::<(PredicateModel, int), ParseFailure>((or_of(pa, and_of(pb, pd)), 5int)));
}

/// `a, b or c` reads as `(a, b) or c`
pub proof fn lemma_and_before_or(s: Seq<char>, a: Lexeme, c: Lexeme, b: Lexeme, o: Lexeme, d: Lexeme)
    requires
        is_atom(s, a),
        is_atom(s, b),
        is_atom(s, d),
        c.token == SpecToken::Comma,
        o.token == SpecToken::Or,
    ensures
        parse_pred(s, seq![a, c, b, o, d], 0, 0) == Ok::<(PredicateModel, int), ParseFailure>(
            (or_of(and_of(atom_of(s, a), atom_of(s, b)), atom_of(s, d)), 5int),
        ),
{
    let t = seq![a, c, b, o, d];
    let (pa, pb, pd) = (atom_of(s, a), atom_of(s, b), atom_of(s, d));
    assert(pred_loop(s, t, pb, 3, 4) == Ok::<(PredicateModel, int), ParseFailure>((pb, 3int)));
    assert(parse_pred(s, t, 2, 4) == Ok::<(PredicateModel, int), ParseFailure>((pb, 3int)));
    assert(pred_loop(s, t, pd, 5, 2) == Ok::<(PredicateModel, int), ParseFailure>((pd, 5int)));
    assert(parse_pred(s, t, 4, 2) == Ok::<(PredicateModel, int), ParseFailure>((pd, 5int)));
    let ab = and_of(pa, pb);
    assert(pred_loop(s, t, or_of(ab, pd), 5, 0) == Ok::<(PredicateModel, int), ParseFailure>((or_of(ab, pd), 5int)));
    assert(pred_loop(s, t, ab, 3, 0) == Ok::<(PredicateModel, int), ParseFailure>((or_of(ab, pd), 5int)));
    assert(pred_loop(s, t, pa, 1, 0) == Ok::<(PredicateModel, int), ParseFailure>((or_of(ab, pd), 5int)));
}

/// `a, b, c` reads as `(a, b), c`: `,` groups to the left
pub proof fn lemma_and_groups_left(s: Seq<char>, a: Lexeme, c1: Lexeme, b: Lexeme, c2: Lexeme, d: Lexeme)
    requires
        is_atom(s, a),
        is_atom(s, b),
        is_atom(s, d),
        c1.token == SpecToken::Comma,
        c2.token == SpecToken::Comma,
    ensures
        parse_pred(s, seq![a, c1, b, c2, d], 0, 0) == Ok::<(PredicateModel, int), ParseFailure>(
            (and_of(and_of(atom_of(s, a), atom_of(s, b)), atom_of(s, d)), 5int),
        ),
{
    let t = seq![a, c1, b, c2, d];
    let (pa, pb, pd) = (atom_of(s, a), atom_of(s, b), atom_of(s, d));
    assert(pred_loop(s, t, pb, 3, 4) == Ok::<(PredicateModel, int), ParseFailure>((pb, 3int)));
    assert(parse_pred(s, t, 2, 4) == Ok::<(PredicateModel, int), ParseFailure>((pb, 3int)));
    assert(pred_loop(s, t, pd, 5, 4) == Ok::<(PredicateModel, int), ParseFailure>((pd, 5int)));
    assert(parse_pred(s, t, 4, 4) == Ok::<(PredicateModel, int), ParseFailure>((pd, 5int)));
    let ab = and_of(pa, pb);
    assert(pred_loop(s, t, and_of(ab, pd), 5, 0) == Ok::<(PredicateModel, int), ParseFailure>((and_of(ab, pd), 5int)));
    assert(pred_loop(s, t, ab, 3, 0) == Ok::<(PredicateModel, int), ParseFailure>((and_of(ab, pd), 5int)));
    assert(pred_loop(s, t, pa, 1, 0) == Ok::<(PredicateModel, int), ParseFailure>((and_of(ab, pd), 5int)));
}

/// `a or b or c` reads as `(a or b) or c`: `or` groups to the left
pub proof fn lemma_or_groups_left(s: Seq<char>, a: Lexeme, o1: Lexeme, b: Lexeme, o2: Lexeme, d: Lexeme)
    requires
        is_atom(s, a),
        is_atom(s, b),
        is_atom(s, d),
        o1.token == SpecToken::Or,
        o2.token == SpecToken::Or,
    ensures
        parse_pred(s, seq![a, o1, b, o2, d], 0, 0) == Ok::<(PredicateModel, int), ParseFailure>(
            (or_of(or_of(atom_of(s, a), atom_of(s, b)), atom_of(s, d)), 5int),
        ),
{
    let t = seq![a, o1, b, o2, d];
    let (pa, pb, pd) = (atom_of(s, a), atom_of(s, b), atom_of(s, d));
    assert(pred_loop(s, t, pb, 3, 2) == Ok::<(PredicateModel, int), ParseFailure>((pb, 3int)));
    assert(parse_pred(s, t, 2, 2) == Ok::<(PredicateModel, int), ParseFailure>((pb, 3int)));
    assert(pred_loop(s, t, pd, 5, 2) == Ok::<(PredicateModel, int), ParseFailure>((pd, 5int)));
    assert(parse_pred(s, t, 4, 2) == Ok::<(PredicateModel, int), ParseFailure>((pd, 5int)));
    let ab = or_of(pa, pb);
    assert(pred_loop(s, t, or_of(ab, pd), 5, 0) == Ok::<(PredicateModel, int), ParseFailure>((or_of(ab, pd), 5int)));
    assert(pred_loop(s, t, ab, 3, 0) == Ok::<(PredicateModel, int), ParseFailure>((or_of(ab, pd), 5int)));
    assert(pred_loop(s, t, pa, 1, 0) == Ok::<(PredicateModel, int), ParseFailure>((or_of(ab, pd), 5int)));
}

/// `!a, b` reads as `(!a), b` and `!a or b` as `(!a) or b`: `!` binds
/// tightest
pub proof fn lemma_not_binds_tightest(s: Seq<char>, n: Lexeme, a: Lexeme, op: Lexeme, b: Lexeme)
    requires
        n.token == SpecToken::Not,
        is_atom(s, a),
        is_atom(s, b),
        op.token == SpecToken::Comma || op.token == SpecToken::Or,
    ensures
        parse_pred(s, seq![n, a, op, b], 0, 0) == Ok::<(PredicateModel, int), ParseFailure>(
            (
                if op.token == SpecToken::Comma {
                    and_of(not_of(atom_of(s, a)), atom_of(s, b))
                } else {
                    or_of(not_of(atom_of(s, a)), atom_of(s, b))
                },
                4int,
            ),
        ),
{
    let t = seq![n, a, op, b];
    let (pa, pb) = (atom_of(s, a), atom_of(s, b));
    let r_bp: int = if op.token == SpecToken::Comma { 4 } else { 2 };
    let combined = if op.token == SpecToken::Comma {
        and_of(not_of(pa), pb)
    } else {
        or_of(not_of(pa), pb)
    };
    assert(atom_model(s, n) is None);
    assert(pred_loop(s, t, pa, 2, not_power()) == Ok::<(PredicateModel, int), ParseFailure>((pa, 2int)));
    assert(parse_pred(s, t, 1, not_power()) == Ok::<(PredicateModel, int), ParseFailure>((pa, 2int)));
    assert(pred_loop(s, t, pb, 4, r_bp) == Ok::<(PredicateModel, int), ParseFailure>((pb, 4int)));
    assert(parse_pred(s, t, 3, r_bp) == Ok::<(PredicateModel, int), ParseFailure>((pb, 4int)));
    assert(pred_loop(s, t, combined, 4, 0) == Ok::<(PredicateModel, int), ParseFailure>((combined, 4int)));
    assert(pred_loop(s, t, not_of(pa), 2, 0) == Ok::<(PredicateModel, int), ParseFailure>((combined, 4int)));
}

} // verus!
