//! Splitting a condition into tokens.
//!
//! Tokens, with whitespace (space, tab, newline, carriage return) between them:
//! `(` `)` `[` `]` `,` `&&` `||` `!`, the comparisons `==` `~=` `^=` `^~=` `!=` `>=` `<=`
//! `>` `<` `=~` `!~`, identifiers `[A-Za-z_][A-Za-z0-9_.]*` (`true` and `false` are
//! booleans), integers `[+-]?(0x|0o|0b|0d)?` digits of the base with `_` allowed after the
//! first digit, floats `[+-]?digits.digits`, strings `'...'` in which `\` escapes the next
//! character, and regexes `/.../flags` in which `\` escapes the next character.
use vstd::prelude::*;
use crate::fat_string::InsensitiveFlag;
use crate::float::{decimal_float, Float};
use crate::val::{negated, Comparator};

verus! {

/// A token, as the parser sees it.
pub enum Token {
    Ident(Vec<char>),
    Bool(bool),
    Int(i64),
    Float(Float),
    Str(Vec<char>),
    Regex(Vec<char>),
    LParen,
    RParen,
    LBracket,
    RBracket,
    Comma,
    Dot,
    AndOp,
    OrOp,
    Not,
    Cmp(Comparator, Option<InsensitiveFlag>),
}

/// The model of a token.
pub enum Tok {
    Ident(Seq<char>),
    Bool(bool),
    Int(i64),
    Float(Float),
    Str(Seq<char>),
    Regex(Seq<char>),
    LParen,
    RParen,
    LBracket,
    RBracket,
    Comma,
    Dot,
    AndOp,
    OrOp,
    Not,
    Cmp(Comparator, Option<InsensitiveFlag>),
}

impl View for Token {
    type V = Tok;

    open spec fn view(&self) -> Tok {
        match self {
            Token::Ident(v) => Tok::Ident(v@),
            Token::Bool(b) => Tok::Bool(*b),
            Token::Int(i) => Tok::Int(*i),
            Token::Float(f) => Tok::Float(*f),
            Token::Str(v) => Tok::Str(v@),
            Token::Regex(v) => Tok::Regex(v@),
            Token::LParen => Tok::LParen,
            Token::RParen => Tok::RParen,
            Token::LBracket => Tok::LBracket,
            Token::RBracket => Tok::RBracket,
            Token::Comma => Tok::Comma,
            Token::Dot => Tok::Dot,
            Token::AndOp => Tok::AndOp,
            Token::OrOp => Tok::OrOp,
            Token::Not => Tok::Not,
            Token::Cmp(c, f) => Tok::Cmp(*c, *f),
        }
    }
}

pub open spec fn toks_view(v: Seq<Token>) -> Seq<Tok> {
    v.map_values(|t: Token| t@)
}

pub open spec fn is_ws(c: char) -> bool {
    c == ' ' || c == '\t' || c == '\n' || c == '\r'
}

pub open spec fn is_alpha(c: char) -> bool {
    ('a' <= c && c <= 'z') || ('A' <= c && c <= 'Z')
}

pub open spec fn is_dec(c: char) -> bool {
    '0' <= c && c <= '9'
}

pub open spec fn is_ident_start(c: char) -> bool {
    is_alpha(c) || c == '_'
}

pub open spec fn is_ident_char(c: char) -> bool {
    is_alpha(c) || is_dec(c) || c == '_' || c == '.'
}

/// Whether `c` is a digit of base `radix` (2, 8, 10 or 16).
pub open spec fn is_radix_digit(c: char, radix: u32) -> bool {
    if radix == 16 {
        is_dec(c) || ('a' <= c && c <= 'f') || ('A' <= c && c <= 'F')
    } else if radix == 8 {
        '0' <= c && c <= '7'
    } else if radix == 2 {
        c == '0' || c == '1'
    } else {
        is_dec(c)
    }
}

pub open spec fn radix_digit_value(c: char) -> int {
    if is_dec(c) {
        c as int - '0' as int
    } else if 'a' <= c && c <= 'f' {
        c as int - 'a' as int + 10
    } else {
        c as int - 'A' as int + 10
    }
}

/// The number written by base-`radix` digits, underscores skipped.
pub open spec fn radix_value(d: Seq<char>, radix: u32) -> int
    decreases d.len(),
{
    if d.len() == 0 {
        0
    } else if d.last() == '_' {
        radix_value(d.drop_last(), radix)
    } else {
        radix_value(d.drop_last(), radix) * radix + radix_digit_value(d.last())
    }
}

/// First position at or after `i` whose character is not an identifier character.
pub open spec fn ident_end(s: Seq<char>, i: int) -> int
    decreases s.len() - i,
{
    if 0 <= i < s.len() && is_ident_char(s[i]) { ident_end(s, i + 1) } else { i }
}

/// First position at or after `i` that is neither a base-`radix` digit nor `_`.
pub open spec fn digits_end(s: Seq<char>, i: int, radix: u32) -> int
    decreases s.len() - i,
{
    if 0 <= i < s.len() && (is_radix_digit(s[i], radix) || s[i] == '_') {
        digits_end(s, i + 1, radix)
    } else {
        i
    }
}

/// First position at or after `i` that is not a decimal digit.
pub open spec fn dec_end(s: Seq<char>, i: int) -> int
    decreases s.len() - i,
{
    if 0 <= i < s.len() && is_dec(s[i]) { dec_end(s, i + 1) } else { i }
}

/// First position at or after `i` that is not an ASCII letter.
pub open spec fn letters_end(s: Seq<char>, i: int) -> int
    decreases s.len() - i,
{
    if 0 <= i < s.len() && is_alpha(s[i]) { letters_end(s, i + 1) } else { i }
}

/// Position of the `close` character that ends a quoted text whose content starts at
/// `i`; a backslash takes the next character with it.
pub open spec fn quoted_end(s: Seq<char>, i: int, close: char) -> Option<int>
    decreases s.len() - i,
{
    if i < 0 || i >= s.len() {
        None
    } else if s[i] == close {
        Some(i)
    } else if s[i] == '\\' {
        if i + 1 < s.len() { quoted_end(s, i + 2, close) } else { None }
    } else {
        quoted_end(s, i + 1, close)
    }
}

/// A string literal's value: its content without backslashes.
pub open spec fn drop_backslashes(s: Seq<char>) -> Seq<char>
    decreases s.len(),
{
    if s.len() == 0 {
        s
    } else if s.last() == '\\' {
        drop_backslashes(s.drop_last())
    } else {
        drop_backslashes(s.drop_last()).push(s.last())
    }
}

/// The token that an operator starting at `i` stands for, with the position after it.
pub open spec fn operator_at(s: Seq<char>, i: int) -> Option<(Tok, int)> {
    let c = s[i];
    let n = if i + 1 < s.len() { s[i + 1] } else { ' ' };
    let n2 = if i + 2 < s.len() { s[i + 2] } else { ' ' };
    if c == '(' {
        Some((Tok::LParen, i + 1))
    } else if c == ')' {
        Some((Tok::RParen, i + 1))
    } else if c == '[' {
        Some((Tok::LBracket, i + 1))
    } else if c == ']' {
        Some((Tok::RBracket, i + 1))
    } else if c == ',' {
        Some((Tok::Comma, i + 1))
    } else if c == '.' {
        Some((Tok::Dot, i + 1))
    } else if c == '&' {
        if n == '&' { Some((Tok::AndOp, i + 2)) } else { None }
    } else if c == '|' {
        if n == '|' { Some((Tok::OrOp, i + 2)) } else { None }
    } else if c == '=' {
        if n == '=' {
            Some((Tok::Cmp(Comparator::Eq, None), i + 2))
        } else if n == '~' {
            Some((Tok::Cmp(Comparator::Match, None), i + 2))
        } else {
            None
        }
    } else if c == '~' {
        if n == '=' { Some((Tok::Cmp(Comparator::Eq, Some(InsensitiveFlag::Case)), i + 2)) } else { None }
    } else if c == '^' {
        if n == '~' && n2 == '=' {
            Some((Tok::Cmp(Comparator::Eq, Some(InsensitiveFlag::CaseAndApostrophe)), i + 3))
        } else if n == '=' {
            Some((Tok::Cmp(Comparator::Eq, Some(InsensitiveFlag::Apostrophe)), i + 2))
        } else {
            None
        }
    } else if c == '!' {
        if n == '=' {
            Some((Tok::Cmp(Comparator::Neq, None), i + 2))
        } else if n == '~' {
            Some((Tok::Cmp(Comparator::Nmatch, None), i + 2))
        } else {
            Some((Tok::Not, i + 1))
        }
    } else if c == '>' {
        if n == '=' { Some((Tok::Cmp(Comparator::Ge, None), i + 2)) } else { Some((Tok::Cmp(Comparator::Gt, None), i + 1)) }
    } else if c == '<' {
        if n == '=' { Some((Tok::Cmp(Comparator::Le, None), i + 2)) } else { Some((Tok::Cmp(Comparator::Lt, None), i + 1)) }
    } else {
        None
    }
}

/// The integer token for digits `s[q..e]` of base `radix`, signed, when it fits an `i64`.
pub open spec fn int_token(s: Seq<char>, q: int, e: int, radix: u32, neg: bool) -> Option<(Tok, int)> {
    let v = radix_value(s.subrange(q, e), radix);
    if v <= i64::MAX { Some((Tok::Int((if neg { -v } else { v }) as i64), e)) } else { None }
}

/// The number token starting at `i` (which holds a sign or a digit).
pub open spec fn number_at(s: Seq<char>, i: int) -> Option<(Tok, int)> {
    let neg = s[i] == '-';
    let p = if s[i] == '-' || s[i] == '+' { i + 1 } else { i };
    if !(p < s.len() && is_dec(s[p])) {
        None
    } else if s[p] == '0' && p + 1 < s.len() && (s[p + 1] == 'x' || s[p + 1] == 'o' || s[p + 1] == 'b' || s[p + 1] == 'd') {
        let radix: u32 = if s[p + 1] == 'x' { 16 } else if s[p + 1] == 'o' { 8 } else if s[p + 1] == 'b' { 2 } else { 10 };
        let q = p + 2;
        if q < s.len() && is_radix_digit(s[q], radix) {
            int_token(s, q, digits_end(s, q, radix), radix, neg)
        } else {
            None
        }
    } else {
        let e = digits_end(s, p, 10);
        let d = dec_end(s, p);
        if d == e && e < s.len() && e + 1 < s.len() && s[e] == '.' && is_dec(s[e + 1]) {
            let f = dec_end(s, e + 1);
            match decimal_float(s.subrange(i, f)) {
                Some(x) => Some((Tok::Float(x), f)),
                None => None,
            }
        } else {
            int_token(s, p, e, 10, neg)
        }
    }
}

/// The token that starts at `i` (a non-space character), with the position after it.
pub open spec fn token_at(s: Seq<char>, i: int) -> Option<(Tok, int)> {
    let c = s[i];
    if is_ident_start(c) {
        let e = ident_end(s, i);
        let w = s.subrange(i, e);
        if w == seq!['t', 'r', 'u', 'e'] {
            Some((Tok::Bool(true), e))
        } else if w == seq!['f', 'a', 'l', 's', 'e'] {
            Some((Tok::Bool(false), e))
        } else {
            Some((Tok::Ident(w), e))
        }
    } else if is_dec(c) || ((c == '-' || c == '+') && i + 1 < s.len() && is_dec(s[i + 1])) {
        number_at(s, i)
    } else if c == '\'' {
        match quoted_end(s, i + 1, '\'') {
            Some(k) => Some((Tok::Str(drop_backslashes(s.subrange(i + 1, k))), k + 1)),
            None => None,
        }
    } else if c == '/' {
        match quoted_end(s, i + 1, '/') {
            Some(k) => {
                let e = letters_end(s, k + 1);
                Some((Tok::Regex(s.subrange(i, e)), e))
            },
            None => None,
        }
    } else {
        operator_at(s, i)
    }
}

/// The tokens of `s` from position `i` on, or `None` when some character cannot start or
/// continue a token.
pub open spec fn lex_from(s: Seq<char>, i: int) -> Option<Seq<Tok>>
    decreases s.len() - i,
{
    if i < 0 || i >= s.len() {
        Some(Seq::empty())
    } else if is_ws(s[i]) {
        lex_from(s, i + 1)
    } else {
        match token_at(s, i) {
            Some((t, j)) => if i < j <= s.len() {
                match lex_from(s, j) {
                    Some(rest) => Some(seq![t] + rest),
                    None => None,
                }
            } else {
                None
            },
            None => None,
        }
    }
}

/// The tokens of a whole condition.
pub open spec fn lex(s: Seq<char>) -> Option<Seq<Tok>> {
    lex_from(s, 0)
}

// ---------------------------------------------------------------------------------------
// The lexer.

fn ident_end_exec(s: &[char], i: usize) -> (e: usize)
    requires
        i <= s@.len(),
    ensures
        e == ident_end(s@, i as int),
        i <= e <= s@.len(),
{
    let mut j = i;
    while j < s.len() && (('a' <= s[j] && s[j] <= 'z') || ('A' <= s[j] && s[j] <= 'Z') || ('0' <= s[j] && s[j] <= '9') || s[j] == '_' || s[j] == '.')
        invariant
            i <= j <= s@.len(),
            ident_end(s@, i as int) == ident_end(s@, j as int),
        decreases s.len() - j,
    {
        j = j + 1;
    }
    j
}

fn radix_digit(c: char, radix: u32) -> (r: bool)
    ensures
        r == is_radix_digit(c, radix),
{
    if radix == 16 {
        ('0' <= c && c <= '9') || ('a' <= c && c <= 'f') || ('A' <= c && c <= 'F')
    } else if radix == 8 {
        '0' <= c && c <= '7'
    } else if radix == 2 {
        c == '0' || c == '1'
    } else {
        '0' <= c && c <= '9'
    }
}

fn digits_end_exec(s: &[char], i: usize, radix: u32) -> (e: usize)
    requires
        i <= s@.len(),
    ensures
        e == digits_end(s@, i as int, radix),
        i <= e <= s@.len(),
        forall|k: int| i <= k < e ==> is_radix_digit(#[trigger] s@[k], radix) || s@[k] == '_',
{
    let mut j = i;
    while j < s.len() && (radix_digit(s[j], radix) || s[j] == '_')
        invariant
            i <= j <= s@.len(),
            digits_end(s@, i as int, radix) == digits_end(s@, j as int, radix),
            forall|k: int| i <= k < j ==> is_radix_digit(#[trigger] s@[k], radix) || s@[k] == '_',
        decreases s.len() - j,
    {
        j = j + 1;
    }
    j
}

fn dec_end_exec(s: &[char], i: usize) -> (e: usize)
    requires
        i <= s@.len(),
    ensures
        e == dec_end(s@, i as int),
        i <= e <= s@.len(),
{
    let mut j = i;
    while j < s.len() && '0' <= s[j] && s[j] <= '9'
        invariant
            i <= j <= s@.len(),
            dec_end(s@, i as int) == dec_end(s@, j as int),
        decreases s.len() - j,
    {
        j = j + 1;
    }
    j
}

fn letters_end_exec(s: &[char], i: usize) -> (e: usize)
    requires
        i <= s@.len(),
    ensures
        e == letters_end(s@, i as int),
        i <= e <= s@.len(),
{
    let mut j = i;
    while j < s.len() && (('a' <= s[j] && s[j] <= 'z') || ('A' <= s[j] && s[j] <= 'Z'))
        invariant
            i <= j <= s@.len(),
            letters_end(s@, i as int) == letters_end(s@, j as int),
        decreases s.len() - j,
    {
        j = j + 1;
    }
    j
}

fn quoted_end_exec(s: &[char], i: usize, close: char) -> (r: Option<usize>)
    requires
        i <= s@.len(),
    ensures
        match quoted_end(s@, i as int, close) {
            Some(k) => r == Some(k as usize) && i <= k < s@.len(),
            None => r is None,
        },
{
    let mut j = i;
    while j < s.len()
        invariant
            i <= j,
            quoted_end(s@, i as int, close) == quoted_end(s@, j as int, close),
        decreases s.len() - j,
    {
        if s[j] == close {
            return Some(j);
        } else if s[j] == '\\' {
            if j + 1 < s.len() {
                j = j + 2;
            } else {
                return None;
            }
        } else {
            j = j + 1;
        }
    }
    None
}

proof fn lemma_radix_value_grows(d: Seq<char>, k: int, radix: u32)
    requires
        0 <= k <= d.len(),
        radix == 2 || radix == 8 || radix == 10 || radix == 16,
        forall|q: int| 0 <= q < d.len() ==> is_radix_digit(#[trigger] d[q], radix) || d[q] == '_',
    ensures
        radix_value(d, radix) >= radix_value(d.take(k), radix) >= 0,
    decreases d.len(),
{
    if d.len() == 0 {
        assert(d.take(k) =~= d);
    } else if k == d.len() {
        assert(d.take(k) =~= d);
        lemma_radix_value_grows(d.drop_last(), 0, radix);
        assert(d.drop_last().take(0) =~= Seq::<char>::empty());
        assert(is_radix_digit(d[d.len() - 1], radix) || d[d.len() - 1] == '_');
    } else {
        lemma_radix_value_grows(d.drop_last(), k, radix);
        assert(d.drop_last().take(k) =~= d.take(k));
        assert(is_radix_digit(d[d.len() - 1], radix) || d[d.len() - 1] == '_');
        let rv = radix_value(d.drop_last(), radix);
        assert(rv * radix >= rv) by (nonlinear_arith)
            requires
                rv >= 0,
                radix >= 1,
        ;
    }
}

fn radix_value_exec(s: &[char], q: usize, e: usize, radix: u32) -> (r: Option<i64>)
    requires
        q <= e <= s@.len(),
        radix == 2 || radix == 8 || radix == 10 || radix == 16,
        forall|k: int| q <= k < e ==> is_radix_digit(#[trigger] s@[k], radix) || s@[k] == '_',
    ensures
        match r {
            Some(v) => v == radix_value(s@.subrange(q as int, e as int), radix),
            None => radix_value(s@.subrange(q as int, e as int), radix) > i64::MAX,
        },
{
    let ghost d = s@.subrange(q as int, e as int);
    let mut acc: u128 = 0;
    let mut j = q;
    proof {
        assert(s@.subrange(q as int, q as int) =~= Seq::<char>::empty());
    }
    while j < e
        invariant
            q <= j <= e <= s@.len(),
            radix == 2 || radix == 8 || radix == 10 || radix == 16,
            d == s@.subrange(q as int, e as int),
            forall|k: int| q <= k < e ==> is_radix_digit(#[trigger] s@[k], radix) || s@[k] == '_',
            acc == radix_value(s@.subrange(q as int, j as int), radix),
            acc <= i64::MAX,
        decreases e - j,
    {
        let c = s[j];
        proof {
            assert(s@.subrange(q as int, j + 1).drop_last() =~= s@.subrange(q as int, j as int));
            assert(s@.subrange(q as int, j + 1).last() == c);
            assert(is_radix_digit(c, radix) || c == '_');
        }
        if c != '_' {
            let dv: u128 = if '0' <= c && c <= '9' {
                (c as u32 - '0' as u32) as u128
            } else if 'a' <= c && c <= 'f' {
                (c as u32 - 'a' as u32 + 10) as u128
            } else {
                (c as u32 - 'A' as u32 + 10) as u128
            };
            proof {
                assert(dv < 16);
                assert(acc * (radix as u128) + dv < 0x7fff_ffff_ffff_ffff_ffff_ffff_ffff_ffff) by (nonlinear_arith)
                    requires
                        acc <= i64::MAX,
                        radix <= 16,
                        dv < 16,
                ;
            }
            acc = acc * (radix as u128) + dv;
            if acc > i64::MAX as u128 {
                proof {
                    assert forall|k: int| 0 <= k < d.len() implies is_radix_digit(#[trigger] d[k], radix) || d[k] == '_' by {
                        assert(d[k] == s@[q + k]);
                    };
                    lemma_radix_value_grows(d, j + 1 - q, radix);
                    assert(d.take(j + 1 - q) =~= s@.subrange(q as int, j + 1));
                }
                return None;
            }
        }
        j = j + 1;
    }
    Some(acc as i64)
}

fn drop_backslashes_exec(s: &[char], from: usize, to: usize) -> (r: Vec<char>)
    requires
        from <= to <= s@.len(),
    ensures
        r@ == drop_backslashes(s@.subrange(from as int, to as int)),
{
    let mut out: Vec<char> = Vec::new();
    let mut j = from;
    proof {
        assert(s@.subrange(from as int, from as int) =~= Seq::<char>::empty());
    }
    while j < to
        invariant
            from <= j <= to <= s@.len(),
            out@ == drop_backslashes(s@.subrange(from as int, j as int)),
        decreases to - j,
    {
        proof {
            assert(s@.subrange(from as int, j + 1).drop_last() =~= s@.subrange(from as int, j as int));
            assert(s@.subrange(from as int, j + 1).last() == s@[j as int]);
        }
        if s[j] != '\\' {
            out.push(s[j]);
        }
        j = j + 1;
    }
    out
}

fn copy_range(s: &[char], from: usize, to: usize) -> (r: Vec<char>)
    requires
        from <= to <= s@.len(),
    ensures
        r@ == s@.subrange(from as int, to as int),
{
    let mut out: Vec<char> = Vec::new();
    let mut j = from;
    while j < to
        invariant
            from <= j <= to <= s@.len(),
            out@ == s@.subrange(from as int, j as int),
        decreases to - j,
    {
        out.push(s[j]);
        j = j + 1;
        proof {
            assert(out@ =~= s@.subrange(from as int, j as int));
        }
    }
    out
}

fn tok(t: Token, e: usize) -> (r: Option<(Token, usize)>)
    ensures
        r == Some((t, e)),
{
    Some((t, e))
}

fn operator_exec(s: &[char], i: usize) -> (r: Option<(Token, usize)>)
    requires
        i < s@.len(),
    ensures
        match operator_at(s@, i as int) {
            Some((t, j)) => r is Some && r.unwrap().0@ == t && r.unwrap().1 == j,
            None => r is None,
        },
{
    let c = s[i];
    let n = if i + 1 < s.len() { s[i + 1] } else { ' ' };
    let n2 = if s.len() - i > 2 { s[i + 2] } else { ' ' };
    if c == '(' {
        tok(Token::LParen, i + 1)
    } else if c == ')' {
        tok(Token::RParen, i + 1)
    } else if c == '[' {
        tok(Token::LBracket, i + 1)
    } else if c == ']' {
        tok(Token::RBracket, i + 1)
    } else if c == ',' {
        tok(Token::Comma, i + 1)
    } else if c == '.' {
        tok(Token::Dot, i + 1)
    } else if c == '&' {
        if n == '&' { tok(Token::AndOp, i + 2) } else { None }
    } else if c == '|' {
        if n == '|' { tok(Token::OrOp, i + 2) } else { None }
    } else if c == '=' {
        if n == '=' {
            tok(Token::Cmp(Comparator::Eq, None), i + 2)
        } else if n == '~' {
            tok(Token::Cmp(Comparator::Match, None), i + 2)
        } else {
            None
        }
    } else if c == '~' {
        if n == '=' { tok(Token::Cmp(Comparator::Eq, Some(InsensitiveFlag::Case)), i + 2) } else { None }
    } else if c == '^' {
        if n == '~' && n2 == '=' {
            tok(Token::Cmp(Comparator::Eq, Some(InsensitiveFlag::CaseAndApostrophe)), i + 3)
        } else if n == '=' {
            tok(Token::Cmp(Comparator::Eq, Some(InsensitiveFlag::Apostrophe)), i + 2)
        } else {
            None
        }
    } else if c == '!' {
        if n == '=' {
            tok(Token::Cmp(Comparator::Neq, None), i + 2)
        } else if n == '~' {
            tok(Token::Cmp(Comparator::Nmatch, None), i + 2)
        } else {
            tok(Token::Not, i + 1)
        }
    } else if c == '>' {
        if n == '=' { tok(Token::Cmp(Comparator::Ge, None), i + 2) } else { tok(Token::Cmp(Comparator::Gt, None), i + 1) }
    } else if c == '<' {
        if n == '=' { tok(Token::Cmp(Comparator::Le, None), i + 2) } else { tok(Token::Cmp(Comparator::Lt, None), i + 1) }
    } else {
        None
    }
}

fn int_token_exec(s: &[char], q: usize, e: usize, radix: u32, neg: bool) -> (r: Option<(Token, usize)>)
    requires
        q <= e <= s@.len(),
        radix == 2 || radix == 8 || radix == 10 || radix == 16,
        forall|k: int| q <= k < e ==> is_radix_digit(#[trigger] s@[k], radix) || s@[k] == '_',
    ensures
        match int_token(s@, q as int, e as int, radix, neg) {
            Some((t, j)) => r is Some && r.unwrap().0@ == t && r.unwrap().1 == j,
            None => r is None,
        },
{
    match radix_value_exec(s, q, e, radix) {
        Some(v) => {
            proof {
                lemma_radix_value_grows(s@.subrange(q as int, e as int), 0, radix);
            }
            let x: i64 = if neg { -v } else { v };
            tok(Token::Int(x), e)
        },
        None => None,
    }
}

fn number_exec(s: &[char], i: usize) -> (r: Option<(Token, usize)>)
    requires
        i < s@.len(),
    ensures
        match number_at(s@, i as int) {
            Some((t, j)) => r is Some && r.unwrap().0@ == t && r.unwrap().1 == j,
            None => r is None,
        },
{
    let neg = s[i] == '-';
    let p = if s[i] == '-' || s[i] == '+' { i + 1 } else { i };
    if !(p < s.len() && '0' <= s[p] && s[p] <= '9') {
        return None;
    }
    if s[p] == '0' && p + 1 < s.len() && (s[p + 1] == 'x' || s[p + 1] == 'o' || s[p + 1] == 'b' || s[p + 1] == 'd') {
        let radix: u32 = if s[p + 1] == 'x' { 16 } else if s[p + 1] == 'o' { 8 } else if s[p + 1] == 'b' { 2 } else { 10 };
        let q = p + 2;
        if q < s.len() && radix_digit(s[q], radix) {
            let e = digits_end_exec(s, q, radix);
            int_token_exec(s, q, e, radix, neg)
        } else {
            None
        }
    } else {
        let e = digits_end_exec(s, p, 10);
        let d = dec_end_exec(s, p);
        if d == e && e < s.len() && e + 1 < s.len() && s[e] == '.' && '0' <= s[e + 1] && s[e + 1] <= '9' {
            let f = dec_end_exec(s, e + 1);
            let text = copy_range(s, i, f);
            match Float::from_decimal_chars(text.as_slice()) {
                Some(x) => tok(Token::Float(x), f),
                None => None,
            }
        } else {
            int_token_exec(s, p, e, 10, neg)
        }
    }
}

fn token_exec(s: &[char], i: usize) -> (r: Option<(Token, usize)>)
    requires
        i < s@.len(),
    ensures
        match token_at(s@, i as int) {
            Some((t, j)) => r is Some && r.unwrap().0@ == t && r.unwrap().1 == j,
            None => r is None,
        },
{
    let c = s[i];
    if ('a' <= c && c <= 'z') || ('A' <= c && c <= 'Z') || c == '_' {
        let e = ident_end_exec(s, i);
        let w = copy_range(s, i, e);
        proof {
            assert(ident_end(s@, i as int) == ident_end(s@, i + 1));
        }
        if w.len() == 4 && w[0] == 't' && w[1] == 'r' && w[2] == 'u' && w[3] == 'e' {
            proof {
                assert(w@ =~= seq!['t', 'r', 'u', 'e']);
            }
            tok(Token::Bool(true), e)
        } else if w.len() == 5 && w[0] == 'f' && w[1] == 'a' && w[2] == 'l' && w[3] == 's' && w[4] == 'e' {
            proof {
                assert(w@ =~= seq!['f', 'a', 'l', 's', 'e']);
                assert(w@ != seq!['t', 'r', 'u', 'e']);
            }
            tok(Token::Bool(false), e)
        } else {
            proof {
                if w@ == seq!['t', 'r', 'u', 'e'] {
                    assert(w@.len() == 4 && w@[0] == 't' && w@[1] == 'r' && w@[2] == 'u' && w@[3] == 'e');
                }
                if w@ == seq!['f', 'a', 'l', 's', 'e'] {
                    assert(w@.len() == 5 && w@[0] == 'f');
                }
            }
            tok(Token::Ident(w), e)
        }
    } else if ('0' <= c && c <= '9') || ((c == '-' || c == '+') && i + 1 < s.len() && '0' <= s[i + 1] && s[i + 1] <= '9') {
        number_exec(s, i)
    } else if c == '\'' {
        match quoted_end_exec(s, i + 1, '\'') {
            Some(k) => {
                let v = drop_backslashes_exec(s, i + 1, k);
                tok(Token::Str(v), k + 1)
            },
            None => None,
        }
    } else if c == '/' {
        match quoted_end_exec(s, i + 1, '/') {
            Some(k) => {
                let e = letters_end_exec(s, k + 1);
                let v = copy_range(s, i, e);
                tok(Token::Regex(v), e)
            },
            None => None,
        }
    } else {
        operator_exec(s, i)
    }
}

pub open spec fn with_prefix(p: Seq<Tok>, r: Option<Seq<Tok>>) -> Option<Seq<Tok>> {
    match r {
        Some(rest) => Some(p + rest),
        None => None,
    }
}

/// Splits the characters of a condition into tokens; `None` when some character can
/// neither start nor continue a token.
pub fn lex_chars(s: &[char]) -> (r: Option<Vec<Token>>)
    ensures
        match lex(s@) {
            Some(ts) => r is Some && toks_view(r->0@) == ts,
            None => r is None,
        },
{
    let mut out: Vec<Token> = Vec::new();
    let mut i: usize = 0;
    proof {
        assert(toks_view(out@) =~= Seq::<Tok>::empty());
        assert(lex_from(s@, 0) == with_prefix(toks_view(out@), lex_from(s@, 0))) by {
            match lex_from(s@, 0) {
                Some(r) => { assert(toks_view(out@) + r =~= r); },
                None => {},
            }
        };
    }
    while i < s.len()
        invariant
            i <= s@.len(),
            lex_from(s@, 0) == with_prefix(toks_view(out@), lex_from(s@, i as int)),
        decreases s.len() - i,
    {
        let c = s[i];
        if c == ' ' || c == '\t' || c == '\n' || c == '\r' {
            i = i + 1;
        } else {
            match token_exec(s, i) {
                Some((t, j)) => {
                    if !(i < j && j <= s.len()) {
                        return None;
                    }
                    let ghost before = toks_view(out@);
                    let ghost tv = t@;
                    out.push(t);
                    proof {
                        assert(toks_view(out@) =~= before.push(tv));
                        match lex_from(s@, j as int) {
                            Some(rest) => {
                                assert(before + (seq![tv] + rest) =~= toks_view(out@) + rest);
                            },
                            None => {},
                        }
                    }
                    i = j;
                },
                None => {
                    return None;
                },
            }
        }
    }
    proof {
        assert(toks_view(out@) + Seq::<Tok>::empty() =~= toks_view(out@));
    }
    Some(out)
}

/// `!=` and `!~` read as the comparators that hold exactly when `==` and `=~` (the same
/// text with `=` in place of `!`) do not.
pub proof fn law_negated_operators(s: Seq<char>, i: int)
    requires
        0 <= i,
        i + 1 < s.len(),
        s[i] == '!',
        s[i + 1] == '=' || s[i + 1] == '~',
    ensures
        token_at(s.update(i, '='), i) matches Some((Tok::Cmp(c, None), j)) && j == i + 2
            && token_at(s, i) == Some((Tok::Cmp(negated(c), None), i + 2)),
{
    let u = s.update(i, '=');
    assert(u[i] == '=' && u[i + 1] == s[i + 1]);
    assert(!is_ident_start('!') && !is_dec('!') && !is_ident_start('=') && !is_dec('='));
}

/// `!~` reads as the comparator for "does not match".
pub proof fn law_not_match_operator(s: Seq<char>, i: int)
    requires
        0 <= i,
        i + 1 < s.len(),
        s[i] == '!',
        s[i + 1] == '~',
    ensures
        token_at(s, i) == Some((Tok::Cmp(Comparator::Nmatch, None), i + 2)),
{
    assert(!is_ident_start('!') && !is_dec('!'));
}

} // verus!
