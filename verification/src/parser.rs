//! The condition language: a recursive-descent parser over tokens.
//!
//! ```text
//! expression  := logical_and ("||" logical_and)*
//! logical_and := comparison ("&&" comparison)*
//! comparison  := unary (comparator unary)?
//! unary       := primary ( "(" arguments? ")" | "[" integer "]" | "." identifier "(" arguments? ")" )*
//! arguments   := expression ("," expression)*
//! primary     := literal | "[" elements? "]" | identifier | "!"? "(" expression ")"
//! elements    := element ("," element)*
//! ```
//! A comparison without a comparator must be boolean (a boolean literal, a field, a
//! parenthesised condition or a call of a function that returns a boolean); inside
//! function arguments that check is left out. A regex may only stand right of `=~`/`!~`.
//! Calls and indexing apply to identifiers only; `a.b.m(..)` calls the method `m` on the
//! field `a.b`, and `.m(..)` after any value calls a method on it. Array elements are all
//! strings or all integers.
use vstd::prelude::*;
use crate::ast::{
    clone_val, containers_view, lemma_containers_push, lemma_containers_view, vals_view, FnCall,
    MethodCall, Operand, OperandContainer, SOp, SVal, Val,
};
use crate::fat_string::{FatString, InsensitiveFlag};
use crate::functions::{fn_ret_type, return_type};
use crate::methods::method_returns_bool;
use crate::lexer::{lex, lex_chars, toks_view, Tok, Token};
use crate::pattern::{regex_from_literal, RadeRegex};
use crate::text::{chars_of, string_from_chars};
use crate::evaluate::fail_text;
use crate::val::{
 fat_strings_view, Bool, Comparator, Field, Int, IntList, RadeResult, Str, StrList,
    ValType,
};

verus! {

/// A step of the parser moved forward from `i` to `j` and stayed within the tokens.
pub open spec fn advances(ts: Seq<Tok>, i: int, j: int) -> bool {
    i < j <= ts.len()
}

/// Whether a value may stand alone as a condition.
pub open spec fn is_boolean_val(v: SVal) -> bool {
    match v {
        SVal::Bool(_) => true,
        SVal::Field(_) => true,
        SVal::Expression(_) => true,
        SVal::FnCall(name, _) => fn_ret_type(name) == Some(ValType::Bool),
        SVal::MethodCall(_, m, _) => method_returns_bool(m) == Some(true),
        _ => false,
    }
}

/// The position of the last `.` in `n` before `i`, or -1.
pub open spec fn last_dot(n: Seq<char>, i: int) -> int
    decreases i,
{
    if i <= 0 {
        -1
    } else if n[i - 1] == '.' {
        i - 1
    } else {
        last_dot(n, i - 1)
    }
}

/// A call written after an identifier: `a.b.m(args)` calls the method `m` on the field
/// `a.b`; a name without an inner `.` calls the registered function of that name.
pub open spec fn call_of(n: Seq<char>, args: Seq<SVal>) -> SVal {
    let k = last_dot(n, n.len() as int);
    if 0 < k && k + 1 < n.len() {
        SVal::MethodCall(Box::new(SVal::Field(n.take(k))), n.skip(k + 1), args)
    } else {
        SVal::FnCall(n, args)
    }
}

/// A list of alternatives: the single one itself, or their disjunction.
pub open spec fn junction_or(items: Seq<SOp>) -> SOp {
    if items.len() == 1 { items[0] } else { SOp::Or(items) }
}

/// A list of conjuncts: the single one itself, or their conjunction.
pub open spec fn junction_and(items: Seq<SOp>) -> SOp {
    if items.len() == 1 { items[0] } else { SOp::And(items) }
}

/// The condition that `left comparator right` stands for; a regex on the right needs a
/// match comparator.
pub open spec fn make_comparison(left: SVal, right: SVal, c: Comparator, f: Option<InsensitiveFlag>) -> Option<SOp> {
    match right {
        SVal::Regex(r) => if c == Comparator::Match || c == Comparator::Nmatch {
            Some(SOp::Match(left, r, c))
        } else {
            None
        },
        _ => Some(SOp::Cmp(left, right, c, f)),
    }
}

/// A function argument: a plain value stays a value, any other condition becomes an
/// expression value.
pub open spec fn op_to_val(o: SOp) -> SVal {
    match o {
        SOp::Val(v) => v,
        _ => SVal::Expression(Box::new(o)),
    }
}

pub open spec fn p_expr(ts: Seq<Tok>, i: int, v: bool) -> Option<(SOp, int)>
    decreases ts.len() - i, 9int,
{
    match p_and(ts, i, v) {
        Some((first, j)) => if !advances(ts, i, j) {
            None
        } else {
            match p_or_rest(ts, j, v, seq![first]) {
                Some((items, k)) => Some((junction_or(items), k)),
                None => None,
            }
        },
        None => None,
    }
}

pub open spec fn p_or_rest(ts: Seq<Tok>, j: int, v: bool, acc: Seq<SOp>) -> Option<(Seq<SOp>, int)>
    decreases ts.len() - j, 8int,
{
    if 0 <= j < ts.len() && ts[j] is OrOp {
        match p_and(ts, j + 1, v) {
            Some((x, k)) => if !advances(ts, j, k) { None } else { p_or_rest(ts, k, v, acc.push(x)) },
            None => None,
        }
    } else {
        Some((acc, j))
    }
}

pub open spec fn p_and(ts: Seq<Tok>, i: int, v: bool) -> Option<(SOp, int)>
    decreases ts.len() - i, 7int,
{
    match p_comparison(ts, i, v) {
        Some((first, j)) => if !advances(ts, i, j) {
            None
        } else {
            match p_and_rest(ts, j, v, seq![first]) {
                Some((items, k)) => Some((junction_and(items), k)),
                None => None,
            }
        },
        None => None,
    }
}

pub open spec fn p_and_rest(ts: Seq<Tok>, j: int, v: bool, acc: Seq<SOp>) -> Option<(Seq<SOp>, int)>
    decreases ts.len() - j, 6int,
{
    if 0 <= j < ts.len() && ts[j] is AndOp {
        match p_comparison(ts, j + 1, v) {
            Some((x, k)) => if !advances(ts, j, k) { None } else { p_and_rest(ts, k, v, acc.push(x)) },
            None => None,
        }
    } else {
        Some((acc, j))
    }
}

pub open spec fn p_comparison(ts: Seq<Tok>, i: int, v: bool) -> Option<(SOp, int)>
    decreases ts.len() - i, 5int,
{
    match p_unary(ts, i) {
        Some((left, j)) => if !advances(ts, i, j) {
            None
        } else if 0 <= j < ts.len() && ts[j] is Cmp {
            match p_unary(ts, j + 1) {
                Some((right, k)) => match make_comparison(left, right, ts[j]->Cmp_0, ts[j]->Cmp_1) {
                    Some(o) => Some((o, k)),
                    None => None,
                },
                None => None,
            }
        } else if v && !is_boolean_val(left) {
            None
        } else {
            Some((SOp::Val(left), j))
        },
        None => None,
    }
}

pub open spec fn p_unary(ts: Seq<Tok>, i: int) -> Option<(SVal, int)>
    decreases ts.len() - i, 4int,
{
    match p_primary(ts, i) {
        Some((prim, j)) => if !advances(ts, i, j) { None } else { p_postfix(ts, j, prim) },
        None => None,
    }
}

pub open spec fn p_postfix(ts: Seq<Tok>, j: int, prim: SVal) -> Option<(SVal, int)>
    decreases ts.len() - j, 3int,
{
    if 0 <= j < ts.len() && ts[j] is LParen {
        match p_args(ts, j + 1) {
            Some((args, k)) => if !advances(ts, j, k) {
                None
            } else {
                match prim {
                    SVal::Field(n) => p_postfix(ts, k, call_of(n, args)),
                    _ => None,
                }
            },
            None => None,
        }
    } else if 0 <= j < ts.len() && ts[j] is Dot {
        if j + 2 < ts.len() && ts[j + 1] is Ident && ts[j + 2] is LParen {
            match p_args(ts, j + 3) {
                Some((args, k)) => if !advances(ts, j, k) {
                    None
                } else {
                    p_postfix(ts, k, SVal::MethodCall(Box::new(prim), ts[j + 1]->Ident_0, args))
                },
                None => None,
            }
        } else {
            None
        }
    } else if 0 <= j < ts.len() && ts[j] is LBracket {
        if j + 2 < ts.len() && ts[j + 1] is Int && ts[j + 2] is RBracket {
            match prim {
                SVal::Field(n) => p_postfix(ts, j + 3, SVal::FieldIndex(n, ts[j + 1]->Int_0)),
                _ => None,
            }
        } else {
            None
        }
    } else {
        Some((prim, j))
    }
}

/// The arguments of a call, from just after its `(` to just after its `)`.
pub open spec fn p_args(ts: Seq<Tok>, i: int) -> Option<(Seq<SVal>, int)>
    decreases ts.len() - i, 11int,
{
    if 0 <= i < ts.len() && ts[i] is RParen {
        Some((Seq::empty(), i + 1))
    } else {
        match p_expr(ts, i, false) {
            Some((o, j)) => if !advances(ts, i, j) { None } else { p_args_rest(ts, j, seq![op_to_val(o)]) },
            None => None,
        }
    }
}

pub open spec fn p_args_rest(ts: Seq<Tok>, j: int, acc: Seq<SVal>) -> Option<(Seq<SVal>, int)>
    decreases ts.len() - j, 10int,
{
    if 0 <= j < ts.len() && ts[j] is Comma {
        match p_expr(ts, j + 1, false) {
            Some((o, k)) => if !advances(ts, j, k) { None } else { p_args_rest(ts, k, acc.push(op_to_val(o))) },
            None => None,
        }
    } else if 0 <= j < ts.len() && ts[j] is RParen {
        Some((acc, j + 1))
    } else {
        None
    }
}

pub open spec fn p_primary(ts: Seq<Tok>, i: int) -> Option<(SVal, int)>
    decreases ts.len() - i, 2int,
{
    if i < 0 || i >= ts.len() {
        None
    } else {
        match ts[i] {
            Tok::Bool(b) => Some((SVal::Bool(b), i + 1)),
            Tok::Int(x) => Some((SVal::Int(x), i + 1)),
            Tok::Float(x) => Some((SVal::Float(x), i + 1)),
            Tok::Str(s) => Some((SVal::Str(s), i + 1)),
            Tok::Regex(text) => match regex_from_literal(text) {
                Some(r) => Some((SVal::Regex(r), i + 1)),
                None => None,
            },
            Tok::Ident(n) => Some((SVal::Field(n), i + 1)),
            Tok::LBracket => if i + 1 < ts.len() && ts[i + 1] is RBracket {
                Some((SVal::StrList(Seq::empty()), i + 2))
            } else {
                p_elems(ts, i + 1, Seq::empty(), Seq::empty(), None)
            },
            Tok::Not => if i + 1 < ts.len() && ts[i + 1] is LParen {
                match p_expr(ts, i + 2, true) {
                    Some((o, j)) => if i + 2 < j < ts.len() && ts[j] is RParen {
                        Some((SVal::Expression(Box::new(SOp::Negate(Box::new(o)))), j + 1))
                    } else {
                        None
                    },
                    None => None,
                }
            } else {
                None
            },
            Tok::LParen => match p_expr(ts, i + 1, true) {
                Some((o, j)) => if i + 1 < j < ts.len() && ts[j] is RParen {
                    Some((SVal::Expression(Box::new(o)), j + 1))
                } else {
                    None
                },
                None => None,
            },
            _ => None,
        }
    }
}

/// The value of a finished array literal: integers when its elements were integers,
/// strings otherwise.
pub open spec fn array_value(strs: Seq<Seq<char>>, ints: Seq<i64>, kind: Option<bool>) -> SVal {
    if kind == Some(false) { SVal::IntList(ints) } else { SVal::StrList(strs) }
}

/// Array elements from `i`; `kind` is `Some(true)` once a string was seen, `Some(false)`
/// once an integer was seen.
pub open spec fn p_elems(ts: Seq<Tok>, i: int, strs: Seq<Seq<char>>, ints: Seq<i64>, kind: Option<bool>) -> Option<(SVal, int)>
    decreases ts.len() - i, 1int,
{
    if 0 <= i < ts.len() {
        match ts[i] {
            Tok::Str(s) => if kind == Some(false) {
                None
            } else {
                p_after_elem(ts, i + 1, strs.push(s), ints, Some(true))
            },
            Tok::Int(x) => if kind == Some(true) {
                None
            } else {
                p_after_elem(ts, i + 1, strs, ints.push(x), Some(false))
            },
            _ => None,
        }
    } else {
        None
    }
}

pub open spec fn p_after_elem(ts: Seq<Tok>, j: int, strs: Seq<Seq<char>>, ints: Seq<i64>, kind: Option<bool>) -> Option<(SVal, int)>
    decreases ts.len() - j, 0int,
{
    if 0 <= j < ts.len() && ts[j] is Comma {
        p_elems(ts, j + 1, strs, ints, kind)
    } else if 0 <= j < ts.len() && ts[j] is RBracket {
        Some((array_value(strs, ints, kind), j + 1))
    } else {
        None
    }
}

/// The condition that a text stands for, `None` when the text is not a condition.
pub open spec fn parse_spec(s: Seq<char>) -> Option<SOp> {
    match lex(s) {
        Some(ts) => match p_expr(ts, 0, true) {
            Some((o, j)) => if j == ts.len() { Some(o) } else { None },
            None => None,
        },
        None => None,
    }
}

/// The text of a step that does not move forward.
pub open spec fn no_advance_text() -> Seq<char> {
    "The condition does not advance"@
}

// The error texts of the parser: for each parsing function, the text it reports when its
// model above has no result (the first error met, in parsing order).

pub open spec fn e_expr(ts: Seq<Tok>, i: int, v: bool) -> Seq<char>
    decreases ts.len() - i, 9int,
{
    match p_and(ts, i, v) {
        Some((first, j)) => if !advances(ts, i, j) {
            no_advance_text()
        } else {
            e_or_rest(ts, j, v, seq![first])
        },
        None => e_and(ts, i, v),
    }
}

pub open spec fn e_or_rest(ts: Seq<Tok>, j: int, v: bool, acc: Seq<SOp>) -> Seq<char>
    decreases ts.len() - j, 8int,
{
    if 0 <= j < ts.len() && ts[j] is OrOp {
        match p_and(ts, j + 1, v) {
            Some((x, k)) => if !advances(ts, j, k) { no_advance_text() } else { e_or_rest(ts, k, v, acc.push(x)) },
            None => e_and(ts, j + 1, v),
        }
    } else {
        Seq::empty()
    }
}

pub open spec fn e_and(ts: Seq<Tok>, i: int, v: bool) -> Seq<char>
    decreases ts.len() - i, 7int,
{
    match p_comparison(ts, i, v) {
        Some((first, j)) => if !advances(ts, i, j) {
            no_advance_text()
        } else {
            e_and_rest(ts, j, v, seq![first])
        },
        None => e_comparison(ts, i, v),
    }
}

pub open spec fn e_and_rest(ts: Seq<Tok>, j: int, v: bool, acc: Seq<SOp>) -> Seq<char>
    decreases ts.len() - j, 6int,
{
    if 0 <= j < ts.len() && ts[j] is AndOp {
        match p_comparison(ts, j + 1, v) {
            Some((x, k)) => if !advances(ts, j, k) { no_advance_text() } else { e_and_rest(ts, k, v, acc.push(x)) },
            None => e_comparison(ts, j + 1, v),
        }
    } else {
        Seq::empty()
    }
}

pub open spec fn e_comparison(ts: Seq<Tok>, i: int, v: bool) -> Seq<char>
    decreases ts.len() - i, 5int,
{
    match p_unary(ts, i) {
        Some((left, j)) => if !advances(ts, i, j) {
            no_advance_text()
        } else if 0 <= j < ts.len() && ts[j] is Cmp {
            match p_unary(ts, j + 1) {
                Some(_) => "Regex can only be used with == operator"@,
                None => e_unary(ts, j + 1),
            }
        } else {
            crate::evaluate::not_boolean_text(left)
        },
        None => e_unary(ts, i),
    }
}

pub open spec fn e_unary(ts: Seq<Tok>, i: int) -> Seq<char>
    decreases ts.len() - i, 4int,
{
    match p_primary(ts, i) {
        Some((prim, j)) => if !advances(ts, i, j) { no_advance_text() } else { e_postfix(ts, j, prim) },
        None => e_primary(ts, i),
    }
}

pub open spec fn e_postfix(ts: Seq<Tok>, j: int, prim: SVal) -> Seq<char>
    decreases ts.len() - j, 3int,
{
    if 0 <= j < ts.len() && ts[j] is LParen {
        match p_args(ts, j + 1) {
            Some((args, k)) => if !advances(ts, j, k) {
                no_advance_text()
            } else {
                match prim {
                    SVal::Field(n) => e_postfix(ts, k, call_of(n, args)),
                    _ => "Function call is only supported on identifiers"@,
                }
            },
            None => e_args(ts, j + 1),
        }
    } else if 0 <= j < ts.len() && ts[j] is Dot {
        if j + 2 < ts.len() && ts[j + 1] is Ident && ts[j + 2] is LParen {
            match p_args(ts, j + 3) {
                Some((args, k)) => if !advances(ts, j, k) {
                    no_advance_text()
                } else {
                    e_postfix(ts, k, SVal::MethodCall(Box::new(prim), ts[j + 1]->Ident_0, args))
                },
                None => e_args(ts, j + 3),
            }
        } else {
            "A method call needs a name and arguments"@
        }
    } else if 0 <= j < ts.len() && ts[j] is LBracket {
        if j + 2 < ts.len() && ts[j + 1] is Int && ts[j + 2] is RBracket {
            match prim {
                SVal::Field(n) => e_postfix(ts, j + 3, SVal::FieldIndex(n, ts[j + 1]->Int_0)),
                _ => "Element access is only supported on fields"@,
            }
        } else {
            "Element access takes an integer literal"@
        }
    } else {
        Seq::empty()
    }
}

pub open spec fn e_args(ts: Seq<Tok>, i: int) -> Seq<char>
    decreases ts.len() - i, 11int,
{
    if 0 <= i < ts.len() && ts[i] is RParen {
        Seq::empty()
    } else {
        match p_expr(ts, i, false) {
            Some((o, j)) => if !advances(ts, i, j) {
                no_advance_text()
            } else {
                e_args_rest(ts, j, seq![op_to_val(o)])
            },
            None => e_expr(ts, i, false),
        }
    }
}

pub open spec fn e_args_rest(ts: Seq<Tok>, j: int, acc: Seq<SVal>) -> Seq<char>
    decreases ts.len() - j, 10int,
{
    if 0 <= j < ts.len() && ts[j] is Comma {
        match p_expr(ts, j + 1, false) {
            Some((o, k)) => if !advances(ts, j, k) {
                no_advance_text()
            } else {
                e_args_rest(ts, k, acc.push(op_to_val(o)))
            },
            None => e_expr(ts, j + 1, false),
        }
    } else if 0 <= j < ts.len() && ts[j] is RParen {
        Seq::empty()
    } else {
        "Function arguments must be separated by commas and closed by a parenthesis"@
    }
}

pub open spec fn e_primary(ts: Seq<Tok>, i: int) -> Seq<char>
    decreases ts.len() - i, 2int,
{
    if i < 0 || i >= ts.len() {
        "Unexpected end of the condition"@
    } else {
        match ts[i] {
            Tok::Regex(text) => crate::pattern::regex_literal_error(text),
            Tok::LBracket => if i + 1 < ts.len() && ts[i + 1] is RBracket {
                Seq::empty()
            } else {
                e_elems(ts, i + 1, Seq::empty(), Seq::empty(), None)
            },
            Tok::Not => if i + 1 < ts.len() && ts[i + 1] is LParen {
                match p_expr(ts, i + 2, true) {
                    Some(_) => "Expected a closing parenthesis"@,
                    None => e_expr(ts, i + 2, true),
                }
            } else {
                "Negation applies to a parenthesised condition"@
            },
            Tok::LParen => match p_expr(ts, i + 1, true) {
                Some(_) => "Expected a closing parenthesis"@,
                None => e_expr(ts, i + 1, true),
            },
            Tok::Bool(_) => Seq::empty(),
            Tok::Int(_) => Seq::empty(),
            Tok::Float(_) => Seq::empty(),
            Tok::Str(_) => Seq::empty(),
            Tok::Ident(_) => Seq::empty(),
            _ => "Unexpected token"@,
        }
    }
}

pub open spec fn e_elems(ts: Seq<Tok>, i: int, strs: Seq<Seq<char>>, ints: Seq<i64>, kind: Option<bool>) -> Seq<char>
    decreases ts.len() - i, 1int,
{
    if 0 <= i < ts.len() {
        match ts[i] {
            Tok::Str(x) => if kind == Some(false) {
                "Mixed array types not supported"@
            } else {
                e_after_elem(ts, i + 1, strs.push(x), ints, Some(true))
            },
            Tok::Int(x) => if kind == Some(true) {
                "Mixed array types not supported"@
            } else {
                e_after_elem(ts, i + 1, strs, ints.push(x), Some(false))
            },
            _ => "Array elements must be string or integer literals"@,
        }
    } else {
        "Unclosed array literal"@
    }
}

pub open spec fn e_after_elem(ts: Seq<Tok>, j: int, strs: Seq<Seq<char>>, ints: Seq<i64>, kind: Option<bool>) -> Seq<char>
    decreases ts.len() - j, 0int,
{
    if 0 <= j < ts.len() && ts[j] is Comma {
        e_elems(ts, j + 1, strs, ints, kind)
    } else if 0 <= j < ts.len() && ts[j] is RBracket {
        Seq::empty()
    } else {
        "Array elements must be separated by commas and closed by a bracket"@
    }
}

/// The error text for a text that is not a condition: the lexer's, the first parse error
/// met, or the complaint about input left over.
pub open spec fn parse_error_text(s: Seq<char>) -> Seq<char> {
    match lex(s) {
        Some(ts) => match p_expr(ts, 0, true) {
            Some(_) => "Unexpected input after the condition"@,
            None => e_expr(ts, 0, true),
        },
        None => "The condition holds a character that starts no token"@,
    }
}

/// The parse of a condition that `r` reports agrees with the model `s`.
pub open spec fn op_outcome(r: RadeResult<(OperandContainer, usize)>, s: Option<(SOp, int)>) -> bool {
    match s {
        Some((o, j)) => r is Ok && r->Ok_0.0@ == o && r->Ok_0.1 == j,
        None => r is Err,
    }
}

/// The parse of a list of conditions that `r` reports agrees with the model `s`.
pub open spec fn ops_outcome(
    r: RadeResult<(Vec<OperandContainer>, usize)>,
    s: Option<(Seq<SOp>, int)>,
) -> bool {
    match s {
        Some((os, j)) => r is Ok && containers_view(r->Ok_0.0@) == os && r->Ok_0.1 == j,
        None => r is Err,
    }
}

/// The parse of a value that `r` reports agrees with the model `s`.
pub open spec fn val_outcome(r: RadeResult<(Val, usize)>, s: Option<(SVal, int)>) -> bool {
    match s {
        Some((v, j)) => r is Ok && r->Ok_0.0@ == v && r->Ok_0.1 == j,
        None => r is Err,
    }
}

/// The parse of a list of values that `r` reports agrees with the model `s`.
pub open spec fn vals_outcome(r: RadeResult<(Vec<Val>, usize)>, s: Option<(Seq<SVal>, int)>) -> bool {
    match s {
        Some((vs, j)) => r is Ok && vals_view(r->Ok_0.0@) == vs && r->Ok_0.1 == j,
        None => r is Err,
    }
}

proof fn lemma_toks_view(ts: Seq<Token>)
    ensures
        toks_view(ts).len() == ts.len(),
        forall|i: int| 0 <= i < ts.len() ==> #[trigger] toks_view(ts)[i] == ts[i]@,
{
}

proof fn lemma_vals_push(s: Seq<Val>, x: Val)
    ensures
        vals_view(s.push(x)) == vals_view(s).push(x@),
{
    assert(s.push(x).drop_last() =~= s);
}

/// A list of alternatives as one condition.
fn or_of(mut items: Vec<OperandContainer>) -> (r: OperandContainer)
    requires
        items@.len() >= 1,
    ensures
        r@ == junction_or(containers_view(items@)),
{
    proof {
        lemma_containers_view(items@);
    }
    if items.len() == 1 {
        let r = items.pop();
        r.unwrap()
    } else {
        OperandContainer::from_op(Operand::Or(items))
    }
}

/// A list of conjuncts as one condition.
fn and_of(mut items: Vec<OperandContainer>) -> (r: OperandContainer)
    requires
        items@.len() >= 1,
    ensures
        r@ == junction_and(containers_view(items@)),
{
    proof {
        lemma_containers_view(items@);
    }
    if items.len() == 1 {
        let r = items.pop();
        r.unwrap()
    } else {
        OperandContainer::from_op(Operand::And(items))
    }
}

/// The call that a name and arguments stand for (see `call_of`).
fn call_value(n: String, args: Vec<Val>) -> (r: Val)
    ensures
        r@ == call_of(n@, vals_view(args@)),
{
    let cs = chars_of(n.as_str());
    let len = cs.len();
    let mut k: usize = len;
    while k > 0 && cs[k - 1] != '.'
        invariant
            k <= len,
            len == n@.len(),
            cs@ == n@,
            last_dot(n@, len as int) == last_dot(n@, k as int),
        decreases k,
    {
        k = k - 1;
    }
    if k >= 2 && k < len {
        let d = k - 1;
        proof {
            assert(last_dot(n@, k as int) == d);
        }
        let recv = crate::text::string_of_range(cs.as_slice(), 0, d);
        let m = crate::text::string_of_range(cs.as_slice(), k, len);
        proof {
            assert(cs@.subrange(0, d as int) =~= n@.take(d as int));
            assert(cs@.subrange(k as int, len as int) =~= n@.skip(d + 1));
        }
        Val::MethodCall(MethodCall::new(Val::Field(Field(recv)), m, args))
    } else {
        proof {
            if k > 0 {
                assert(last_dot(n@, k as int) == k - 1);
            } else {
                assert(last_dot(n@, 0) == -1);
            }
        }
        Val::FnCall(FnCall { name: n, args })
    }
}

/// `left comparator right` as a condition; a regex on the right needs `=~` or `!~`.
fn comparison(left: Val, right: Val, c: Comparator, f: Option<InsensitiveFlag>) -> (r: RadeResult<OperandContainer>)
    ensures
        match make_comparison(left@, right@, c, f) {
            Some(o) => r is Ok && r->Ok_0@ == o,
            None => r is Err && r->Err_0@ == "Regex can only be used with == operator"@,
        },
{
    match right {
        Val::Regex(re) => if c == Comparator::Match || c == Comparator::Nmatch {
            Ok(OperandContainer::from_op(Operand::Match(left, re, c)))
        } else {
            fail_text("Regex can only be used with == operator")
        },
        _ => Ok(OperandContainer::from_op(Operand::Cmp(left, right, c, f))),
    }
}

/// A parsed function argument as a value.
fn operand_to_val(o: OperandContainer) -> (r: Val)
    ensures
        r@ == op_to_val(o@),
{
    if let Operand::Val(v) = o.op() {
        return clone_val(v);
    }
    Val::Expression(Box::new(o))
}

fn parse_expr(ts: &Vec<Token>, i: usize, v: bool) -> (r: RadeResult<(OperandContainer, usize)>)
    requires
        i <= ts@.len(),
    ensures
        op_outcome(r, p_expr(toks_view(ts@), i as int, v)),
        r is Err ==> r->Err_0@ == e_expr(toks_view(ts@), i as int, v),
    decreases ts@.len() - i, 9int,
{
    proof {
        lemma_toks_view(ts@);
    }
    match parse_and(ts, i, v) {
        Ok((first, j)) => {
            if !(i < j && j <= ts.len()) {
                return fail_text("The condition does not advance");
            }
            let ghost fv = first@;
            let mut acc: Vec<OperandContainer> = Vec::new();
            acc.push(first);
            proof {
                lemma_containers_push(Seq::empty(), acc@[0]);
                assert(Seq::<OperandContainer>::empty().push(acc@[0]) =~= acc@);
                assert(containers_view(Seq::<OperandContainer>::empty()) =~= Seq::<SOp>::empty());
                assert(containers_view(acc@) =~= seq![fv]);
            }
            match parse_or_rest(ts, j, v, acc) {
                Ok((items, k)) => {
                    proof {
                        lemma_containers_view(items@);
                    }
                    Ok((or_of(items), k))
                },
                Err(e) => Err(e),
            }
        },
        Err(e) => Err(e),
    }
}

fn parse_or_rest(ts: &Vec<Token>, j: usize, v: bool, acc: Vec<OperandContainer>) -> (r: RadeResult<(Vec<OperandContainer>, usize)>)
    requires
        j <= ts@.len(),
        acc@.len() >= 1,
    ensures
        ops_outcome(r, p_or_rest(toks_view(ts@), j as int, v, containers_view(acc@))),
        r is Err ==> r->Err_0@ == e_or_rest(toks_view(ts@), j as int, v, containers_view(acc@)),
        r is Ok ==> r->Ok_0.0@.len() >= 1,
    decreases ts@.len() - j, 8int,
{
    proof {
        lemma_toks_view(ts@);
    }
    if j < ts.len() && matches!(ts[j], Token::OrOp) {
        match parse_and(ts, j + 1, v) {
            Ok((x, k)) => {
                if !(j < k && k <= ts.len()) {
                    return fail_text("The condition does not advance");
                }
                let mut acc = acc;
                let ghost old_acc = acc@;
                acc.push(x);
                proof {
                    lemma_containers_push(old_acc, x);
                }
                parse_or_rest(ts, k, v, acc)
            },
            Err(e) => Err(e),
        }
    } else {
        Ok((acc, j))
    }
}

fn parse_and(ts: &Vec<Token>, i: usize, v: bool) -> (r: RadeResult<(OperandContainer, usize)>)
    requires
        i <= ts@.len(),
    ensures
        op_outcome(r, p_and(toks_view(ts@), i as int, v)),
        r is Err ==> r->Err_0@ == e_and(toks_view(ts@), i as int, v),
    decreases ts@.len() - i, 7int,
{
    proof {
        lemma_toks_view(ts@);
    }
    match parse_comparison(ts, i, v) {
        Ok((first, j)) => {
            if !(i < j && j <= ts.len()) {
                return fail_text("The condition does not advance");
            }
            let ghost fv = first@;
            let mut acc: Vec<OperandContainer> = Vec::new();
            acc.push(first);
            proof {
                lemma_containers_push(Seq::empty(), acc@[0]);
                assert(Seq::<OperandContainer>::empty().push(acc@[0]) =~= acc@);
                assert(containers_view(Seq::<OperandContainer>::empty()) =~= Seq::<SOp>::empty());
                assert(containers_view(acc@) =~= seq![fv]);
            }
            match parse_and_rest(ts, j, v, acc) {
                Ok((items, k)) => {
                    proof {
                        lemma_containers_view(items@);
                    }
                    Ok((and_of(items), k))
                },
                Err(e) => Err(e),
            }
        },
        Err(e) => Err(e),
    }
}

fn parse_and_rest(ts: &Vec<Token>, j: usize, v: bool, acc: Vec<OperandContainer>) -> (r: RadeResult<(Vec<OperandContainer>, usize)>)
    requires
        j <= ts@.len(),
        acc@.len() >= 1,
    ensures
        ops_outcome(r, p_and_rest(toks_view(ts@), j as int, v, containers_view(acc@))),
        r is Err ==> r->Err_0@ == e_and_rest(toks_view(ts@), j as int, v, containers_view(acc@)),
        r is Ok ==> r->Ok_0.0@.len() >= 1,
    decreases ts@.len() - j, 6int,
{
    proof {
        lemma_toks_view(ts@);
    }
    if j < ts.len() && matches!(ts[j], Token::AndOp) {
        match parse_comparison(ts, j + 1, v) {
            Ok((x, k)) => {
                if !(j < k && k <= ts.len()) {
                    return fail_text("The condition does not advance");
                }
                let mut acc = acc;
                let ghost old_acc = acc@;
                acc.push(x);
                proof {
                    lemma_containers_push(old_acc, x);
                }
                parse_and_rest(ts, k, v, acc)
            },
            Err(e) => Err(e),
        }
    } else {
        Ok((acc, j))
    }
}

fn parse_comparison(ts: &Vec<Token>, i: usize, v: bool) -> (r: RadeResult<(OperandContainer, usize)>)
    requires
        i <= ts@.len(),
    ensures
        op_outcome(r, p_comparison(toks_view(ts@), i as int, v)),
        r is Err ==> r->Err_0@ == e_comparison(toks_view(ts@), i as int, v),
    decreases ts@.len() - i, 5int,
{
    proof {
        lemma_toks_view(ts@);
    }
    match parse_unary(ts, i) {
        Ok((left, j)) => {
            if !(i < j && j <= ts.len()) {
                return fail_text("The condition does not advance");
            }
            if j < ts.len() {
                if let Token::Cmp(c, f) = &ts[j] {
                    let c = *c;
                    let f = *f;
                    return match parse_unary(ts, j + 1) {
                        Ok((right, k)) => match comparison(left, right, c, f) {
                            Ok(o) => Ok((o, k)),
                            Err(e) => Err(e),
                        },
                        Err(e) => Err(e),
                    };
                }
            }
            if v {
                match left.validate_bool() {
                    Ok(l) => Ok((OperandContainer::from_op(Operand::Val(l)), j)),
                    Err(e) => Err(e),
                }
            } else {
                Ok((OperandContainer::from_op(Operand::Val(left)), j))
            }
        },
        Err(e) => Err(e),
    }
}

fn parse_unary(ts: &Vec<Token>, i: usize) -> (r: RadeResult<(Val, usize)>)
    requires
        i <= ts@.len(),
    ensures
        val_outcome(r, p_unary(toks_view(ts@), i as int)),
        r is Err ==> r->Err_0@ == e_unary(toks_view(ts@), i as int),
    decreases ts@.len() - i, 4int,
{
    match parse_primary(ts, i) {
        Ok((prim, j)) => {
            if !(i < j && j <= ts.len()) {
                return fail_text("The condition does not advance");
            }
            parse_postfix(ts, j, prim)
        },
        Err(e) => Err(e),
    }
}

#[verifier::rlimit(80)]
#[verifier::spinoff_prover]
fn parse_postfix(ts: &Vec<Token>, j: usize, prim: Val) -> (r: RadeResult<(Val, usize)>)
    requires
        j <= ts@.len(),
    ensures
        val_outcome(r, p_postfix(toks_view(ts@), j as int, prim@)),
        r is Err ==> r->Err_0@ == e_postfix(toks_view(ts@), j as int, prim@),
    decreases ts@.len() - j, 3int,
{
    proof {
        lemma_toks_view(ts@);
    }
    if j < ts.len() && matches!(ts[j], Token::LParen) {
        match parse_args(ts, j + 1) {
            Ok((args, k)) => {
                if !(j < k && k <= ts.len()) {
                    return fail_text("The condition does not advance");
                }
                match prim {
                    Val::Field(n) => parse_postfix(ts, k, call_value(n.0, args)),
                    _ => fail_text("Function call is only supported on identifiers"),
                }
            },
            Err(e) => Err(e),
        }
    } else if j < ts.len() && matches!(ts[j], Token::Dot) {
        if ts.len() - j > 2 && matches!(ts[j + 2], Token::LParen) {
            if let Token::Ident(m) = &ts[j + 1] {
                let name = string_from_chars(m.as_slice());
                return match parse_args(ts, j + 3) {
                    Ok((args, k)) => {
                        if !(j < k && k <= ts.len()) {
                            return fail_text("The condition does not advance");
                        }
                        parse_postfix(ts, k, Val::MethodCall(MethodCall::new(prim, name, args)))
                    },
                    Err(e) => Err(e),
                };
            }
        }
        fail_text("A method call needs a name and arguments")
    } else if j < ts.len() && matches!(ts[j], Token::LBracket) {
        if ts.len() - j > 2 && matches!(ts[j + 2], Token::RBracket) {
            if let Token::Int(x) = &ts[j + 1] {
                return match prim {
                    Val::Field(n) => parse_postfix(ts, j + 3, Val::FieldIndex(n, *x)),
                    _ => fail_text("Element access is only supported on fields"),
                };
            }
        }
        fail_text("Element access takes an integer literal")
    } else {
        Ok((prim, j))
    }
}

fn parse_args(ts: &Vec<Token>, i: usize) -> (r: RadeResult<(Vec<Val>, usize)>)
    requires
        i <= ts@.len(),
    ensures
        vals_outcome(r, p_args(toks_view(ts@), i as int)),
        r is Err ==> r->Err_0@ == e_args(toks_view(ts@), i as int),
    decreases ts@.len() - i, 11int,
{
    proof {
        lemma_toks_view(ts@);
    }
    if i < ts.len() && matches!(ts[i], Token::RParen) {
        proof {
            assert(vals_view(Seq::<Val>::empty()) =~= Seq::<SVal>::empty());
        }
        Ok((Vec::new(), i + 1))
    } else {
        match parse_expr(ts, i, false) {
            Ok((o, j)) => {
                if !(i < j && j <= ts.len()) {
                    return fail_text("The condition does not advance");
                }
                let a = operand_to_val(o);
                let ghost av = a@;
                let mut acc: Vec<Val> = Vec::new();
                acc.push(a);
                proof {
                    lemma_vals_push(Seq::empty(), acc@[0]);
                    assert(Seq::<Val>::empty().push(acc@[0]) =~= acc@);
                    assert(vals_view(Seq::<Val>::empty()) =~= Seq::<SVal>::empty());
                    assert(vals_view(acc@) =~= seq![av]);
                }
                parse_args_rest(ts, j, acc)
            },
            Err(e) => Err(e),
        }
    }
}

fn parse_args_rest(ts: &Vec<Token>, j: usize, acc: Vec<Val>) -> (r: RadeResult<(Vec<Val>, usize)>)
    requires
        j <= ts@.len(),
    ensures
        vals_outcome(r, p_args_rest(toks_view(ts@), j as int, vals_view(acc@))),
        r is Err ==> r->Err_0@ == e_args_rest(toks_view(ts@), j as int, vals_view(acc@)),
    decreases ts@.len() - j, 10int,
{
    proof {
        lemma_toks_view(ts@);
    }
    if j < ts.len() && matches!(ts[j], Token::Comma) {
        match parse_expr(ts, j + 1, false) {
            Ok((o, k)) => {
                if !(j < k && k <= ts.len()) {
                    return fail_text("The condition does not advance");
                }
                let a = operand_to_val(o);
                let mut acc = acc;
                let ghost old_acc = acc@;
                acc.push(a);
                proof {
                    lemma_vals_push(old_acc, a);
                }
                parse_args_rest(ts, k, acc)
            },
            Err(e) => Err(e),
        }
    } else if j < ts.len() && matches!(ts[j], Token::RParen) {
        Ok((acc, j + 1))
    } else {
        fail_text("Function arguments must be separated by commas and closed by a parenthesis")
    }
}

fn parse_primary(ts: &Vec<Token>, i: usize) -> (r: RadeResult<(Val, usize)>)
    requires
        i <= ts@.len(),
    ensures
        val_outcome(r, p_primary(toks_view(ts@), i as int)),
        r is Err ==> r->Err_0@ == e_primary(toks_view(ts@), i as int),
    decreases ts@.len() - i, 2int,
{
    proof {
        lemma_toks_view(ts@);
    }
    if i >= ts.len() {
        return fail_text("Unexpected end of the condition");
    }
    match &ts[i] {
        Token::Bool(b) => Ok((Val::Bool(Bool(*b)), i + 1)),
        Token::Int(x) => Ok((Val::Int(Int(*x)), i + 1)),
        Token::Float(x) => Ok((Val::Float(*x), i + 1)),
        Token::Str(t) => {
            let s = string_from_chars(t.as_slice());
            Ok((Val::Str(Str(FatString::new(s))), i + 1))
        },
        Token::Regex(t) => match RadeRegex::from_literal_chars(t.as_slice()) {
            Ok(re) => Ok((Val::Regex(re), i + 1)),
            Err(e) => Err(e),
        },
        Token::Ident(t) => Ok((Val::Field(Field(string_from_chars(t.as_slice()))), i + 1)),
        Token::LBracket => {
            if i + 1 < ts.len() && matches!(ts[i + 1], Token::RBracket) {
                proof {
                    assert(fat_strings_view(Seq::<FatString>::empty()) =~= Seq::<Seq<char>>::empty());
                }
                Ok((Val::StrList(StrList(Vec::new())), i + 2))
            } else {
                proof {
                    assert(fat_strings_view(Seq::<FatString>::empty()) =~= Seq::<Seq<char>>::empty());
                }
                parse_elems(ts, i + 1, Vec::new(), Vec::new(), None)
            }
        },
        Token::Not => {
            if i + 1 < ts.len() && matches!(ts[i + 1], Token::LParen) {
                match parse_expr(ts, i + 2, true) {
                    Ok((o, j)) => {
                        if i + 2 < j && j < ts.len() && matches!(ts[j], Token::RParen) {
                            let n = OperandContainer::from_op(Operand::Negate(Box::new(o)));
                            Ok((Val::Expression(Box::new(n)), j + 1))
                        } else {
                            fail_text("Expected a closing parenthesis")
                        }
                    },
                    Err(e) => Err(e),
                }
            } else {
                fail_text("Negation applies to a parenthesised condition")
            }
        },
        Token::LParen => match parse_expr(ts, i + 1, true) {
            Ok((o, j)) => {
                if i + 1 < j && j < ts.len() && matches!(ts[j], Token::RParen) {
                    Ok((Val::Expression(Box::new(o)), j + 1))
                } else {
                    fail_text("Expected a closing parenthesis")
                }
            },
            Err(e) => Err(e),
        },
        _ => fail_text("Unexpected token"),
    }
}

fn array_of(strs: Vec<FatString>, ints: Vec<i64>, kind: Option<bool>) -> (r: Val)
    ensures
        r@ == array_value(fat_strings_view(strs@), ints@, kind),
{
    match kind {
        Some(false) => Val::IntList(IntList(ints)),
        _ => Val::StrList(StrList(strs)),
    }
}

fn parse_elems(ts: &Vec<Token>, i: usize, strs: Vec<FatString>, ints: Vec<i64>, kind: Option<bool>) -> (r: RadeResult<(Val, usize)>)
    requires
        i <= ts@.len(),
    ensures
        val_outcome(r, p_elems(toks_view(ts@), i as int, fat_strings_view(strs@), ints@, kind)),
        r is Err ==> r->Err_0@ == e_elems(toks_view(ts@), i as int, fat_strings_view(strs@), ints@, kind),
    decreases ts@.len() - i, 1int,
{
    proof {
        lemma_toks_view(ts@);
    }
    if i >= ts.len() {
        return fail_text("Unclosed array literal");
    }
    match &ts[i] {
        Token::Str(t) => {
            match kind {
                Some(false) => fail_text("Mixed array types not supported"),
                _ => {
                    let f = FatString::new(string_from_chars(t.as_slice()));
                    let mut strs = strs;
                    let ghost old_strs = strs@;
                    strs.push(f);
                    proof {
                        assert(fat_strings_view(strs@) =~= fat_strings_view(old_strs).push(f@));
                    }
                    parse_after_elem(ts, i + 1, strs, ints, Some(true))
                },
            }
        },
        Token::Int(x) => {
            match kind {
                Some(true) => fail_text("Mixed array types not supported"),
                _ => {
                    let mut ints = ints;
                    ints.push(*x);
                    parse_after_elem(ts, i + 1, strs, ints, Some(false))
                },
            }
        },
        _ => fail_text("Array elements must be string or integer literals"),
    }
}

fn parse_after_elem(ts: &Vec<Token>, j: usize, strs: Vec<FatString>, ints: Vec<i64>, kind: Option<bool>) -> (r: RadeResult<(Val, usize)>)
    requires
        j <= ts@.len(),
    ensures
        val_outcome(r, p_after_elem(toks_view(ts@), j as int, fat_strings_view(strs@), ints@, kind)),
        r is Err ==> r->Err_0@ == e_after_elem(toks_view(ts@), j as int, fat_strings_view(strs@), ints@, kind),
    decreases ts@.len() - j, 0int,
{
    proof {
        lemma_toks_view(ts@);
    }
    if j < ts.len() && matches!(ts[j], Token::Comma) {
        parse_elems(ts, j + 1, strs, ints, kind)
    } else if j < ts.len() && matches!(ts[j], Token::RBracket) {
        Ok((array_of(strs, ints, kind), j + 1))
    } else {
        fail_text("Array elements must be separated by commas and closed by a bracket")
    }
}

/// Parses conditions written in the condition language.
pub struct ConditionParser;

impl ConditionParser {
    /// The condition that `input` stands for; an error when `input` is not a condition.
    pub fn parse_condition(input: &str) -> (r: RadeResult<OperandContainer>)
        ensures
            match parse_spec(input@) {
                Some(o) => r is Ok && r->Ok_0@ == o,
                None => r is Err && r->Err_0@ == parse_error_text(input@),
            },
    {
        let cs = chars_of(input);
        match lex_chars(cs.as_slice()) {
            None => fail_text("The condition holds a character that starts no token"),
            Some(ts) => match parse_expr(&ts, 0, true) {
                Ok((o, j)) => {
                    if j == ts.len() {
                        Ok(o)
                    } else {
                        fail_text("Unexpected input after the condition")
                    }
                },
                Err(e) => Err(e),
            },
        }
    }
}

} // verus!
