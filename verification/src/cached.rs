//! What evaluation with a result cache computes, step by step, whatever the hashes: a
//! condition already in the cache gives the cached result, any other is computed (its
//! parts through the same cache) and then stored under its hash. Where no two different
//! nested conditions share a hash this is the meaning `eval`; where they do, it is what
//! the cache makes of it.
use vstd::prelude::*;
use crate::ast::{op_hash, SOp, SVal};
use crate::event::EventView;
use crate::fat_string::{insensitive_form, InsensitiveFlag};
use crate::semantics::{
    bool_of, call, field_value, float_order, indexed_value, int_float, int_order,
    lemma_size_ops_elem, lemma_size_val_pos, match_regex, method_call, number_of, size_op,
    size_ops, size_val, text_of, text_order,
};
use crate::val::{swapped, Comparator};

verus! {

/// The result of a condition evaluated through the cache `m`, and the cache afterwards.
pub open spec fn cached_eval(o: SOp, ev: EventView, m: Map<u64, bool>) -> (bool, Map<u64, bool>)
    decreases size_op(o), 0int, 0int,
{
    let h = op_hash(o);
    if m.contains_key(h) {
        (m[h], m)
    } else {
        let p: (bool, Map<u64, bool>) = match o {
            SOp::Or(ops) => cached_any(ops, 0, ev, m),
            SOp::And(ops) => cached_all(ops, 0, ev, m),
            SOp::Cmp(a, b, c, f) => (compare_c(a, b, c, f, ev) == Some(true), m),
            SOp::Match(v, re, c) => (match_regex(re, v, c, ev) == Some(true), m),
            SOp::Val(v) => {
                let q = as_bool_cc(v, ev, m);
                (q.0 == Some(true), q.1)
            },
            SOp::Negate(x) => {
                let q = cached_eval(*x, ev, m);
                (!q.0, q.1)
            },
        };
        (p.0, p.1.insert(h, p.0))
    }
}

/// The first of `ops` from `i` on that holds, through the cache, stopping there.
pub open spec fn cached_any(ops: Seq<SOp>, i: int, ev: EventView, m: Map<u64, bool>) -> (bool, Map<u64, bool>)
    decreases size_ops(ops), 1int, ops.len() - i,
{
    if i < 0 || i >= ops.len() {
        (false, m)
    } else {
        proof {
            lemma_size_ops_elem(ops, i);
        }
        let q = cached_eval(ops[i], ev, m);
        if q.0 {
            (true, q.1)
        } else {
            cached_any(ops, i + 1, ev, q.1)
        }
    }
}

/// Whether all of `ops` from `i` on hold, through the cache, stopping at the first that
/// does not.
pub open spec fn cached_all(ops: Seq<SOp>, i: int, ev: EventView, m: Map<u64, bool>) -> (bool, Map<u64, bool>)
    decreases size_ops(ops), 1int, ops.len() - i,
{
    if i < 0 || i >= ops.len() {
        (true, m)
    } else {
        proof {
            lemma_size_ops_elem(ops, i);
        }
        let q = cached_eval(ops[i], ev, m);
        if !q.0 {
            (false, q.1)
        } else {
            cached_all(ops, i + 1, ev, q.1)
        }
    }
}

/// A value as a condition through the cache `m` (see `as_bool`), and the cache afterwards.
pub open spec fn as_bool_cc(v: SVal, ev: EventView, m: Map<u64, bool>) -> (Option<bool>, Map<u64, bool>)
    decreases size_val(v), 1int, 0int,
{
    match v {
        SVal::Expression(o) => {
            let q = cached_eval(*o, ev, m);
            (Some(q.0), q.1)
        },
        _ => (as_bool_c(v, ev), m),
    }
}

/// A value as a condition (see `as_bool`), a sub-condition evaluated with a cache of its own.
pub open spec fn as_bool_c(v: SVal, ev: EventView) -> Option<bool>
    decreases size_val(v), 0int, 0int,
{
    match v {
        SVal::Bool(b) => Some(b),
        SVal::Field(n) => match field_value(ev, n) {
            Some(SVal::Bool(b)) => Some(b),
            _ => None,
        },
        SVal::Expression(o) => Some(cached_eval(*o, ev, Map::empty()).0),
        SVal::FnCall(n, args) => match call(n, args, ev) {
            Some(r) => bool_of(r),
            None => None,
        },
        SVal::MethodCall(r, m, args) => match method_call(*r, m, args, ev) {
            Some(x) => bool_of(x),
            None => None,
        },
        _ => None,
    }
}

/// `a c b` under flag `f` (see `compare`), sub-conditions evaluated as `as_bool_c` does.
pub open spec fn compare_c(
    a: SVal,
    b: SVal,
    c: Comparator,
    f: Option<InsensitiveFlag>,
    ev: EventView,
) -> Option<bool>
    decreases size_val(a) + size_val(b), 3int, 0int,
{
    proof {
        lemma_size_val_pos(a);
    }
    match a {
        SVal::Field(n) => match field_value(ev, n) {
            Some(x) => compare_data_c(x, b, c, f, ev),
            None => None,
        },
        SVal::FieldIndex(n, i) => match indexed_value(ev, n, i) {
            Some(x) => compare_data_c(x, b, c, f, ev),
            None => None,
        },
        SVal::FnCall(n, args) => match call(n, args, ev) {
            Some(x) => compare_data_c(x, b, c, f, ev),
            None => None,
        },
        SVal::MethodCall(r, m, args) => match method_call(*r, m, args, ev) {
            Some(x) => compare_data_c(x, b, c, f, ev),
            None => None,
        },
        _ => compare_data_c(a, b, c, f, ev),
    }
}

/// `x c b` (see `compare_data`), sub-conditions evaluated as `as_bool_c` does.
pub open spec fn compare_data_c(
    x: SVal,
    b: SVal,
    c: Comparator,
    f: Option<InsensitiveFlag>,
    ev: EventView,
) -> Option<bool>
    decreases size_val(b) + 1, if b is Field {
        1int
    } else {
        0int
    }, 0int,
{
    match x {
        SVal::Bool(p) => if f is Some {
            None
        } else {
            match as_bool_c(b, ev) {
                Some(q) => match c {
                    Comparator::Eq => Some(p == q),
                    Comparator::Neq => Some(p != q),
                    _ => None,
                },
                None => None,
            }
        },
        SVal::Int(i) => if f is Some {
            None
        } else {
            match b {
                SVal::Field(m) => match field_value(ev, m) {
                    Some(y) => compare_data_c(y, SVal::Int(i), swapped(c), f, ev),
                    None => None,
                },
                SVal::Int(j) => int_order(c, i as int, j as int),
                _ => match number_of(b, ev) {
                    Some(y) => float_order(c, int_float(i), y),
                    None => None,
                },
            }
        },
        SVal::Float(p) => if f is Some {
            None
        } else {
            match b {
                SVal::Field(m) => match field_value(ev, m) {
                    Some(y) => compare_data_c(y, SVal::Float(p), swapped(c), f, ev),
                    None => None,
                },
                _ => match number_of(b, ev) {
                    Some(y) => float_order(c, p, y),
                    None => None,
                },
            }
        },
        SVal::Str(s) => match text_of(b, f, ev) {
            Some(t) => text_order(c, insensitive_form(s, f), t),
            None => None,
        },
        _ => None,
    }
}

/// As `law_number_against_field`, for the comparison that cached evaluation makes.
pub proof fn law_number_against_field_c(x: SVal, m: Seq<char>, c: Comparator, f: Option<InsensitiveFlag>, ev: EventView)
    requires
        x is Int || x is Float,
        ev.fields.contains_key(m),
        ev.fields[m] is Int || ev.fields[m] is Float,
    ensures
        compare_data_c(x, SVal::Field(m), c, f, ev) == compare_data_c(x, ev.fields[m], c, f, ev),
        compare_data_c(x, SVal::Field(m), c, f, ev) == crate::semantics::compare_data(x, ev.fields[m], c, f, ev),
{
    reveal_with_fuel(compare_data_c, 3);
    reveal_with_fuel(crate::semantics::compare_data, 3);
    assert(field_value(ev, m) == Some(ev.fields[m]));
    let y = ev.fields[m];
    match x {
        SVal::Int(i) => match y {
            SVal::Int(j) => crate::semantics::law_swap_flips_int_operands(c, i as int, j as int),
            SVal::Float(q) => crate::semantics::law_swap_flips_float_operands(c, int_float(i), q),
            _ => {},
        },
        SVal::Float(p) => match y {
            SVal::Int(j) => crate::semantics::law_swap_flips_float_operands(c, p, int_float(j)),
            SVal::Float(q) => crate::semantics::law_swap_flips_float_operands(c, p, q),
            _ => {},
        },
        _ => {},
    }
}

} // verus!
