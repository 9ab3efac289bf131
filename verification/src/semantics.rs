//! What a condition means for an event: the values that fields, indexing and calls give,
//! how two values compare, and whether a condition holds. `None` stands for an error.
use vstd::prelude::*;
use crate::ast::{op_hash, SOp, SVal};
use crate::event::{str_field, EventView};
use crate::fat_string::{insensitive_form, InsensitiveFlag};
use crate::float::{float_close, Float, FLOAT_SCALE};
use crate::lexer::{law_not_match_operator, token_at, Tok};
use crate::functions::{byte_len, concat_all, fn_id_of, split_pieces, FnId};
use crate::methods::apply_method;
use crate::pattern::{regex_is_match, RegexView};
use crate::val::{list_position, swapped, Comparator};

verus! {

/// The number of nodes of a value.
pub open spec fn size_val(v: SVal) -> nat
    decreases v,
{
    match v {
        SVal::Expression(o) => 1 + size_op(*o),
        SVal::FnCall(_, args) => 1 + size_vals(args),
        SVal::MethodCall(r, _, args) => 1 + size_val(*r) + size_vals(args),
        _ => 1,
    }
}

pub open spec fn size_vals(s: Seq<SVal>) -> nat
    decreases s,
{
    if s.len() == 0 {
        0
    } else {
        size_vals(s.drop_last()) + size_val(s.last())
    }
}

/// The number of nodes of a condition.
pub open spec fn size_op(o: SOp) -> nat
    decreases o,
{
    match o {
        SOp::And(ops) => 1 + size_ops(ops),
        SOp::Or(ops) => 1 + size_ops(ops),
        SOp::Cmp(a, b, _, _) => 1 + size_val(a) + size_val(b),
        SOp::Match(v, _, _) => 1 + size_val(v),
        SOp::Val(v) => 1 + size_val(v),
        SOp::Negate(x) => 1 + size_op(*x),
    }
}

pub open spec fn size_ops(s: Seq<SOp>) -> nat
    decreases s,
{
    if s.len() == 0 {
        0
    } else {
        size_ops(s.drop_last()) + size_op(s.last())
    }
}

pub proof fn lemma_size_val_pos(v: SVal)
    ensures
        size_val(v) >= 1,
{
}

pub proof fn lemma_size_op_pos(o: SOp)
    ensures
        size_op(o) >= 1,
{
}

/// The field `n` of the event, if it has one.
pub open spec fn field_value(ev: EventView, n: Seq<char>) -> Option<SVal> {
    if ev.fields.contains_key(n) {
        Some(ev.fields[n])
    } else {
        None
    }
}

/// `n[idx]`: an element of a list field, counted from the back for negative `idx`.
pub open spec fn indexed_value(ev: EventView, n: Seq<char>, idx: i64) -> Option<SVal> {
    match field_value(ev, n) {
        Some(SVal::StrList(l)) => match list_position(l.len() as int, idx as int) {
            Some(p) => Some(SVal::Str(l[p])),
            None => None,
        },
        Some(SVal::IntList(l)) => match list_position(l.len() as int, idx as int) {
            Some(p) => Some(SVal::Int(l[p])),
            None => None,
        },
        _ => None,
    }
}

/// `n[idx]` when `n` is a string list.
pub open spec fn indexed_str(ev: EventView, n: Seq<char>, idx: i64) -> Option<Seq<char>> {
    match field_value(ev, n) {
        Some(SVal::StrList(l)) => match list_position(l.len() as int, idx as int) {
            Some(p) => Some(l[p]),
            None => None,
        },
        _ => None,
    }
}

/// `n[idx]` when `n` is an integer list.
pub open spec fn indexed_int(ev: EventView, n: Seq<char>, idx: i64) -> Option<i64> {
    match field_value(ev, n) {
        Some(SVal::IntList(l)) => match list_position(l.len() as int, idx as int) {
            Some(p) => Some(l[p]),
            None => None,
        },
        _ => None,
    }
}

/// The text a value stands for under `f`: a string, the first element of a string list,
/// a string field or an element of a string-list field.
pub open spec fn text_of(v: SVal, f: Option<InsensitiveFlag>, ev: EventView) -> Option<Seq<char>> {
    match v {
        SVal::Str(s) => Some(insensitive_form(s, f)),
        SVal::StrList(l) => if l.len() == 0 {
            None
        } else {
            Some(insensitive_form(l[0], f))
        },
        SVal::Field(n) => match str_field(ev, n) {
            Some(s) => Some(insensitive_form(s, f)),
            None => None,
        },
        SVal::FieldIndex(n, i) => match indexed_str(ev, n, i) {
            Some(s) => Some(insensitive_form(s, f)),
            None => None,
        },
        _ => None,
    }
}

/// The decimal that an integer becomes when it is compared with a decimal: the nearest
/// double to it, as `i as f64` gives.
pub open spec fn int_float(i: i64) -> Float {
    Float((crate::float::int_as_f64(i as int) * FLOAT_SCALE) as i128)
}

/// The number a value stands for: an integer, a decimal or an element of an integer-list
/// field.
pub open spec fn number_of(v: SVal, ev: EventView) -> Option<Float> {
    match v {
        SVal::Int(i) => Some(int_float(i)),
        SVal::Float(x) => Some(x),
        SVal::FieldIndex(n, i) => match indexed_int(ev, n, i) {
            Some(x) => Some(int_float(x)),
            None => None,
        },
        _ => None,
    }
}

/// A boolean value as a `bool`.
pub open spec fn bool_of(v: SVal) -> Option<bool> {
    match v {
        SVal::Bool(b) => Some(b),
        _ => None,
    }
}

/// `x c y` on integers; the match comparators do not apply.
pub open spec fn int_order(c: Comparator, x: int, y: int) -> Option<bool> {
    match c {
        Comparator::Eq => Some(x == y),
        Comparator::Neq => Some(x != y),
        Comparator::Gt => Some(x > y),
        Comparator::Lt => Some(x < y),
        Comparator::Ge => Some(x >= y),
        Comparator::Le => Some(x <= y),
        _ => None,
    }
}

/// `x c y` on decimals, equality up to 10^-6.
pub open spec fn float_order(c: Comparator, x: Float, y: Float) -> Option<bool> {
    match c {
        Comparator::Eq => Some(float_close(x, y)),
        Comparator::Neq => Some(!float_close(x, y)),
        Comparator::Gt => Some(x.0 > y.0),
        Comparator::Lt => Some(x.0 < y.0),
        Comparator::Ge => Some(x.0 >= y.0),
        Comparator::Le => Some(x.0 <= y.0),
        _ => None,
    }
}

/// `s c t` on texts: only equality and inequality apply.
pub open spec fn text_order(c: Comparator, s: Seq<char>, t: Seq<char>) -> Option<bool> {
    match c {
        Comparator::Eq => Some(s == t),
        Comparator::Neq => Some(s != t),
        _ => None,
    }
}

/// What the registered function `name` gives for argument values `args`; `None` for a
/// name that no function has.
pub open spec fn apply_fn(name: Seq<char>, args: Seq<SVal>) -> Option<SVal> {
    match fn_id_of(name) {
        Some(id) => apply_id(id, args),
        None => None,
    }
}

/// What the function `id` gives for argument values `args`; extra arguments are ignored.
pub open spec fn apply_id(id: FnId, args: Seq<SVal>) -> Option<SVal> {
    match id {
        FnId::Concat => if args.len() >= 1 && args[0] is StrList {
            Some(SVal::Str(concat_all(args[0]->StrList_0)))
        } else {
            None
        },
        FnId::Split => if args.len() >= 2 && args[0] is Str && args[1] is Str {
            Some(SVal::StrList(split_pieces(args[0]->Str_0, args[1]->Str_0)))
        } else {
            None
        },
        FnId::Length => if args.len() >= 1 && args[0] is Str {
            Some(SVal::Int(byte_len(args[0]->Str_0)))
        } else {
            None
        },
        FnId::IsEmpty => if args.len() >= 1 && args[0] is Str {
            Some(SVal::Bool(args[0]->Str_0.len() == 0))
        } else {
            None
        },
        FnId::FloatSum => if args.len() >= 2 && args[0] is Float && args[1] is Float {
            let sum = args[0]->Float_0.0 + args[1]->Float_0.0;
            if i128::MIN <= sum <= i128::MAX {
                Some(SVal::Float(Float(sum as i128)))
            } else {
                None
            }
        } else {
            None
        },
    }
}

/// Whether a condition holds for an event; a part that fails counts as not holding.
pub open spec fn eval(o: SOp, ev: EventView) -> bool
    decreases size_op(o), 0int,
{
    match o {
        SOp::Or(ops) => eval_any(ops, ev),
        SOp::And(ops) => eval_all(ops, ev),
        SOp::Cmp(a, b, c, f) => compare(a, b, c, f, ev) == Some(true),
        SOp::Match(v, re, c) => match_regex(re, v, c, ev) == Some(true),
        SOp::Val(v) => as_bool(v, ev) == Some(true),
        SOp::Negate(x) => !eval(*x, ev),
    }
}

/// Whether one of the conditions holds.
pub open spec fn eval_any(ops: Seq<SOp>, ev: EventView) -> bool
    decreases size_ops(ops), 1int,
{
    if ops.len() == 0 {
        false
    } else {
        proof {
            lemma_size_op_pos(ops.last());
        }
        eval_any(ops.drop_last(), ev) || eval(ops.last(), ev)
    }
}

/// Whether all of the conditions hold.
pub open spec fn eval_all(ops: Seq<SOp>, ev: EventView) -> bool
    decreases size_ops(ops), 1int,
{
    if ops.len() == 0 {
        true
    } else {
        proof {
            lemma_size_op_pos(ops.last());
        }
        eval_all(ops.drop_last(), ev) && eval(ops.last(), ev)
    }
}

/// A value as a condition: a boolean, a boolean field, a sub-condition or a call that
/// gives a boolean.
pub open spec fn as_bool(v: SVal, ev: EventView) -> Option<bool>
    decreases size_val(v), 0int,
{
    match v {
        SVal::Bool(b) => Some(b),
        SVal::Field(n) => match field_value(ev, n) {
            Some(SVal::Bool(b)) => Some(b),
            _ => None,
        },
        SVal::Expression(o) => Some(eval(*o, ev)),
        SVal::FnCall(n, args) => match call(n, args, ev) {
            Some(r) => bool_of(r),
            None => None,
        },
        SVal::MethodCall(r, m, args) => match method_call(*r, m, args, ev) {
            Some(x) => bool_of(x),
            None => None,
        },
        _ => None,
    }
}

/// The value of `receiver.method(args)`: the receiver and the arguments are resolved as
/// call arguments, then the method is applied.
pub open spec fn method_call(receiver: SVal, method: Seq<char>, args: Seq<SVal>, ev: EventView) -> Option<SVal>
    decreases size_val(receiver) + size_vals(args), 2int,
{
    proof {
        lemma_size_val_pos(receiver);
    }
    match fn_arg(receiver, ev) {
        Some(rv) => match fn_args(args, ev) {
            Some(vals) => apply_method(rv, method, vals),
            None => None,
        },
        None => None,
    }
}

/// The value of calling `name` on `args`.
pub open spec fn call(name: Seq<char>, args: Seq<SVal>, ev: EventView) -> Option<SVal>
    decreases size_vals(args), 2int,
{
    match fn_args(args, ev) {
        Some(vals) => apply_fn(name, vals),
        None => None,
    }
}

/// The values of call arguments, in order.
pub open spec fn fn_args(args: Seq<SVal>, ev: EventView) -> Option<Seq<SVal>>
    decreases size_vals(args), 1int,
{
    if args.len() == 0 {
        Some(Seq::empty())
    } else {
        proof {
            lemma_size_val_pos(args.last());
        }
        match fn_args(args.drop_last(), ev) {
            Some(vs) => match fn_arg(args.last(), ev) {
                Some(x) => Some(vs.push(x)),
                None => None,
            },
            None => None,
        }
    }
}

/// The value of a call argument: fields, indexing and calls are resolved; a condition or
/// a regex cannot be an argument.
pub open spec fn fn_arg(v: SVal, ev: EventView) -> Option<SVal>
    decreases size_val(v), 0int,
{
    match v {
        SVal::Field(n) => field_value(ev, n),
        SVal::FieldIndex(n, i) => indexed_value(ev, n, i),
        SVal::FnCall(n, a) => call(n, a, ev),
        SVal::MethodCall(r, m, a) => method_call(*r, m, a, ev),
        SVal::Expression(_) => None,
        SVal::Regex(_) => None,
        _ => Some(v),
    }
}

/// `a c b` under flag `f`: fields, indexing and calls on the left are resolved first.
pub open spec fn compare(
    a: SVal,
    b: SVal,
    c: Comparator,
    f: Option<InsensitiveFlag>,
    ev: EventView,
) -> Option<bool>
    decreases size_val(a) + size_val(b), 3int,
{
    match a {
        SVal::Field(n) => match field_value(ev, n) {
            Some(x) => compare_data(x, b, c, f, ev),
            None => None,
        },
        SVal::FieldIndex(n, i) => match indexed_value(ev, n, i) {
            Some(x) => compare_data(x, b, c, f, ev),
            None => None,
        },
        SVal::FnCall(n, args) => match call(n, args, ev) {
            Some(x) => compare_data(x, b, c, f, ev),
            None => None,
        },
        SVal::MethodCall(r, m, args) => match method_call(*r, m, args, ev) {
            Some(x) => compare_data(x, b, c, f, ev),
            None => None,
        },
        _ => compare_data(a, b, c, f, ev),
    }
}

/// `x c b` for a boolean, integer, decimal or string `x`. A number compared with a field
/// is compared from the field's side with the comparator swapped; numbers take no flag.
pub open spec fn compare_data(
    x: SVal,
    b: SVal,
    c: Comparator,
    f: Option<InsensitiveFlag>,
    ev: EventView,
) -> Option<bool>
    decreases size_val(b) + 1, if b is Field {
        1int
    } else {
        0int
    },
{
    match x {
        SVal::Bool(p) => if f is Some {
            None
        } else {
            match as_bool(b, ev) {
                Some(q) => match c {
                    Comparator::Eq => Some(p == q),
                    Comparator::Neq => Some(p != q),
                    _ => None,
                },
                None => None,
            }
        },
        SVal::Int(i) => if f is Some {
            None
        } else {
            match b {
                SVal::Field(m) => match field_value(ev, m) {
                    Some(y) => compare_data(y, SVal::Int(i), swapped(c), f, ev),
                    None => None,
                },
                SVal::Int(j) => int_order(c, i as int, j as int),
                _ => match number_of(b, ev) {
                    Some(y) => float_order(c, int_float(i), y),
                    None => None,
                },
            }
        },
        SVal::Float(p) => if f is Some {
            None
        } else {
            match b {
                SVal::Field(m) => match field_value(ev, m) {
                    Some(y) => compare_data(y, SVal::Float(p), swapped(c), f, ev),
                    None => None,
                },
                _ => match number_of(b, ev) {
                    Some(y) => float_order(c, p, y),
                    None => None,
                },
            }
        },
        SVal::Str(s) => match text_of(b, f, ev) {
            Some(t) => text_order(c, insensitive_form(s, f), t),
            None => None,
        },
        _ => None,
    }
}

/// `v =~ re` (or `!~`): the regex is searched for in the text of `v` under the regex's
/// own flag.
pub open spec fn match_regex(re: RegexView, v: SVal, c: Comparator, ev: EventView) -> Option<bool> {
    match text_of(v, re.flag, ev) {
        Some(s) => match c {
            Comparator::Match => Some(regex_is_match(re.pattern, s)),
            Comparator::Nmatch => Some(!regex_is_match(re.pattern, s)),
            _ => None,
        },
        None => None,
    }
}

/// The conditions nested in a condition, itself included.
pub open spec fn ops_within(o: SOp) -> Set<SOp>
    decreases o,
{
    set![o].union(
        match o {
            SOp::And(ops) => ops_within_all(ops),
            SOp::Or(ops) => ops_within_all(ops),
            SOp::Cmp(a, b, _, _) => ops_in_val(a).union(ops_in_val(b)),
            SOp::Match(v, _, _) => ops_in_val(v),
            SOp::Val(v) => ops_in_val(v),
            SOp::Negate(x) => ops_within(*x),
        },
    )
}

pub open spec fn ops_within_all(s: Seq<SOp>) -> Set<SOp>
    decreases s,
{
    if s.len() == 0 {
        Set::empty()
    } else {
        ops_within_all(s.drop_last()).union(ops_within(s.last()))
    }
}

/// The conditions nested in a value.
pub open spec fn ops_in_val(v: SVal) -> Set<SOp>
    decreases v,
{
    match v {
        SVal::Expression(o) => ops_within(*o),
        SVal::FnCall(_, args) => ops_in_vals(args),
        SVal::MethodCall(r, _, args) => ops_in_val(*r).union(ops_in_vals(args)),
        _ => Set::empty(),
    }
}

pub open spec fn ops_in_vals(s: Seq<SVal>) -> Set<SOp>
    decreases s,
{
    if s.len() == 0 {
        Set::empty()
    } else {
        ops_in_vals(s.drop_last()).union(ops_in_val(s.last()))
    }
}

/// No two different conditions of `s` have the same hash.
pub open spec fn hash_injective(s: Set<SOp>) -> bool {
    forall|a: SOp, b: SOp|
        #![trigger s.contains(a), s.contains(b)]
        s.contains(a) && s.contains(b) && op_hash(a) == op_hash(b) ==> a == b
}

/// Each cached result under the hash of a condition of `s` is that condition's result.
pub open spec fn cache_sound(m: Map<u64, bool>, ev: EventView, s: Set<SOp>) -> bool {
    forall|o: SOp| #[trigger] s.contains(o) && m.contains_key(op_hash(o)) ==> m[op_hash(o)] == eval(o, ev)
}

pub proof fn lemma_size_ops_elem(s: Seq<SOp>, i: int)
    requires
        0 <= i < s.len(),
    ensures
        size_op(s[i]) <= size_ops(s),
    decreases s.len(),
{
    if i < s.len() - 1 {
        lemma_size_ops_elem(s.drop_last(), i);
    }
}

pub proof fn lemma_size_vals_elem(s: Seq<SVal>, i: int)
    requires
        0 <= i < s.len(),
    ensures
        size_val(s[i]) <= size_vals(s),
    decreases s.len(),
{
    if i < s.len() - 1 {
        lemma_size_vals_elem(s.drop_last(), i);
    }
}

pub proof fn lemma_ops_within_all_elem(s: Seq<SOp>, i: int)
    requires
        0 <= i < s.len(),
    ensures
        ops_within(s[i]).subset_of(ops_within_all(s)),
    decreases s.len(),
{
    if i < s.len() - 1 {
        lemma_ops_within_all_elem(s.drop_last(), i);
    }
}

pub proof fn lemma_ops_in_vals_elem(s: Seq<SVal>, i: int)
    requires
        0 <= i < s.len(),
    ensures
        ops_in_val(s[i]).subset_of(ops_in_vals(s)),
    decreases s.len(),
{
    if i < s.len() - 1 {
        lemma_ops_in_vals_elem(s.drop_last(), i);
    }
}

/// A condition is among the conditions nested in it.
pub proof fn lemma_ops_within_self(o: SOp)
    ensures
        ops_within(o).contains(o),
{
}

/// Dropping conditions keeps hashes apart.
pub proof fn lemma_injective_subset(s: Set<SOp>, t: Set<SOp>)
    requires
        hash_injective(s),
        t.subset_of(s),
    ensures
        hash_injective(t),
{
    assert forall|a: SOp, b: SOp|
        #![trigger t.contains(a), t.contains(b)]
        t.contains(a) && t.contains(b) && op_hash(a) == op_hash(b) implies a == b by {
        assert(s.contains(a) && s.contains(b));
    }
}

/// A prefix of the arguments that fails makes the whole list fail.
pub proof fn lemma_fn_args_prefix_fails(s: Seq<SVal>, k: int, ev: EventView)
    requires
        0 <= k <= s.len(),
        fn_args(s.take(k), ev) is None,
    ensures
        fn_args(s, ev) is None,
    decreases s.len() - k,
{
    if k == s.len() {
        assert(s.take(k) =~= s);
    } else {
        assert(s.take(k + 1).drop_last() =~= s.take(k));
        lemma_fn_args_prefix_fails(s, k + 1, ev);
    }
}

/// One condition of a prefix that holds makes the disjunction hold.
pub proof fn lemma_eval_any_prefix(s: Seq<SOp>, k: int, ev: EventView)
    requires
        0 <= k <= s.len(),
        eval_any(s.take(k), ev),
    ensures
        eval_any(s, ev),
    decreases s.len() - k,
{
    if k == s.len() {
        assert(s.take(k) =~= s);
    } else {
        assert(s.take(k + 1).drop_last() =~= s.take(k));
        lemma_eval_any_prefix(s, k + 1, ev);
    }
}

/// One condition of a prefix that fails makes the conjunction fail.
pub proof fn lemma_eval_all_prefix(s: Seq<SOp>, k: int, ev: EventView)
    requires
        0 <= k <= s.len(),
        !eval_all(s.take(k), ev),
    ensures
        !eval_all(s, ev),
    decreases s.len() - k,
{
    if k == s.len() {
        assert(s.take(k) =~= s);
    } else {
        assert(s.take(k + 1).drop_last() =~= s.take(k));
        lemma_eval_all_prefix(s, k + 1, ev);
    }
}

/// The conditions of a rule that are evaluated on their own: the leaves below its
/// conjunctions and disjunctions, left to right.
pub open spec fn simple_ops(o: SOp) -> Seq<SOp>
    decreases o,
{
    match o {
        SOp::And(ops) => simple_ops_all(ops),
        SOp::Or(ops) => simple_ops_all(ops),
        _ => seq![o],
    }
}

pub open spec fn simple_ops_all(s: Seq<SOp>) -> Seq<SOp>
    decreases s,
{
    if s.len() == 0 {
        Seq::empty()
    } else {
        simple_ops_all(s.drop_last()) + simple_ops(s.last())
    }
}

/// The conjunctions and disjunctions of a rule, each after those nested in it.
pub open spec fn complex_ops(o: SOp) -> Seq<SOp>
    decreases o,
{
    match o {
        SOp::And(ops) => complex_ops_all(ops).push(o),
        SOp::Or(ops) => complex_ops_all(ops).push(o),
        _ => Seq::empty(),
    }
}

pub open spec fn complex_ops_all(s: Seq<SOp>) -> Seq<SOp>
    decreases s,
{
    if s.len() == 0 {
        Seq::empty()
    } else {
        complex_ops_all(s.drop_last()) + complex_ops(s.last())
    }
}

/// `a op b` on integers is `b swap(op) a`.
pub proof fn law_swap_flips_int_operands(c: Comparator, x: int, y: int)
    ensures
        int_order(swapped(c), y, x) == int_order(c, x, y),
{
}

/// `a op b` on decimals is `b swap(op) a`; equality up to 10^-6 is symmetric.
pub proof fn law_swap_flips_float_operands(c: Comparator, x: Float, y: Float)
    ensures
        float_order(swapped(c), y, x) == float_order(c, x, y),
{
}

/// The negated comparator holds on integers exactly when the comparator does not.
pub proof fn law_negate_complements_int(c: Comparator, x: int, y: int)
    ensures
        match int_order(c, x, y) {
            Some(b) => int_order(crate::val::negated(c), x, y) == Some(!b),
            None => int_order(crate::val::negated(c), x, y) is None,
        },
{
}

/// A disjunction holds exactly when one of its parts holds.
pub proof fn law_or_holds_iff_some_part(ops: Seq<SOp>, ev: EventView)
    ensures
        eval_any(ops, ev) <==> exists|i: int| 0 <= i < ops.len() && #[trigger] eval(ops[i], ev),
    decreases ops.len(),
{
    if ops.len() > 0 {
        let init = ops.drop_last();
        law_or_holds_iff_some_part(init, ev);
        if eval_any(init, ev) {
            let i = choose|i: int| 0 <= i < init.len() && #[trigger] eval(init[i], ev);
            assert(ops[i] == init[i]);
        }
        if exists|i: int| 0 <= i < ops.len() && #[trigger] eval(ops[i], ev) {
            let i = choose|i: int| 0 <= i < ops.len() && #[trigger] eval(ops[i], ev);
            if i < ops.len() - 1 {
                assert(init[i] == ops[i]);
            }
        }
        if eval(ops.last(), ev) {
            assert(eval(ops[ops.len() - 1], ev));
        }
    }
}

/// A conjunction holds exactly when all of its parts hold.
pub proof fn law_and_holds_iff_all_parts(ops: Seq<SOp>, ev: EventView)
    ensures
        eval_all(ops, ev) <==> forall|i: int| 0 <= i < ops.len() ==> #[trigger] eval(ops[i], ev),
    decreases ops.len(),
{
    if ops.len() > 0 {
        let init = ops.drop_last();
        law_and_holds_iff_all_parts(init, ev);
        if eval_all(ops, ev) {
            assert forall|i: int| 0 <= i < ops.len() implies #[trigger] eval(ops[i], ev) by {
                if i < ops.len() - 1 {
                    assert(init[i] == ops[i]);
                }
            }
        }
        if forall|i: int| 0 <= i < ops.len() ==> #[trigger] eval(ops[i], ev) {
            assert forall|i: int| 0 <= i < init.len() implies #[trigger] eval(init[i], ev) by {
                assert(init[i] == ops[i]);
            }
            assert(eval(ops[ops.len() - 1], ev));
        }
    }
}

/// A negation holds exactly when the negated condition does not.
pub proof fn law_negation(o: SOp, ev: EventView)
    ensures
        eval(SOp::Negate(Box::new(o)), ev) == !eval(o, ev),
{
}

/// A number compared with a field that holds a number compares exactly as the two numbers
/// written directly: `x c field` is `x c y` for the field's value `y` (the comparison is
/// turned around, comparator and all, not just its operands).
pub proof fn law_number_against_field(x: SVal, m: Seq<char>, c: Comparator, f: Option<InsensitiveFlag>, ev: EventView)
    requires
        x is Int || x is Float,
        ev.fields.contains_key(m),
        ev.fields[m] is Int || ev.fields[m] is Float,
    ensures
        compare_data(x, SVal::Field(m), c, f, ev) == compare_data(x, ev.fields[m], c, f, ev),
{
    reveal_with_fuel(compare_data, 3);
    assert(field_value(ev, m) == Some(ev.fields[m]));
    let y = ev.fields[m];
    match x {
        SVal::Int(i) => match y {
            SVal::Int(j) => law_swap_flips_int_operands(c, i as int, j as int),
            SVal::Float(q) => law_swap_flips_float_operands(c, int_float(i), q),
            _ => {},
        },
        SVal::Float(p) => match y {
            SVal::Int(j) => law_swap_flips_float_operands(c, p, int_float(j)),
            SVal::Float(q) => law_swap_flips_float_operands(c, p, q),
            _ => {},
        },
        _ => {},
    }
}

/// A decimal compared with a field holding a decimal: `p c field` holds exactly when
/// `p c y` holds of the numbers (`>` is greater, and so on).
pub proof fn law_decimal_against_decimal_field(p: Float, m: Seq<char>, c: Comparator, ev: EventView)
    requires
        ev.fields.contains_key(m),
        ev.fields[m] is Float,
    ensures
        compare_data(SVal::Float(p), SVal::Field(m), c, None, ev) == float_order(c, p, ev.fields[m]->Float_0),
        c == Comparator::Gt ==> compare_data(SVal::Float(p), SVal::Field(m), c, None, ev) == Some(
            p.0 > ev.fields[m]->Float_0.0,
        ),
        c == Comparator::Lt ==> compare_data(SVal::Float(p), SVal::Field(m), c, None, ev) == Some(
            p.0 < ev.fields[m]->Float_0.0,
        ),
{
    law_number_against_field(SVal::Float(p), m, c, None, ev);
}

/// `v !~ re` holds exactly when `v =~ re` does not; both are undecided on the same
/// values.
pub proof fn law_not_match_negates_match(re: RegexView, v: SVal, ev: EventView)
    ensures
        match_regex(re, v, Comparator::Nmatch, ev) is Some <==> match_regex(re, v, Comparator::Match, ev) is Some,
        match_regex(re, v, Comparator::Match, ev) is Some ==> match_regex(re, v, Comparator::Nmatch, ev)->0
            == !match_regex(re, v, Comparator::Match, ev)->0,
{
}

/// The text `!~` in a condition reads as a comparator under which a value matches a regex
/// exactly when it does not under `=~`.
pub proof fn law_lexed_not_match(s: Seq<char>, i: int, re: RegexView, v: SVal, ev: EventView)
    requires
        0 <= i,
        i + 1 < s.len(),
        s[i] == '!',
        s[i + 1] == '~',
    ensures
        token_at(s, i) matches Some((Tok::Cmp(c, None), j)) && j == i + 2 && ({
            &&& match_regex(re, v, c, ev) is Some <==> match_regex(re, v, Comparator::Match, ev) is Some
            &&& match_regex(re, v, Comparator::Match, ev) is Some ==> match_regex(re, v, c, ev)->0
                == !match_regex(re, v, Comparator::Match, ev)->0
        }),
{
    law_not_match_operator(s, i);
    law_not_match_negates_match(re, v, ev);
}

} // verus!
