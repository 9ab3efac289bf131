//! Evaluating conditions against events, with results cached by condition hash.
use vstd::prelude::*;
use crate::ast::{
    clone_container, containers_view, lemma_containers_push, lemma_containers_view,
    lemma_vals_view, op_hash, vals_view, FnCall, Operand, OperandContainer, SOp, SVal, Val,
};
use crate::event::{is_data, Event};
use crate::fat_string::{FatString, InsensitiveFlag};
use crate::float::{float_eq, Float};
use vstd::string::StringExecFns;
use crate::pattern::RadeRegex;
use crate::functions::{concat, is_empty, length, lookup_function, split, FnId};
use crate::semantics::{
    apply_id, as_bool, bool_of, cache_sound, call, compare, compare_data, eval, eval_all, eval_any,
    fn_arg, fn_args, float_order, hash_injective, indexed_int, indexed_str, indexed_value,
    int_order, lemma_eval_all_prefix, lemma_eval_any_prefix, lemma_fn_args_prefix_fails,
    lemma_injective_subset, lemma_ops_within_all_elem, lemma_ops_within_self, lemma_size_ops_elem,
    lemma_size_val_pos, lemma_size_vals_elem, match_regex, number_of, ops_in_val, ops_within,
    simple_ops, simple_ops_all, complex_ops, complex_ops_all, size_op, size_ops, size_val,
    size_vals, text_of, text_order,
};
use crate::val::{
    fail, fat_strings_view, Bool, Comparator, Field, Int, IntList, RadeResult, Str, StrList,
};
use crate::fat_string::insensitive_form;
use crate::float::FLOAT_SCALE;
use crate::parser::is_boolean_val;
use crate::semantics::field_value;
use crate::text::{
    seq_contains, seq_ends_with, seq_starts_with, str_contains, str_ends_with, str_starts_with,
    string_from_chars,
};

verus! {

broadcast use crate::ast::lemma_container_view;

/// Results of conditions by hash, in a hashbrown map.
#[verifier::external_body]
pub struct ResultMap {
    map: hashbrown::HashMap<u64, bool>,
}

/// The hash-to-result map that a `ResultMap` holds.
pub uninterp spec fn result_map_contents(m: ResultMap) -> Map<u64, bool>;

/// The map without entries.
pub open spec fn no_results() -> Map<u64, bool> {
    Map::empty()
}

impl ResultMap {
    /// `hashbrown::HashMap::new`: a map without entries.
    #[verifier::external_body]
    fn empty_map() -> (r: ResultMap)
        ensures
            result_map_contents(r) == no_results(),
    {
        ResultMap { map: hashbrown::HashMap::new() }
    }

    /// A cache without results.
    pub fn new() -> (r: ResultMap)
        ensures
            result_map_contents(r) == no_results(),
    {
        ResultMap::empty_map()
    }

    /// `hashbrown::HashMap::get`: the result cached under `key`, if any.
    #[verifier::external_body]
    pub(crate) fn get(&self, key: u64) -> (r: Option<bool>)
        ensures
            match r {
                Some(b) => result_map_contents(*self).contains_key(key) && result_map_contents(
                    *self,
                )[key] == b,
                None => !result_map_contents(*self).contains_key(key),
            },
    {
        self.map.get(&key).copied()
    }

    /// `hashbrown::HashMap::insert`: afterwards `key` maps to `value`, other keys keep
    /// theirs.
    #[verifier::external_body]
    pub(crate) fn insert(&mut self, key: u64, value: bool)
        ensures
            result_map_contents(*final(self)) == result_map_contents(*old(self)).insert(key, value),
    {
        self.map.insert(key, value);
    }
}

/// `r` reports the value `s` stands for: `Ok` with that value, or an error for `None`.
pub open spec fn val_result(r: RadeResult<Val>, s: Option<SVal>) -> bool {
    match s {
        Some(v) => r is Ok && r->Ok_0@ == v,
        None => r is Err,
    }
}

/// Every key of `after` that `before` lacks is the hash of a condition of `s`.
pub open spec fn keys_from(before: Map<u64, bool>, after: Map<u64, bool>, s: Set<SOp>) -> bool {
    forall|h: u64| #[trigger]
        after.contains_key(h) ==> before.contains_key(h) || exists|o: SOp| #[trigger]
            s.contains(o) && op_hash(o) == h
}

/// Every entry of `before` is in `after` with the same result.
pub open spec fn keeps_results(before: Map<u64, bool>, after: Map<u64, bool>) -> bool {
    forall|h: u64| #[trigger]
        before.contains_key(h) ==> after.contains_key(h) && after[h] == before[h]
}

/// The error text of `validate_bool` for a value that cannot stand alone.
pub open spec fn not_boolean_text(v: SVal) -> Seq<char> {
    match v {
        SVal::FnCall(n, _) => match crate::functions::fn_ret_type(n) {
            Some(_) => "Function "@ + n + " does not return a boolean"@,
            None => "Function "@ + n + " not found"@,
        },
        SVal::MethodCall(_, m, _) => match crate::methods::method_returns_bool(m) {
            Some(_) => "Method "@ + m + " does not return a boolean"@,
            None => "Unknown method: "@ + m,
        },
        _ => "Not a boolean: "@ + crate::debug_form::val_debug(v),
    }
}

/// An error with the given text.
pub(crate) fn fail_text<T>(msg: &str) -> (r: RadeResult<T>)
    ensures
        r is Err && r->Err_0@ == msg@,
{
    Err(msg.to_owned())
}

/// `r` reports the boolean `s` stands for.
pub open spec fn bool_result(r: RadeResult<bool>, s: Option<bool>) -> bool {
    match s {
        Some(b) => r is Ok && r->Ok_0 == b,
        None => r is Err,
    }
}

/// Each string of `v` with its insensitive forms.
fn fat_strings_of(v: Vec<String>) -> (r: Vec<FatString>)
    ensures
        fat_strings_view(r@) == v@.map_values(|x: String| x@),
{
    let mut out: Vec<FatString> = Vec::new();
    let mut i: usize = 0;
    while i < v.len()
        invariant
            i <= v@.len(),
            fat_strings_view(out@) == v@.take(i as int).map_values(|x: String| x@),
        decreases v.len() - i,
    {
        let ghost before = out@;
        let f = FatString::new(v[i].clone());
        out.push(f);
        proof {
            assert(fat_strings_view(out@) =~= fat_strings_view(before).push(f@));
            assert(v@.take(i + 1).map_values(|x: String| x@) =~= v@.take(i as int).map_values(
                |x: String| x@,
            ).push(v@[i as int]@));
        }
        i = i + 1;
    }
    proof {
        assert(v@.take(v@.len() as int) =~= v@);
    }
    out
}

impl Val {
    /// A boolean value as a `bool`.
    pub fn to_bool(&self) -> (r: RadeResult<bool>)
        ensures
            bool_result(r, bool_of(self@)),
    {
        match self {
            Val::Bool(b) => Ok(b.0),
            _ => fail("Cannot convert to bool"),
        }
    }

    /// An integer value as an `i64`.
    pub fn to_i64(&self) -> (r: RadeResult<i64>)
        ensures
            match self@ {
                SVal::Int(i) => r is Ok && r->Ok_0 == i,
                _ => r is Err,
            },
    {
        match self {
            Val::Int(i) => Ok(i.0),
            _ => fail("Cannot convert to i64"),
        }
    }

    /// A decimal value as a `Float`.
    pub fn to_f64(&self) -> (r: RadeResult<Float>)
        ensures
            match self@ {
                SVal::Float(x) => r is Ok && r->Ok_0 == x,
                _ => r is Err,
            },
    {
        match self {
            Val::Float(x) => Ok(*x),
            _ => fail("Cannot convert to f64"),
        }
    }

    /// A string value as a `String`.
    pub fn to_string(&self) -> (r: RadeResult<String>)
        ensures
            match self@ {
                SVal::Str(s) => r is Ok && r->Ok_0@ == s,
                _ => r is Err,
            },
    {
        match self {
            Val::Str(s) => Ok(s.0.plain().to_owned()),
            _ => fail("Cannot convert to String"),
        }
    }

    /// A string-list value as strings.
    pub fn to_str_list(&self) -> (r: RadeResult<Vec<String>>)
        ensures
            match self@ {
                SVal::StrList(l) => r is Ok && r->Ok_0@.map_values(|x: String| x@) == l,
                _ => r is Err,
            },
    {
        match self {
            Val::StrList(l) => {
                let mut out: Vec<String> = Vec::new();
                let mut i: usize = 0;
                while i < l.0.len()
                    invariant
                        i <= l.0@.len(),
                        out@.map_values(|x: String| x@) == fat_strings_view(l.0@).take(i as int),
                    decreases l.0.len() - i,
                {
                    let ghost before = out@;
                    let t = l.0[i].plain().to_owned();
                    out.push(t);
                    proof {
                        assert(out@.map_values(|x: String| x@) =~= before.map_values(
                            |x: String| x@,
                        ).push(l.0@[i as int]@));
                        assert(out@.map_values(|x: String| x@) =~= fat_strings_view(l.0@).take(
                            i + 1,
                        ));
                    }
                    i = i + 1;
                }
                proof {
                    assert(fat_strings_view(l.0@).take(l.0@.len() as int) =~= fat_strings_view(
                        l.0@,
                    ));
                }
                Ok(out)
            },
            _ => fail("Cannot convert to Vec<String>"),
        }
    }

    /// The text the value stands for under `comp_flag` (see `text_of`).
    pub fn as_str<'a>(&'a self, event: &'a Event, comp_flag: &Option<InsensitiveFlag>) -> (r:
        RadeResult<&'a str>)
        ensures
            match text_of(self@, *comp_flag, event@) {
                Some(t) => r is Ok && r->Ok_0@ == t,
                None => r is Err,
            },
    {
        match self {
            Val::Str(s) => Ok(s.0.choose_form(comp_flag)),
            Val::StrList(l) => {
                if l.0.len() == 0 {
                    fail("StrList is empty")
                } else {
                    Ok(l.0[0].choose_form(comp_flag))
                }
            },
            Val::Field(f) => match event.get_str_field(&f.0) {
                Ok(fs) => Ok(fs.choose_form(comp_flag)),
                Err(e) => Err(e),
            },
            Val::FieldIndex(f, i) => match f.get_str(event, *i) {
                Ok(fs) => Ok(fs.choose_form(comp_flag)),
                Err(e) => Err(e),
            },
            _ => fail("Cannot convert to &str"),
        }
    }

    /// The number the value stands for (see `number_of`).
    pub fn as_f64(&self, event: &Event) -> (r: RadeResult<Float>)
        ensures
            match number_of(self@, event@) {
                Some(x) => r is Ok && r->Ok_0 == x,
                None => r is Err,
            },
    {
        match self {
            Val::Int(i) => Ok(Float::from_int(i.0)),
            Val::Float(x) => Ok(*x),
            Val::FieldIndex(f, i) => match f.get_int(event, *i) {
                Ok(x) => Ok(Float::from_int(x)),
                Err(e) => Err(e),
            },
            _ => fail("Cannot convert to f64"),
        }
    }

    /// The value of a call argument (see `fn_arg`); the cache is left as it was.
    pub fn fn_arg(&self, event: &Event, cache: &mut ResultMap) -> (r: RadeResult<Val>)
        ensures
            val_result(r, fn_arg(self@, event@)),
            r is Ok ==> is_data(r->Ok_0@),
            result_map_contents(*final(cache)) == result_map_contents(*old(cache)),
        decreases size_val(self@), 0int,
    {
        match self {
            Val::Field(f) => match event.get_field(&f.0) {
                Ok(v) => Ok(v.clone()),
                Err(e) => Err(e),
            },
            Val::FieldIndex(f, i) => f.get_val(event, *i),
            Val::FnCall(fc) => fc.call(event, cache),
            Val::MethodCall(mc) => mc.call(event, cache),
            Val::Expression(_) => fail("Expression cannot be function argument"),
            Val::Regex(_) => fail("Regex cannot be function argument"),
            Val::Bool(b) => Ok(Val::Bool(Bool(b.0))),
            Val::Int(i) => Ok(Val::Int(Int(i.0))),
            Val::Float(x) => Ok(Val::Float(*x)),
            _ => Ok(self.clone()),
        }
    }
}

impl Field {
    /// `name[index]`: an element of a list field (see `indexed_value`).
    pub fn get_val(&self, event: &Event, index: i64) -> (r: RadeResult<Val>)
        ensures
            val_result(r, indexed_value(event@, self.0@, index)),
            r is Ok ==> is_data(r->Ok_0@),
    {
        match event.get_field(&self.0) {
            Ok(Val::StrList(l)) => match l.get(index) {
                Ok(s) => Ok(Val::Str(Str(s.clone()))),
                Err(e) => Err(e),
            },
            Ok(Val::IntList(l)) => match l.get(index) {
                Ok(x) => Ok(Val::Int(Int(*x))),
                Err(e) => Err(e),
            },
            Ok(_) => Err(crate::text::text3("Field index ", int_to_text(index).as_str(), " not found")),
            Err(e) => Err(e),
        }
    }

    /// `name[index]` of a string-list field.
    pub fn get_str<'a>(&self, event: &'a Event, index: i64) -> (r: RadeResult<&'a FatString>)
        ensures
            match indexed_str(event@, self.0@, index) {
                Some(s) => r is Ok && r->Ok_0@ == s,
                None => r is Err,
            },
    {
        match event.get_field(&self.0) {
            Ok(Val::StrList(l)) => l.get(index),
            Ok(_) => Err(crate::text::text3("Field index ", int_to_text(index).as_str(), " not found")),
            Err(e) => Err(e),
        }
    }

    /// `name[index]` of an integer-list field.
    pub fn get_int(&self, event: &Event, index: i64) -> (r: RadeResult<i64>)
        ensures
            match indexed_int(event@, self.0@, index) {
                Some(x) => r is Ok && r->Ok_0 == x,
                None => r is Err,
            },
    {
        match event.get_field(&self.0) {
            Ok(Val::IntList(l)) => match l.get(index) {
                Ok(x) => Ok(*x),
                Err(e) => Err(e),
            },
            Ok(_) => Err(crate::text::text3("Field index ", int_to_text(index).as_str(), " not found")),
            Err(e) => Err(e),
        }
    }
}

/// The name a function is registered under.
pub open spec fn fn_name_of(id: FnId) -> Seq<char> {
    match id {
        FnId::Concat => seq!['c', 'o', 'n', 'c', 'a', 't'],
        FnId::Split => seq!['s', 'p', 'l', 'i', 't'],
        FnId::Length => seq!['l', 'e', 'n', 'g', 't', 'h'],
        FnId::IsEmpty => seq!['i', 's', '_', 'e', 'm', 'p', 't', 'y'],
        FnId::FloatSum => seq!['f', 'l', 'o', 'a', 't', '_', 's', 'u', 'm'],
    }
}

/// The error text for a call that lacks its argument `i`.
pub open spec fn missing_arg_text(i: int, name: Seq<char>) -> Seq<char> {
    "Missing argument "@ + int_text(i) + " for function "@ + name
}

/// An error for a call of `name` that lacks its argument `i`.
fn missing_argument<T>(i: i64, name: &str) -> (r: RadeResult<T>)
    ensures
        r is Err && r->Err_0@ == missing_arg_text(i as int, name@),
{
    let n = int_to_text(i);
    Err(crate::text::text3("Missing argument ", n.as_str(), " for function ").concat(name))
}

/// The registered function `id` applied to argument values (see `apply_id`). A call
/// without arguments reports the missing argument 0; a two-argument function whose first
/// argument is right but whose second is missing reports the missing argument 1.
#[verifier::rlimit(100)]
#[verifier::spinoff_prover]
fn apply_function(id: FnId, args: &Vec<Val>) -> (r: RadeResult<Val>)
    ensures
        val_result(r, apply_id(id, vals_view(args@))),
        r is Ok ==> is_data(r->Ok_0@),
        args@.len() == 0 ==> r is Err && r->Err_0@ == missing_arg_text(0, fn_name_of(id)),
        args@.len() == 1 && ((id is Split && args@[0]@ is Str) || (id is FloatSum && args@[0]@ is Float))
            ==> r is Err && r->Err_0@ == missing_arg_text(1, fn_name_of(id)),
{
    proof {
        lemma_vals_view(args@);
    }
    match id {
        FnId::Concat => {
            if args.len() < 1 {
                proof {
                    reveal_strlit("concat");
                }
                return missing_argument(0, "concat");
            }
            match args[0].to_str_list() {
                Ok(l) => Ok(Val::Str(Str(FatString::new(concat(l))))),
                Err(e) => Err(e),
            }
        },
        FnId::Split => {
            if args.len() < 1 {
                proof {
                    reveal_strlit("split");
                }
                return missing_argument(0, "split");
            }
            let text = match args[0].to_string() {
                Ok(x) => x,
                Err(e) => return Err(e),
            };
            if args.len() < 2 {
                proof {
                    reveal_strlit("split");
                }
                return missing_argument(1, "split");
            }
            match args[1].to_string() {
                Ok(d) => {
                    let pieces = split(text, d);
                    Ok(Val::StrList(StrList(fat_strings_of(pieces))))
                },
                Err(e) => Err(e),
            }
        },
        FnId::Length => {
            if args.len() < 1 {
                proof {
                    reveal_strlit("length");
                }
                return missing_argument(0, "length");
            }
            match args[0].to_string() {
                Ok(s) => Ok(Val::Int(Int(length(s)))),
                Err(e) => Err(e),
            }
        },
        FnId::IsEmpty => {
            if args.len() < 1 {
                proof {
                    reveal_strlit("is_empty");
                }
                return missing_argument(0, "is_empty");
            }
            match args[0].to_string() {
                Ok(s) => Ok(Val::Bool(Bool(is_empty(s)))),
                Err(e) => Err(e),
            }
        },
        FnId::FloatSum => {
            if args.len() < 1 {
                proof {
                    reveal_strlit("float_sum");
                }
                return missing_argument(0, "float_sum");
            }
            let a = match args[0].to_f64() {
                Ok(x) => x,
                Err(e) => return Err(e),
            };
            if args.len() < 2 {
                proof {
                    reveal_strlit("float_sum");
                }
                return missing_argument(1, "float_sum");
            }
            match args[1].to_f64() {
                Ok(b) => match a.checked_add(b) {
                    Some(x) => Ok(Val::Float(x)),
                    None => fail("The sum is out of range"),
                },
                Err(e) => Err(e),
            }
        },
    }
}

impl FnCall {
    pub fn new(name: String, args: Vec<Val>) -> (r: FnCall)
        ensures
            r.name@ == name@,
            r.args@ == args@,
    {
        FnCall { name, args }
    }

    pub fn name(&self) -> (r: &String)
        ensures
            r@ == self.name@,
    {
        &self.name
    }

    /// Whether the called function gives a boolean; an error when no function has the name.
    pub fn is_bool(&self) -> (r: RadeResult<bool>)
        ensures
            match crate::functions::fn_ret_type(self.name@) {
                Some(t) => r is Ok && r->Ok_0 == (t == crate::val::ValType::Bool),
                None => r is Err && r->Err_0@ == "Function "@ + self.name@ + " not found"@,
            },
    {
        match crate::functions::return_type(self.name.as_str()) {
            Some(crate::val::ValType::Bool) => Ok(true),
            Some(_) => Ok(false),
            None => Err(crate::text::text3("Function ", self.name.as_str(), " not found")),
        }
    }

    /// Calls the function on its evaluated arguments (see `call`); the cache is left as
    /// it was.
    pub fn call(&self, event: &Event, cache: &mut ResultMap) -> (r: RadeResult<Val>)
        ensures
            val_result(r, call(self.name@, vals_view(self.args@), event@)),
            r is Ok ==> is_data(r->Ok_0@),
            result_map_contents(*final(cache)) == result_map_contents(*old(cache)),
            fn_args(vals_view(self.args@), event@) is Some && crate::functions::fn_id_of(self.name@)
                is None ==> r is Err && r->Err_0@ == "Function "@ + self.name@ + " not found"@,
        decreases size_vals(vals_view(self.args@)), 2int,
    {
        let ghost args = vals_view(self.args@);
        proof {
            lemma_vals_view(self.args@);
            assert(args.take(0) =~= Seq::<SVal>::empty());
            assert(vals_view(Seq::<Val>::empty()) =~= Seq::<SVal>::empty());
        }
        let mut vals: Vec<Val> = Vec::new();
        let mut i: usize = 0;
        while i < self.args.len()
            invariant
                i <= self.args@.len(),
                args == vals_view(self.args@),
                args.len() == self.args@.len(),
                forall|j: int| 0 <= j < self.args@.len() ==> #[trigger] args[j] == self.args@[j]@,
                fn_args(args.take(i as int), event@) == Some(vals_view(vals@)),
                result_map_contents(*cache) == result_map_contents(*old(cache)),
            decreases self.args.len() - i,
        {
            proof {
                lemma_size_vals_elem(args, i as int);
                assert(args.take(i + 1).drop_last() =~= args.take(i as int));
                assert(args.take(i + 1).last() == args[i as int]);
            }
            match self.args[i].fn_arg(event, cache) {
                Ok(v) => {
                    let ghost before = vals@;
                    vals.push(v);
                    proof {
                        assert(vals@.drop_last() =~= before);
                    }
                },
                Err(e) => {
                    proof {
                        lemma_fn_args_prefix_fails(args, i + 1, event@);
                    }
                    return Err(e);
                },
            }
            i = i + 1;
        }
        proof {
            assert(args.take(args.len() as int) =~= args);
        }
        match lookup_function(self.name.as_str()) {
            Some(id) => apply_function(id, &vals),
            None => Err(crate::text::text3("Function ", self.name.as_str(), " not found")),
        }
    }
}

/// The values of call arguments, in order (see `fn_args`); the cache is left as it was.
fn eval_args(args: &Vec<Val>, event: &Event, cache: &mut ResultMap) -> (r: RadeResult<Vec<Val>>)
    ensures
        match fn_args(vals_view(args@), event@) {
            Some(vs) => r is Ok && vals_view(r->Ok_0@) == vs,
            None => r is Err,
        },
        r is Ok ==> forall|j: int| 0 <= j < r->Ok_0@.len() ==> is_data(#[trigger] r->Ok_0@[j]@),
        result_map_contents(*final(cache)) == result_map_contents(*old(cache)),
    decreases size_vals(vals_view(args@)), 1int,
{
    let ghost sargs = vals_view(args@);
    proof {
        lemma_vals_view(args@);
        assert(sargs.take(0) =~= Seq::<SVal>::empty());
        assert(vals_view(Seq::<Val>::empty()) =~= Seq::<SVal>::empty());
    }
    let mut vals: Vec<Val> = Vec::new();
    let mut i: usize = 0;
    while i < args.len()
        invariant
            i <= args@.len(),
            sargs == vals_view(args@),
            sargs.len() == args@.len(),
            vals@.len() == i,
            forall|j: int| 0 <= j < args@.len() ==> #[trigger] sargs[j] == args@[j]@,
            fn_args(sargs.take(i as int), event@) == Some(vals_view(vals@)),
            forall|j: int| 0 <= j < vals@.len() ==> is_data(#[trigger] vals@[j]@),
            result_map_contents(*cache) == result_map_contents(*old(cache)),
        decreases args.len() - i,
    {
        proof {
            lemma_size_vals_elem(sargs, i as int);
            assert(sargs.take(i + 1).drop_last() =~= sargs.take(i as int));
            assert(sargs.take(i + 1).last() == sargs[i as int]);
        }
        match args[i].fn_arg(event, cache) {
            Ok(v) => {
                let ghost before = vals@;
                vals.push(v);
                proof {
                    assert(vals@.drop_last() =~= before);
                }
            },
            Err(e) => {
                proof {
                    lemma_fn_args_prefix_fails(sargs, i + 1, event@);
                }
                return Err(e);
            },
        }
        i = i + 1;
    }
    proof {
        assert(sargs.take(sargs.len() as int) =~= sargs);
    }
    Ok(vals)
}

impl crate::ast::MethodCall {
    /// Calls the method on the value of the receiver and of the arguments (see
    /// `method_call`); the cache is left as it was.
    pub fn call(&self, event: &Event, cache: &mut ResultMap) -> (r: RadeResult<Val>)
        ensures
            val_result(r, crate::semantics::method_call(self.receiver@, self.method@, vals_view(self.args@), event@)),
            r is Ok ==> is_data(r->Ok_0@),
            result_map_contents(*final(cache)) == result_map_contents(*old(cache)),
            match (fn_arg(self.receiver@, event@), fn_args(vals_view(self.args@), event@)) {
                (Some(rv), Some(vs)) => r is Err ==> r->Err_0@ == crate::methods::apply_method_error(
                    rv,
                    self.method@,
                    vs,
                ),
                _ => true,
            },
        decreases size_val(self.receiver@) + size_vals(vals_view(self.args@)), 2int,
    {
        proof {
            lemma_size_val_pos(self.receiver@);
        }
        let rv = match self.receiver.fn_arg(event, cache) {
            Ok(v) => v,
            Err(e) => return Err(e),
        };
        let vals = match eval_args(&self.args, event, cache) {
            Ok(vs) => vs,
            Err(e) => return Err(e),
        };
        self.apply(&rv, &vals)
    }
}

fn int_compare(c: &Comparator, x: i64, y: i64) -> (r: RadeResult<bool>)
    ensures
        bool_result(r, int_order(*c, x as int, y as int)),
{
    match c {
        Comparator::Eq => Ok(x == y),
        Comparator::Neq => Ok(x != y),
        Comparator::Gt => Ok(x > y),
        Comparator::Lt => Ok(x < y),
        Comparator::Ge => Ok(x >= y),
        Comparator::Le => Ok(x <= y),
        _ => fail("Match comparators are supported only for regex matching"),
    }
}

fn float_compare(c: &Comparator, x: Float, y: Float) -> (r: RadeResult<bool>)
    ensures
        bool_result(r, float_order(*c, x, y)),
{
    match c {
        Comparator::Eq => Ok(float_eq(x, y)),
        Comparator::Neq => Ok(!float_eq(x, y)),
        Comparator::Gt => Ok(x.0 > y.0),
        Comparator::Lt => Ok(x.0 < y.0),
        Comparator::Ge => Ok(x.0 >= y.0),
        Comparator::Le => Ok(x.0 <= y.0),
        _ => fail("Match comparators are supported only for regex matching"),
    }
}

fn text_compare(c: &Comparator, s: &str, t: &str) -> (r: RadeResult<bool>)
    ensures
        bool_result(r, text_order(*c, s@, t@)),
{
    match c {
        Comparator::Eq => Ok(crate::text::str_eq(s, t)),
        Comparator::Neq => Ok(!crate::text::str_eq(s, t)),
        _ => fail("Invalid comparator for strings"),
    }
}

/// `x c b` for a value `x` that a field, an index or a call gave (see `compare_data`).
fn compare_value(
    x: &Val,
    b: &Val,
    c: &Comparator,
    f: &Option<InsensitiveFlag>,
    event: &Event,
) -> (r: RadeResult<bool>)
    ensures
        hash_injective(ops_in_val(b@)) ==> bool_result(r, compare_data(x@, b@, *c, *f, event@)),
        bool_result(r, crate::cached::compare_data_c(x@, b@, *c, *f, event@)),
        (x@ is Int || x@ is Float) && f is Some ==> r is Err && r->Err_0@
            == "Cannot use case-insensitive flag with numbers"@,
    decreases size_val(b@) + 1, if b@ is Field {
        1int
    } else {
        0int
    },
{
    match x {
        Val::Bool(p) => {
            if f.is_some() {
                return fail("Cannot apply case-insensitive flag to boolean comparison");
            }
            match b.as_bool(event) {
                Ok(q) => match c {
                    Comparator::Eq => Ok(p.0 == q),
                    Comparator::Neq => Ok(p.0 != q),
                    _ => fail("Cannot compare bool with this comparator"),
                },
                Err(e) => Err(e),
            }
        },
        Val::Int(i) => {
            if f.is_some() {
                return fail_text("Cannot use case-insensitive flag with numbers");
            }
            match b {
                Val::Field(m) => match event.get_field(&m.0) {
                    Ok(y) => {
                        let swapped = c.swap();
                        let me = Val::Int(Int(i.0));
                        compare_value(y, &me, &swapped, f, event)
                    },
                    Err(e) => Err(e),
                },
                Val::Int(j) => int_compare(c, i.0, j.0),
                _ => match b.as_f64(event) {
                    Ok(y) => float_compare(c, Float::from_int(i.0), y),
                    Err(e) => Err(e),
                },
            }
        },
        Val::Float(p) => {
            if f.is_some() {
                return fail_text("Cannot use case-insensitive flag with numbers");
            }
            match b {
                Val::Field(m) => match event.get_field(&m.0) {
                    Ok(y) => {
                        let swapped = c.swap();
                        let me = Val::Float(*p);
                        compare_value(y, &me, &swapped, f, event)
                    },
                    Err(e) => Err(e),
                },
                _ => match b.as_f64(event) {
                    Ok(y) => float_compare(c, *p, y),
                    Err(e) => Err(e),
                },
            }
        },
        Val::Str(s) => match b.as_str(event, f) {
            Ok(t) => text_compare(c, s.0.choose_form(f), t),
            Err(e) => Err(e),
        },
        _ => fail("Cannot compare these values"),
    }
}

impl Val {
    /// `self comparator elem` under `flag` (see `compare`): exactly the model's outcome when
    /// no two different conditions nested in the two values share a hash.
    pub fn compare_with(
        &self,
        elem: &Val,
        event: &Event,
        comparator: &Comparator,
        flag: &Option<InsensitiveFlag>,
    ) -> (r: RadeResult<bool>)
        ensures
            hash_injective(ops_in_val(self@).union(ops_in_val(elem@))) ==> bool_result(
                r,
                compare(self@, elem@, *comparator, *flag, event@),
            ),
            bool_result(r, crate::cached::compare_c(self@, elem@, *comparator, *flag, event@)),
            (self@ is Int || self@ is Float) && flag is Some ==> r is Err && r->Err_0@
                == "Cannot use case-insensitive flag with numbers"@,
        decreases size_val(self@) + size_val(elem@), 3int,
    {
        proof {
            lemma_size_val_pos(self@);
            if hash_injective(ops_in_val(self@).union(ops_in_val(elem@))) {
                lemma_injective_subset(ops_in_val(self@).union(ops_in_val(elem@)), ops_in_val(elem@));
            }
        }
        match self {
            Val::Field(fl) => match event.get_field(&fl.0) {
                Ok(x) => compare_value(x, elem, comparator, flag, event),
                Err(e) => Err(e),
            },
            Val::FieldIndex(fl, i) => match fl.get_val(event, *i) {
                Ok(x) => compare_value(&x, elem, comparator, flag, event),
                Err(e) => Err(e),
            },
            Val::FnCall(fc) => {
                let mut fresh = ResultMap::new();
                match fc.call(event, &mut fresh) {
                    Ok(x) => compare_value(&x, elem, comparator, flag, event),
                    Err(e) => Err(e),
                }
            },
            Val::MethodCall(mc) => {
                let mut fresh = ResultMap::new();
                match mc.call(event, &mut fresh) {
                    Ok(x) => compare_value(&x, elem, comparator, flag, event),
                    Err(e) => Err(e),
                }
            },
            _ => compare_value(self, elem, comparator, flag, event),
        }
    }

    /// The value as a condition (see `as_bool`), a sub-condition evaluated with a cache of
    /// its own: exactly the model's outcome when no two different conditions nested in the
    /// value share a hash.
    pub fn as_bool(&self, event: &Event) -> (r: RadeResult<bool>)
        ensures
            hash_injective(ops_in_val(self@)) ==> bool_result(r, as_bool(self@, event@)),
            bool_result(r, crate::cached::as_bool_c(self@, event@)),
        decreases size_val(self@), 0int,
    {
        match self {
            Val::Bool(b) => Ok(b.0),
            Val::Field(f) => event.get_bool_field(&f.0),
            Val::Expression(e) => {
                let mut fresh = ResultMap::new();
                Ok(e.eval_cached(event, &mut fresh, Ghost(ops_within(e@))))
            },
            Val::FnCall(fc) => {
                let mut fresh = ResultMap::new();
                match fc.call(event, &mut fresh) {
                    Ok(v) => v.to_bool(),
                    Err(e) => Err(e),
                }
            },
            Val::MethodCall(mc) => {
                let mut fresh = ResultMap::new();
                match mc.call(event, &mut fresh) {
                    Ok(v) => v.to_bool(),
                    Err(e) => Err(e),
                }
            },
            _ => fail("Type mismatch. Expected boolean."),
        }
    }

    /// The value as a condition with the given cache (see `as_bool`).
    pub(crate) fn as_bool_cached(
        &self,
        event: &Event,
        cache: &mut ResultMap,
        Ghost(s): Ghost<Set<SOp>>,
    ) -> (r: RadeResult<bool>)
        requires
            ops_in_val(self@).subset_of(s),
        ensures
            (hash_injective(s) && cache_sound(result_map_contents(*old(cache)), event@, s)) ==> (
            bool_result(r, as_bool(self@, event@)) && cache_sound(
                result_map_contents(*final(cache)),
                event@,
                s,
            )),
            keeps_results(result_map_contents(*old(cache)), result_map_contents(*final(cache))),
            keys_from(result_map_contents(*old(cache)), result_map_contents(*final(cache)), s),
            bool_result(r, crate::cached::as_bool_cc(self@, event@, result_map_contents(*old(cache))).0),
            result_map_contents(*final(cache)) == crate::cached::as_bool_cc(
                self@,
                event@,
                result_map_contents(*old(cache)),
            ).1,
        decreases size_val(self@), 0int,
    {
        match self {
            Val::Bool(b) => Ok(b.0),
            Val::Field(f) => event.get_bool_field(&f.0),
            Val::Expression(e) => Ok(e.eval_cached(event, cache, Ghost(s))),
            Val::FnCall(fc) => match fc.call(event, cache) {
                Ok(v) => v.to_bool(),
                Err(e) => Err(e),
            },
            Val::MethodCall(mc) => match mc.call(event, cache) {
                Ok(v) => v.to_bool(),
                Err(e) => Err(e),
            },
            _ => fail("Type mismatch. Expected boolean."),
        }
    }
}

impl RadeRegex {
    /// `elem =~ regex` or `elem !~ regex` (see `match_regex`).
    pub fn match_(&self, elem: &Val, event: &Event, comparator: &Comparator) -> (r: RadeResult<bool>)
        ensures
            bool_result(r, match_regex(self@, elem@, *comparator, event@)),
    {
        let flag = self.flag();
        match elem.as_str(event, &flag) {
            Ok(text) => match comparator {
                Comparator::Match => Ok(self.is_match(text)),
                Comparator::Nmatch => Ok(!self.is_match(text)),
                _ => fail("Comparator not supported for regex matching"),
            },
            Err(e) => Err(e),
        }
    }
}

impl OperandContainer {
    /// Evaluates the condition with the given cache, where `s` holds every condition whose
    /// result the cache may hold: when no two conditions of `s` share a hash and the cache
    /// holds true results for them, the result is the model's and the cache stays so.
    #[verifier::spinoff_prover]
    #[verifier::rlimit(50)]
    pub(crate) fn eval_cached(
        &self,
        event: &Event,
        cache: &mut ResultMap,
        Ghost(s): Ghost<Set<SOp>>,
    ) -> (r: bool)
        requires
            ops_within(self@).subset_of(s),
        ensures
            (hash_injective(s) && cache_sound(result_map_contents(*old(cache)), event@, s)) ==> (r
                == eval(self@, event@) && cache_sound(result_map_contents(*final(cache)), event@, s)),
            keeps_results(result_map_contents(*old(cache)), result_map_contents(*final(cache))),
            keys_from(result_map_contents(*old(cache)), result_map_contents(*final(cache)), s),
            result_map_contents(*old(cache)).contains_key(op_hash(self@)) ==> (r
                == result_map_contents(*old(cache))[op_hash(self@)] && result_map_contents(
                *final(cache),
            ) == result_map_contents(*old(cache))),
            result_map_contents(*final(cache)).contains_key(op_hash(self@)),
            result_map_contents(*final(cache))[op_hash(self@)] == r,
            r == crate::cached::cached_eval(self@, event@, result_map_contents(*old(cache))).0,
            result_map_contents(*final(cache)) == crate::cached::cached_eval(
                self@,
                event@,
                result_map_contents(*old(cache)),
            ).1,
        decreases size_op(self@), 0int,
    {
        proof {
            lemma_ops_within_self(self@);
        }
        let h = self.hash();
        let ghost c0 = result_map_contents(*cache);
        let ghost ev = event@;
        let ghost hyp = hash_injective(s) && cache_sound(c0, ev, s);
        if let Some(b) = cache.get(h) {
            return b;
        }
        let res: bool = match &self.op {
            Operand::Or(ops) => {
                let ghost cv = containers_view(ops@);
                proof {
                    lemma_containers_view(ops@);
                    assert(cv.take(0) =~= Seq::<SOp>::empty());
                }
                let mut result = false;
                let mut i: usize = 0;
                while i < ops.len() && !result
                    invariant
                        i <= ops@.len(),
                        cv == containers_view(ops@),
                        cv.len() == ops@.len(),
                        forall|j: int| 0 <= j < ops@.len() ==> #[trigger] cv[j] == ops@[j]@,
                        self@ == SOp::Or(cv),
                        ops_within(self@).subset_of(s),
                        hyp == (hash_injective(s) && cache_sound(c0, ev, s)),
                        ev == event@,
                        hyp ==> (cache_sound(result_map_contents(*cache), ev, s) && result
                            == eval_any(cv.take(i as int), ev)),
                        keeps_results(c0, result_map_contents(*cache)),
                        keys_from(c0, result_map_contents(*cache), s),
                        !result ==> crate::cached::cached_any(cv, 0, ev, c0) == crate::cached::cached_any(
                            cv,
                            i as int,
                            ev,
                            result_map_contents(*cache),
                        ),
                        result ==> crate::cached::cached_any(cv, 0, ev, c0) == (true, result_map_contents(*cache)),
                    decreases ops.len() - i,
                {
                    proof {
                        lemma_size_ops_elem(cv, i as int);
                        lemma_ops_within_all_elem(cv, i as int);
                        assert(cv.take(i + 1).drop_last() =~= cv.take(i as int));
                    }
                    result = ops[i].eval_cached(event, cache, Ghost(s));
                    i = i + 1;
                }
                proof {
                    if hyp {
                        if result {
                            lemma_eval_any_prefix(cv, i as int, ev);
                        } else {
                            assert(cv.take(i as int) =~= cv);
                        }
                    }
                }
                result
            },
            Operand::And(ops) => {
                let ghost cv = containers_view(ops@);
                proof {
                    lemma_containers_view(ops@);
                    assert(cv.take(0) =~= Seq::<SOp>::empty());
                }
                let mut result = true;
                let mut i: usize = 0;
                while i < ops.len() && result
                    invariant
                        i <= ops@.len(),
                        cv == containers_view(ops@),
                        cv.len() == ops@.len(),
                        forall|j: int| 0 <= j < ops@.len() ==> #[trigger] cv[j] == ops@[j]@,
                        self@ == SOp::And(cv),
                        ops_within(self@).subset_of(s),
                        hyp == (hash_injective(s) && cache_sound(c0, ev, s)),
                        ev == event@,
                        hyp ==> (cache_sound(result_map_contents(*cache), ev, s) && result
                            == eval_all(cv.take(i as int), ev)),
                        keeps_results(c0, result_map_contents(*cache)),
                        keys_from(c0, result_map_contents(*cache), s),
                        result ==> crate::cached::cached_all(cv, 0, ev, c0) == crate::cached::cached_all(
                            cv,
                            i as int,
                            ev,
                            result_map_contents(*cache),
                        ),
                        !result ==> crate::cached::cached_all(cv, 0, ev, c0) == (false, result_map_contents(*cache)),
                    decreases ops.len() - i,
                {
                    proof {
                        lemma_size_ops_elem(cv, i as int);
                        lemma_ops_within_all_elem(cv, i as int);
                        assert(cv.take(i + 1).drop_last() =~= cv.take(i as int));
                    }
                    result = ops[i].eval_cached(event, cache, Ghost(s));
                    i = i + 1;
                }
                proof {
                    if hyp {
                        if !result {
                            lemma_eval_all_prefix(cv, i as int, ev);
                        } else {
                            assert(cv.take(i as int) =~= cv);
                        }
                    }
                }
                result
            },
            Operand::Cmp(a, b, c, f) => {
                proof {
                    if hyp {
                        lemma_injective_subset(s, ops_in_val(a@).union(ops_in_val(b@)));
                    }
                }
                match a.compare_with(b, event, c, f) {
                    Ok(x) => x,
                    Err(_) => false,
                }
            },
            Operand::Match(v, re, c) => match re.match_(v, event, c) {
                Ok(x) => x,
                Err(_) => false,
            },
            Operand::Val(v) => match v.as_bool_cached(event, cache, Ghost(s)) {
                Ok(x) => x,
                Err(_) => false,
            },
            Operand::Negate(o) => !o.eval_cached(event, cache, Ghost(s)),
        };
        let ghost before = result_map_contents(*cache);
        cache.insert(h, res);
        proof {
            assert(s.contains(self@));
            assert(op_hash(self@) == h);
            if hyp {
                let after = result_map_contents(*cache);
                assert forall|o: SOp| #[trigger]
                    s.contains(o) && after.contains_key(op_hash(o)) implies after[op_hash(o)]
                    == eval(o, ev) by {
                    if op_hash(o) == op_hash(self@) {
                        assert(s.contains(self@));
                    } else {
                        assert(before.contains_key(op_hash(o)));
                    }
                }
            }
        }
        res
    }

    /// Whether the condition holds for the event, using and filling `cache`. When no two
    /// different conditions nested in it share a hash and the cache holds true results for
    /// them (an empty cache does), the result is the model's `eval`.
    pub fn evaluate(&self, event: &Event, cache: &mut ResultMap) -> (r: bool)
        ensures
            (hash_injective(ops_within(self@)) && cache_sound(
                result_map_contents(*old(cache)),
                event@,
                ops_within(self@),
            )) ==> r == eval(self@, event@),
            result_map_contents(*old(cache)).contains_key(op_hash(self@)) ==> (r
                == result_map_contents(*old(cache))[op_hash(self@)] && result_map_contents(
                *final(cache),
            ) == result_map_contents(*old(cache))),
            keeps_results(result_map_contents(*old(cache)), result_map_contents(*final(cache))),
            result_map_contents(*final(cache)).contains_key(op_hash(self@)),
            result_map_contents(*final(cache))[op_hash(self@)] == r,
            r == crate::cached::cached_eval(self@, event@, result_map_contents(*old(cache))).0,
            result_map_contents(*final(cache)) == crate::cached::cached_eval(
                self@,
                event@,
                result_map_contents(*old(cache)),
            ).1,
    {
        self.eval_cached(event, cache, Ghost(ops_within(self@)))
    }
}

/// `operands` on each of `ops`, in order.
#[verifier::rlimit(40)]
fn operands_of_parts(
    ops: &Vec<OperandContainer>,
    simple_op_vec: &mut Vec<OperandContainer>,
    complex_op_vec: &mut Vec<OperandContainer>,
)
    ensures
        containers_view(final(simple_op_vec)@) == containers_view(old(simple_op_vec)@)
            + simple_ops_all(containers_view(ops@)),
        containers_view(final(complex_op_vec)@) == containers_view(old(complex_op_vec)@)
            + complex_ops_all(containers_view(ops@)),
    decreases size_ops(containers_view(ops@)), 1int,
{
    let ghost s0 = containers_view(simple_op_vec@);
    let ghost c0 = containers_view(complex_op_vec@);
    let ghost cv = containers_view(ops@);
    proof {
        lemma_containers_view(ops@);
        assert(cv.take(0) =~= Seq::<SOp>::empty());
        assert(s0 + simple_ops_all(cv.take(0)) =~= s0);
        assert(c0 + complex_ops_all(cv.take(0)) =~= c0);
    }
    let mut i: usize = 0;
    while i < ops.len()
        invariant
            i <= ops@.len(),
            cv == containers_view(ops@),
            cv.len() == ops@.len(),
            forall|j: int| 0 <= j < ops@.len() ==> #[trigger] cv[j] == ops@[j]@,
            containers_view(simple_op_vec@) == s0 + simple_ops_all(cv.take(i as int)),
            containers_view(complex_op_vec@) == c0 + complex_ops_all(cv.take(i as int)),
        decreases ops.len() - i,
    {
        proof {
            lemma_size_ops_elem(cv, i as int);
            assert(cv.take(i + 1).drop_last() =~= cv.take(i as int));
        }
        let ghost sa = containers_view(simple_op_vec@);
        let ghost ca = containers_view(complex_op_vec@);
        ops[i].operands(simple_op_vec, complex_op_vec);
        proof {
            let x = cv[i as int];
            assert(simple_ops_all(cv.take(i + 1)) == simple_ops_all(cv.take(i as int)) + simple_ops(x));
            assert(complex_ops_all(cv.take(i + 1)) == complex_ops_all(cv.take(i as int)) + complex_ops(x));
            assert(sa + simple_ops(x) =~= s0 + simple_ops_all(cv.take(i + 1)));
            assert(ca + complex_ops(x) =~= c0 + complex_ops_all(cv.take(i + 1)));
        }
        i = i + 1;
    }
    proof {
        assert(cv.take(ops@.len() as int) =~= cv);
    }
}

impl OperandContainer {
    /// Appends the conditions evaluated on their own to `simple_op_vec` and the
    /// conjunctions and disjunctions, each after its parts, to `complex_op_vec`.
    pub fn operands(
        &self,
        simple_op_vec: &mut Vec<OperandContainer>,
        complex_op_vec: &mut Vec<OperandContainer>,
    )
        ensures
            containers_view(final(simple_op_vec)@) == containers_view(old(simple_op_vec)@)
                + simple_ops(self@),
            containers_view(final(complex_op_vec)@) == containers_view(old(complex_op_vec)@)
                + complex_ops(self@),
        decreases size_op(self@), 0int,
    {
        let ghost s0 = containers_view(simple_op_vec@);
        let ghost c0 = containers_view(complex_op_vec@);
        let is_junction = match &self.op {
            Operand::Or(_) => true,
            Operand::And(_) => true,
            _ => false,
        };
        if is_junction {
            match &self.op {
                Operand::Or(ops) => operands_of_parts(ops, simple_op_vec, complex_op_vec),
                Operand::And(ops) => operands_of_parts(ops, simple_op_vec, complex_op_vec),
                _ => {},
            }
            let me = clone_container(self);
            let ghost before = complex_op_vec@;
            let ghost mid = containers_view(complex_op_vec@);
            complex_op_vec.push(me);
            proof {
                lemma_containers_push(before, me);
                assert(mid.push(self@) =~= c0 + complex_ops(self@));
            }
        } else {
            let me = clone_container(self);
            let ghost before = simple_op_vec@;
            simple_op_vec.push(me);
            proof {
                lemma_containers_push(before, me);
                assert(s0 + simple_ops(self@) =~= s0.push(self@));
                assert(c0 + complex_ops(self@) =~= c0);
            }
        }
    }
}

/// A decimal as an integer the way `as i64` turns an `f64` into one: the fraction is cut
/// off and values beyond `i64` are clamped to its bounds.
pub open spec fn float_to_i64(x: Float) -> i64 {
    let t: int = if x.0 >= 0 {
        (x.0 as int) / (FLOAT_SCALE as int)
    } else {
        -((-(x.0 as int)) / (FLOAT_SCALE as int))
    };
    if t > i64::MAX {
        i64::MAX
    } else if t < i64::MIN {
        i64::MIN
    } else {
        t as i64
    }
}

/// The integer a value stands for: an integer, a decimal cut to an integer, an integer
/// field or an element of an integer-list field.
pub open spec fn integer_of(v: SVal, ev: crate::event::EventView) -> Option<i64> {
    match v {
        SVal::Int(i) => Some(i),
        SVal::Float(x) => Some(float_to_i64(x)),
        SVal::Field(n) => match field_value(ev, n) {
            Some(SVal::Int(i)) => Some(i),
            _ => None,
        },
        SVal::FieldIndex(n, i) => indexed_int(ev, n, i),
        _ => None,
    }
}

fn truncate_float(x: Float) -> (r: i64)
    ensures
        r == float_to_i64(x),
{
    if x.0 == i128::MIN {
        return i64::MIN;
    }
    let t: i128 = if x.0 >= 0 {
        x.0 / FLOAT_SCALE
    } else {
        -((-x.0) / FLOAT_SCALE)
    };
    if t > i64::MAX as i128 {
        i64::MAX
    } else if t < i64::MIN as i128 {
        i64::MIN
    } else {
        t as i64
    }
}

impl Val {
    /// The value itself when it may stand alone as a condition (a boolean, a field, a
    /// sub-condition or a call of a function that gives a boolean); an error otherwise.
    pub fn validate_bool(self) -> (r: RadeResult<Val>)
        ensures
            match r {
                Ok(v) => is_boolean_val(self@) && v@ == self@,
                Err(_) => !is_boolean_val(self@),
            },
            r is Err ==> r->Err_0@ == not_boolean_text(self@),
    {
        match &self {
            Val::Bool(_) => Ok(self),
            Val::Field(_) => Ok(self),
            Val::Expression(_) => Ok(self),
            Val::FnCall(fc) => match fc.is_bool() {
                Ok(true) => Ok(self),
                Ok(false) => Err(crate::text::text3("Function ", fc.name.as_str(), " does not return a boolean")),
                Err(e) => Err(e),
            },
            Val::MethodCall(mc) => match mc.is_bool() {
                Ok(true) => Ok(self),
                Ok(false) => Err(crate::text::text3("Method ", mc.method.as_str(), " does not return a boolean")),
                Err(e) => Err(e),
            },
            _ => {
                let d = crate::debug_form::debug_text(&self);
                Err("Not a boolean: ".to_owned().concat(d.as_str()))
            },
        }
    }

    /// The integer the value stands for (see `integer_of`).
    pub fn as_i64(&self, event: &Event) -> (r: RadeResult<i64>)
        ensures
            match integer_of(self@, event@) {
                Some(i) => r is Ok && r->Ok_0 == i,
                None => r is Err,
            },
    {
        match self {
            Val::Int(i) => Ok(i.0),
            Val::Float(x) => Ok(truncate_float(*x)),
            Val::Field(f) => event.get_int_field(&f.0),
            Val::FieldIndex(f, i) => f.get_int(event, *i),
            _ => fail("Cannot convert to i64"),
        }
    }

    /// The integers of an integer-list value.
    pub fn as_i64_list(&self, event: &Event) -> (r: RadeResult<&Vec<i64>>)
        ensures
            match self@ {
                SVal::IntList(l) => r is Ok && r->Ok_0@ == l,
                _ => r is Err,
            },
    {
        match self {
            Val::IntList(l) => Ok(&l.0),
            _ => fail("Cannot convert to Vec<i64>"),
        }
    }

    /// The texts of a non-empty string-list value under `comp_flag`.
    pub fn as_str_list<'a>(&'a self, event: &'a Event, comp_flag: &Option<InsensitiveFlag>) -> (r:
        RadeResult<Vec<&'a str>>)
        ensures
            match self@ {
                SVal::StrList(l) => if l.len() == 0 {
                    r is Err
                } else {
                    r is Ok && r->Ok_0@.len() == l.len() && forall|i: int|
                        0 <= i < l.len() ==> (#[trigger] r->Ok_0@[i])@ == insensitive_form(
                            l[i],
                            *comp_flag,
                        )
                },
                _ => r is Err,
            },
    {
        match self {
            Val::StrList(l) => {
                if l.0.len() == 0 {
                    return fail("StrList is empty");
                }
                let mut out: Vec<&str> = Vec::new();
                let mut i: usize = 0;
                while i < l.0.len()
                    invariant
                        i <= l.0@.len(),
                        out@.len() == i,
                        forall|j: int|
                            0 <= j < i ==> (#[trigger] out@[j])@ == insensitive_form(
                                l.0@[j]@,
                                *comp_flag,
                            ),
                    decreases l.0.len() - i,
                {
                    out.push(l.0[i].choose_form(comp_flag));
                    i = i + 1;
                }
                Ok(out)
            },
            _ => fail("Cannot convert to Vec<&str>"),
        }
    }

    /// `self =~ elem` or `self !~ elem` when the value is a regex.
    pub fn match_(&self, elem: &Val, event: &Event, comparator: &Comparator) -> (r: RadeResult<bool>)
        ensures
            match self@ {
                SVal::Regex(re) => bool_result(r, match_regex(re, elem@, *comparator, event@)),
                _ => r is Err,
            },
    {
        match self {
            Val::Regex(re) => re.match_(elem, event, comparator),
            _ => fail("Match implemented only for Regex"),
        }
    }
}

impl IntList {
    /// The only element of a one-element list.
    pub fn as_i64(&self, event: &Event) -> (r: RadeResult<i64>)
        ensures
            if self.0@.len() == 1 {
                r is Ok && r->Ok_0 == self.0@[0]
            } else {
                r is Err
            },
    {
        if self.0.len() == 1 {
            Ok(self.0[0])
        } else {
            fail("Not a single value")
        }
    }

    /// Whether `elem` is an integer list with the same elements.
    pub fn eq(&self, elem: &Val, event: &Event) -> (r: RadeResult<bool>)
        ensures
            match elem@ {
                SVal::IntList(l) => r is Ok && r->Ok_0 == (self.0@ == l),
                _ => r is Err,
            },
    {
        match elem.as_i64_list(event) {
            Ok(other) => Ok(crate::val::ints_equal(other, &self.0)),
            Err(e) => Err(e),
        }
    }

    /// Whether the integer that `elem` stands for is in the list.
    pub fn contains(&self, elem: &Val, event: &Event, _flag: &Option<InsensitiveFlag>) -> (r:
        RadeResult<bool>)
        ensures
            match integer_of(elem@, event@) {
                Some(x) => r is Ok && r->Ok_0 == self.0@.contains(x),
                None => r is Err,
            },
    {
        match elem.as_i64(event) {
            Ok(x) => Ok(crate::val::ints_contain(&self.0, x)),
            Err(e) => Err(e),
        }
    }
}

impl Str {
    /// Whether the text of `elem` under `comp_flag` occurs in this string's form.
    pub fn contains(&self, elem: &Val, event: &Event, comp_flag: &Option<InsensitiveFlag>) -> (r:
        RadeResult<bool>)
        ensures
            match text_of(elem@, *comp_flag, event@) {
                Some(t) => r is Ok && r->Ok_0 == seq_contains(insensitive_form(self.0@, *comp_flag), t),
                None => r is Err,
            },
    {
        let s1 = self.0.choose_form(comp_flag);
        match elem.as_str(event, comp_flag) {
            Ok(s2) => Ok(str_contains(s1, s2)),
            Err(e) => Err(e),
        }
    }

    /// Whether this string's form under `comp_flag` begins with that of `elem`.
    pub fn starts_with(&self, elem: &Str, event: &Event, comp_flag: &Option<InsensitiveFlag>) -> (r:
        RadeResult<bool>)
        ensures
            r is Ok && r->Ok_0 == seq_starts_with(
                insensitive_form(self.0@, *comp_flag),
                insensitive_form(elem.0@, *comp_flag),
            ),
    {
        let s1 = self.0.choose_form(comp_flag);
        let s2 = elem.0.choose_form(comp_flag);
        Ok(str_starts_with(s1, s2))
    }

    /// Whether this string's form under `comp_flag` ends with that of `elem`.
    pub fn ends_with(&self, elem: &Str, event: &Event, comp_flag: &Option<InsensitiveFlag>) -> (r:
        RadeResult<bool>)
        ensures
            r is Ok && r->Ok_0 == seq_ends_with(
                insensitive_form(self.0@, *comp_flag),
                insensitive_form(elem.0@, *comp_flag),
            ),
    {
        let s1 = self.0.choose_form(comp_flag);
        let s2 = elem.0.choose_form(comp_flag);
        Ok(str_ends_with(s1, s2))
    }
}

/// The decimal digit `d` (`0..10`) as a character.
pub open spec fn digit_char(d: int) -> char {
    ('0' as int + d) as char
}

/// The decimal digits of `n`, most significant first.
pub open spec fn nat_text(n: nat) -> Seq<char>
    decreases n,
{
    if n < 10 {
        seq![digit_char(n as int)]
    } else {
        nat_text(n / 10).push(digit_char((n % 10) as int))
    }
}

/// How `i64::to_string` writes an integer: a minus sign for negatives, then the digits.
pub open spec fn int_text(i: int) -> Seq<char> {
    if i < 0 {
        seq!['-'] + nat_text((-i) as nat)
    } else {
        nat_text(i as nat)
    }
}

pub(crate) fn digit(d: u64) -> (c: char)
    requires
        d < 10,
    ensures
        c == digit_char(d as int),
{
    match d {
        0 => '0',
        1 => '1',
        2 => '2',
        3 => '3',
        4 => '4',
        5 => '5',
        6 => '6',
        7 => '7',
        8 => '8',
        _ => '9',
    }
}

/// An integer written in decimal.
pub(crate) fn int_to_text(i: i64) -> (r: String)
    ensures
        r@ == int_text(i as int),
{
    let neg = i < 0;
    let big: i128 = i as i128;
    let m: i128 = if neg { -big } else { big };
    let n0: u64 = m as u64;
    let ghost whole = nat_text(n0 as nat);
    let mut n: u64 = n0;
    let mut out: Vec<char> = Vec::new();
    if n == 0 {
        out.push('0');
    }
    while n > 0
        invariant
            whole == nat_text(n0 as nat),
            n > 0 ==> whole == nat_text(n as nat) + out@,
            n == 0 ==> (n0 == 0 || whole == out@),
            n0 == 0 ==> out@ == seq!['0'],
        decreases n,
    {
        let d = n % 10;
        let c = digit(d);
        let ghost before = out@;
        out.insert(0, c);
        proof {
            assert(out@ =~= seq![c] + before);
            if n >= 10 {
                assert(nat_text(n as nat) == nat_text((n / 10) as nat).push(digit_char((n % 10) as int)));
                assert(nat_text((n / 10) as nat) + out@ =~= nat_text((n / 10) as nat).push(c) + before);
            } else {
                assert(nat_text(n as nat) == seq![digit_char(n as int)]);
                assert(out@ =~= nat_text(n as nat) + before);
            }
        }
        n = n / 10;
    }
    if neg {
        out.insert(0, '-');
    }
    proof {
        if n0 == 0 {
            assert(whole == seq!['0']);
        }
        assert(out@ =~= int_text(i as int));
    }
    string_from_chars(out.as_slice())
}

impl Val {
    /// The integers of an integer-list value, each written in decimal.
    pub fn to_int_list(&self) -> (r: RadeResult<Vec<String>>)
        ensures
            match self@ {
                SVal::IntList(l) => r is Ok && r->Ok_0@.map_values(|x: String| x@) == l.map_values(
                    |i: i64| int_text(i as int),
                ),
                _ => r is Err,
            },
    {
        match self {
            Val::IntList(l) => {
                let mut out: Vec<String> = Vec::new();
                let mut i: usize = 0;
                while i < l.0.len()
                    invariant
                        i <= l.0@.len(),
                        out@.map_values(|x: String| x@) == l.0@.take(i as int).map_values(
                            |k: i64| int_text(k as int),
                        ),
                    decreases l.0.len() - i,
                {
                    let ghost before = out@;
                    let t = int_to_text(l.0[i]);
                    out.push(t);
                    proof {
                        assert(out@.map_values(|x: String| x@) =~= before.map_values(
                            |x: String| x@,
                        ).push(int_text(l.0@[i as int] as int)));
                        assert(l.0@.take(i + 1) =~= l.0@.take(i as int).push(l.0@[i as int]));
                        assert(out@.map_values(|x: String| x@) =~= l.0@.take(i + 1).map_values(
                            |k: i64| int_text(k as int),
                        ));
                    }
                    i = i + 1;
                }
                proof {
                    assert(l.0@.take(l.0@.len() as int) =~= l.0@);
                }
                Ok(out)
            },
            _ => fail("Cannot convert to Vec<String>"),
        }
    }
}

} // verus!
