//! Methods on values: `receiver.method(args)` for strings, integers, decimals and lists.
use vstd::prelude::*;
use vstd::string::StringExecFns;
use crate::ast::{lemma_vals_view, vals_view, MethodCall, SVal, Val};
use crate::evaluate::val_result;
use crate::float::{Float, FLOAT_SCALE};
use crate::functions::byte_len;
use crate::text::{
    lowercase, replace_all, replaced, seq_contains, seq_ends_with, seq_starts_with, str_contains,
    str_ends_with, str_eq, str_starts_with, string_from_chars, text3, to_lowercase, to_uppercase,
    trim, trim_end, trim_end_of, trim_of, trim_start, trim_start_of, uppercase,
};
use crate::evaluate::fail_text;
use crate::val::{list_position, out_of_bounds_text, Bool, Int, IntList, RadeResult, Str, StrList};
use crate::fat_string::FatString;

verus! {

/// The string argument at `i`, if there is one and it is a string.
pub open spec fn str_arg(args: Seq<SVal>, i: int) -> Option<Seq<char>> {
    if 0 <= i < args.len() && args[i] is Str {
        Some(args[i]->Str_0)
    } else {
        None
    }
}

/// The integer argument at `i`, if there is one and it is an integer.
pub open spec fn int_arg(args: Seq<SVal>, i: int) -> Option<i64> {
    if 0 <= i < args.len() && args[i] is Int {
        Some(args[i]->Int_0)
    } else {
        None
    }
}

/// Whether a method gives a boolean: `Some(true)` for the tests, `Some(false)` for the
/// other known methods, `None` for an unknown name.
pub open spec fn method_returns_bool(m: Seq<char>) -> Option<bool> {
    if m == "is_empty"@ || m == "contains"@ || m == "starts_with"@ || m == "ends_with"@ {
        Some(true)
    } else if m == "len"@ || m == "to_uppercase"@ || m == "to_lowercase"@ || m == "trim"@
        || m == "trim_start"@ || m == "trim_end"@ || m == "replace"@ || m == "to_string"@
        || m == "first"@ || m == "last"@ || m == "get"@ || m == "join"@ || m == "sum"@
        || m == "min"@ || m == "max"@ || m == "reverse"@ || m == "abs"@ || m == "floor"@
        || m == "ceil"@ || m == "round"@ {
        Some(false)
    } else {
        None
    }
}

/// A method of a string.
pub open spec fn str_method(m: Seq<char>, s: Seq<char>, args: Seq<SVal>) -> Option<SVal> {
    if m == "len"@ {
        Some(SVal::Int(byte_len(s)))
    } else if m == "is_empty"@ {
        Some(SVal::Bool(s.len() == 0))
    } else if m == "to_uppercase"@ {
        Some(SVal::Str(uppercase(s)))
    } else if m == "to_lowercase"@ {
        Some(SVal::Str(lowercase(s)))
    } else if m == "trim"@ {
        Some(SVal::Str(trim_of(s)))
    } else if m == "trim_start"@ {
        Some(SVal::Str(trim_start_of(s)))
    } else if m == "trim_end"@ {
        Some(SVal::Str(trim_end_of(s)))
    } else if m == "to_string"@ {
        Some(SVal::Str(s))
    } else if m == "contains"@ {
        match str_arg(args, 0) {
            Some(t) => Some(SVal::Bool(seq_contains(s, t))),
            None => None,
        }
    } else if m == "starts_with"@ {
        match str_arg(args, 0) {
            Some(t) => Some(SVal::Bool(seq_starts_with(s, t))),
            None => None,
        }
    } else if m == "ends_with"@ {
        match str_arg(args, 0) {
            Some(t) => Some(SVal::Bool(seq_ends_with(s, t))),
            None => None,
        }
    } else if m == "replace"@ {
        match (str_arg(args, 0), str_arg(args, 1)) {
            (Some(a), Some(b)) => Some(SVal::Str(replaced(s, a, b))),
            _ => None,
        }
    } else {
        None
    }
}

/// A method of an integer; `abs` of the least `i64` has no `i64` value.
pub open spec fn int_method(m: Seq<char>, i: i64) -> Option<SVal> {
    if m == "abs"@ {
        if i == i64::MIN {
            None
        } else {
            Some(SVal::Int((if i < 0 { -(i as int) } else { i as int }) as i64))
        }
    } else if m == "to_string"@ {
        Some(SVal::Str(crate::evaluate::int_text(i as int)))
    } else {
        None
    }
}

/// `w` rounded down to a whole number, in units of `FLOAT_SCALE`.
pub open spec fn down_mag(w: int) -> int {
    (w / (FLOAT_SCALE as int)) * (FLOAT_SCALE as int)
}

/// `w` rounded up to a whole number.
pub open spec fn up_mag(w: int) -> int {
    (w / (FLOAT_SCALE as int) + if w % (FLOAT_SCALE as int) > 0 { 1int } else { 0int }) * (FLOAT_SCALE as int)
}

/// `w` rounded to the nearest whole number, halves up.
pub open spec fn near_mag(w: int) -> int {
    (w / (FLOAT_SCALE as int) + if w % (FLOAT_SCALE as int) >= (FLOAT_SCALE as int) / 2 { 1int } else { 0int }) * (FLOAT_SCALE as int)
}

/// A decimal for a scaled value, when it can be held.
pub open spec fn float_in_range(v: int) -> Option<SVal> {
    if i128::MIN <= v <= i128::MAX {
        Some(SVal::Float(Float(v as i128)))
    } else {
        None
    }
}

/// A method of a decimal: `abs`, `floor`, `ceil`, `round` (halves away from zero) and
/// `to_string`.
pub open spec fn float_method(m: Seq<char>, x: Float) -> Option<SVal> {
    let v = x.0 as int;
    if m == "abs"@ {
        float_in_range(if v < 0 { -v } else { v })
    } else if m == "floor"@ {
        float_in_range(if v >= 0 { down_mag(v) } else { -up_mag(-v) })
    } else if m == "ceil"@ {
        float_in_range(if v >= 0 { up_mag(v) } else { -down_mag(-v) })
    } else if m == "round"@ {
        float_in_range(if v >= 0 { near_mag(v) } else { -near_mag(-v) })
    } else if m == "to_string"@ {
        Some(SVal::Str(float_text(x)))
    } else {
        None
    }
}

/// The last `n` decimal digits of `f`, zero-padded, most significant first.
pub open spec fn low_digits(f: nat, n: nat) -> Seq<char>
    decreases n,
{
    if n == 0 {
        Seq::empty()
    } else {
        low_digits(f / 10, (n - 1) as nat).push(crate::evaluate::digit_char((f % 10) as int))
    }
}

/// `s` without its trailing `0`s.
pub open spec fn drop_trailing_zeros(s: Seq<char>) -> Seq<char>
    decreases s.len(),
{
    if s.len() > 0 && s.last() == '0' {
        drop_trailing_zeros(s.drop_last())
    } else {
        s
    }
}

/// A decimal written the shortest exact way: a minus sign for negatives, the whole part,
/// then a point and the fractional digits when there are any (`2.5`, `-3`, `0.125`).
pub open spec fn float_text(x: Float) -> Seq<char> {
    let v = x.0 as int;
    let w = if v < 0 { -v } else { v };
    let whole = crate::evaluate::nat_text((w / (FLOAT_SCALE as int)) as nat);
    let frac = (w % (FLOAT_SCALE as int)) as nat;
    (if v < 0 { seq!['-'] } else { Seq::empty() }) + whole + if frac == 0 {
        Seq::empty()
    } else {
        seq!['.'] + drop_trailing_zeros(low_digits(frac, 18))
    }
}

/// The digits of `n`, most significant first.
pub(crate) fn nat_digits(n0: u128) -> (r: Vec<char>)
    ensures
        r@ == crate::evaluate::nat_text(n0 as nat),
{
    let ghost whole = crate::evaluate::nat_text(n0 as nat);
    let mut n: u128 = n0;
    let mut out: Vec<char> = Vec::new();
    if n == 0 {
        out.push('0');
    }
    while n > 0
        invariant
            whole == crate::evaluate::nat_text(n0 as nat),
            n > 0 ==> whole == crate::evaluate::nat_text(n as nat) + out@,
            n == 0 ==> (n0 == 0 || whole == out@),
            n0 == 0 ==> out@ == seq!['0'],
        decreases n,
    {
        let d = (n % 10) as u64;
        let c = crate::evaluate::digit(d);
        let ghost before = out@;
        out.insert(0, c);
        proof {
            assert(out@ =~= seq![c] + before);
            if n >= 10 {
                assert(crate::evaluate::nat_text(n as nat) == crate::evaluate::nat_text(
                    (n / 10) as nat,
                ).push(crate::evaluate::digit_char((n % 10) as int)));
                assert(crate::evaluate::nat_text((n / 10) as nat) + out@ =~= crate::evaluate::nat_text(
                    (n / 10) as nat,
                ).push(c) + before);
            } else {
                assert(crate::evaluate::nat_text(n as nat) == seq![crate::evaluate::digit_char(n as int)]);
                assert(out@ =~= crate::evaluate::nat_text(n as nat) + before);
            }
        }
        n = n / 10;
    }
    proof {
        if n0 == 0 {
            assert(whole == seq!['0']);
        }
    }
    out
}

/// The 18 fractional digits of `f`, without trailing zeros.
fn fraction_digits(f0: u128) -> (r: Vec<char>)
    ensures
        r@ == drop_trailing_zeros(low_digits(f0 as nat, 18)),
{
    let mut f: u128 = f0;
    let mut out: Vec<char> = Vec::new();
    let mut k: u64 = 0;
    while k < 18
        invariant
            k <= 18,
            low_digits(f0 as nat, 18) == low_digits(f as nat, (18 - k) as nat) + out@,
        decreases 18 - k,
    {
        let c = crate::evaluate::digit((f % 10) as u64);
        let ghost before = out@;
        proof {
            let n = (18 - k) as nat;
            assert(low_digits(f as nat, n) == low_digits((f / 10) as nat, (n - 1) as nat).push(c));
            assert(low_digits((f / 10) as nat, (n - 1) as nat).push(c) + before =~= low_digits(
                (f / 10) as nat,
                (n - 1) as nat,
            ) + (seq![c] + before));
        }
        out.insert(0, c);
        proof {
            assert(out@ =~= seq![c] + before);
        }
        f = f / 10;
        k = k + 1;
    }
    proof {
        assert(low_digits(f as nat, 0) =~= Seq::<char>::empty());
        assert(low_digits(f0 as nat, 18) =~= out@);
    }
    while out.len() > 0 && out[out.len() - 1] == '0'
        invariant
            drop_trailing_zeros(low_digits(f0 as nat, 18)) == drop_trailing_zeros(out@),
        decreases out.len(),
    {
        let ghost before = out@;
        out.pop();
        proof {
            assert(out@ =~= before.drop_last());
        }
    }
    out
}

/// A decimal written as `float_text` says.
pub(crate) fn float_to_text(x: Float) -> (r: String)
    ensures
        r@ == float_text(x),
{
    let v: i128 = x.0;
    let neg = v < 0;
    let w: u128 = if neg { ((-(v + 1)) as u128) + 1 } else { v as u128 };
    let s: u128 = 1_000_000_000_000_000_000u128;
    assert(w as int == if neg { -(v as int) } else { v as int });
    assert(FLOAT_SCALE == 1_000_000_000_000_000_000);
    let whole = nat_digits(w / s);
    let frac: u128 = w % s;
    let mut out: Vec<char> = Vec::new();
    if neg {
        out.push('-');
    }
    let ghost head = out@;
    let mut i: usize = 0;
    while i < whole.len()
        invariant
            i <= whole@.len(),
            out@ == head + whole@.take(i as int),
        decreases whole.len() - i,
    {
        out.push(whole[i]);
        i = i + 1;
        proof {
            assert(out@ =~= head + whole@.take(i as int));
        }
    }
    proof {
        assert(whole@.take(whole@.len() as int) =~= whole@);
    }
    if frac != 0 {
        let digits = fraction_digits(frac);
        out.push('.');
        let ghost mid = out@;
        let mut j: usize = 0;
        while j < digits.len()
            invariant
                j <= digits@.len(),
                out@ == mid + digits@.take(j as int),
            decreases digits.len() - j,
        {
            out.push(digits[j]);
            j = j + 1;
            proof {
                assert(out@ =~= mid + digits@.take(j as int));
            }
        }
        proof {
            assert(digits@.take(digits@.len() as int) =~= digits@);
            assert(out@ =~= float_text(x));
        }
    } else {
        proof {
            assert(out@ =~= float_text(x));
        }
    }
    string_from_chars(out.as_slice())
}

/// The texts joined with `sep` between them.
pub open spec fn join_texts(l: Seq<Seq<char>>, sep: Seq<char>) -> Seq<char>
    decreases l.len(),
{
    if l.len() == 0 {
        Seq::empty()
    } else if l.len() == 1 {
        l[0]
    } else {
        join_texts(l.drop_last(), sep) + sep + l.last()
    }
}

/// A method of a list of strings.
pub open spec fn str_list_method(m: Seq<char>, l: Seq<Seq<char>>, args: Seq<SVal>) -> Option<SVal> {
    if m == "len"@ {
        Some(SVal::Int(l.len() as i64))
    } else if m == "is_empty"@ {
        Some(SVal::Bool(l.len() == 0))
    } else if m == "first"@ {
        if l.len() == 0 { None } else { Some(SVal::Str(l[0])) }
    } else if m == "last"@ {
        if l.len() == 0 { None } else { Some(SVal::Str(l.last())) }
    } else if m == "reverse"@ {
        Some(SVal::StrList(l.reverse()))
    } else if m == "get"@ {
        match int_arg(args, 0) {
            Some(i) => match list_position(l.len() as int, i as int) {
                Some(p) => Some(SVal::Str(l[p])),
                None => None,
            },
            None => None,
        }
    } else if m == "contains"@ {
        match str_arg(args, 0) {
            Some(t) => Some(SVal::Bool(l.contains(t))),
            None => None,
        }
    } else if m == "join"@ {
        match str_arg(args, 0) {
            Some(t) => Some(SVal::Str(join_texts(l, t))),
            None => None,
        }
    } else {
        None
    }
}

/// The sum of the integers.
pub open spec fn int_sum(l: Seq<i64>) -> int
    decreases l.len(),
{
    if l.len() == 0 {
        0
    } else {
        int_sum(l.drop_last()) + l.last()
    }
}

/// The least of the integers (of a non-empty list).
pub open spec fn int_min(l: Seq<i64>) -> i64
    decreases l.len(),
{
    if l.len() <= 1 {
        l[0]
    } else {
        let m = int_min(l.drop_last());
        if l.last() < m { l.last() } else { m }
    }
}

/// The greatest of the integers (of a non-empty list).
pub open spec fn int_max(l: Seq<i64>) -> i64
    decreases l.len(),
{
    if l.len() <= 1 {
        l[0]
    } else {
        let m = int_max(l.drop_last());
        if l.last() > m { l.last() } else { m }
    }
}

/// A method of a list of integers; a sum that leaves `i64` has no value.
pub open spec fn int_list_method(m: Seq<char>, l: Seq<i64>, args: Seq<SVal>) -> Option<SVal> {
    if m == "len"@ {
        Some(SVal::Int(l.len() as i64))
    } else if m == "is_empty"@ {
        Some(SVal::Bool(l.len() == 0))
    } else if m == "first"@ {
        if l.len() == 0 { None } else { Some(SVal::Int(l[0])) }
    } else if m == "last"@ {
        if l.len() == 0 { None } else { Some(SVal::Int(l.last())) }
    } else if m == "sum"@ {
        if i64::MIN <= int_sum(l) <= i64::MAX { Some(SVal::Int(int_sum(l) as i64)) } else { None }
    } else if m == "min"@ {
        if l.len() == 0 { None } else { Some(SVal::Int(int_min(l))) }
    } else if m == "max"@ {
        if l.len() == 0 { None } else { Some(SVal::Int(int_max(l))) }
    } else if m == "reverse"@ {
        Some(SVal::IntList(l.reverse()))
    } else if m == "get"@ {
        match int_arg(args, 0) {
            Some(i) => match list_position(l.len() as int, i as int) {
                Some(p) => Some(SVal::Int(l[p])),
                None => None,
            },
            None => None,
        }
    } else if m == "contains"@ {
        match int_arg(args, 0) {
            Some(x) => Some(SVal::Bool(l.contains(x))),
            None => None,
        }
    } else {
        None
    }
}

/// A method applied to the value of its receiver and of its arguments.
pub open spec fn apply_method(receiver: SVal, m: Seq<char>, args: Seq<SVal>) -> Option<SVal> {
    match receiver {
        SVal::Str(s) => str_method(m, s, args),
        SVal::Int(i) => int_method(m, i),
        SVal::Float(x) => float_method(m, x),
        SVal::StrList(l) => str_list_method(m, l, args),
        SVal::IntList(l) => int_list_method(m, l, args),
        _ => None,
    }
}

/// The error for a string argument at `i` that is missing or is not a string.
pub open spec fn str_arg_error(args: Seq<SVal>, i: int, m: Seq<char>) -> Seq<char> {
    if i >= args.len() {
        "Method '"@ + m + "' missing argument at index "@ + crate::evaluate::int_text(i)
    } else {
        "Method '"@ + m + "' argument "@ + crate::evaluate::int_text(i) + " expected "@ + "string"@
    }
}

/// The error for an integer argument at `i` that is missing or is not an integer.
pub open spec fn int_arg_error(args: Seq<SVal>, i: int, m: Seq<char>) -> Seq<char> {
    if i >= args.len() {
        "Method '"@ + m + "' missing argument at index "@ + crate::evaluate::int_text(i)
    } else {
        "Method '"@ + m + "' argument "@ + crate::evaluate::int_text(i) + " expected "@ + "integer"@
    }
}

/// The error for an unknown method of a kind of receiver.
pub open spec fn unknown_method_text(kind: Seq<char>, m: Seq<char>) -> Seq<char> {
    "Unknown "@ + kind + " method: "@ + m
}

/// The error of a string method that has no value.
pub open spec fn str_method_error(m: Seq<char>, args: Seq<SVal>) -> Seq<char> {
    if m == "contains"@ || m == "starts_with"@ || m == "ends_with"@ {
        str_arg_error(args, 0, m)
    } else if m == "replace"@ {
        if str_arg(args, 0) is None { str_arg_error(args, 0, m) } else { str_arg_error(args, 1, m) }
    } else {
        unknown_method_text("string"@, m)
    }
}

/// The error of an integer method that has no value.
pub open spec fn int_method_error(m: Seq<char>) -> Seq<char> {
    if m == "abs"@ { "Integer overflow in abs"@ } else { unknown_method_text("integer"@, m) }
}

/// The error of a decimal method that has no value.
pub open spec fn float_method_error(m: Seq<char>) -> Seq<char> {
    if m == "abs"@ || m == "floor"@ || m == "ceil"@ || m == "round"@ {
        "Decimal out of range"@
    } else {
        unknown_method_text("float"@, m)
    }
}

/// The error of a `get` on a list of length `n`.
pub open spec fn get_error(args: Seq<SVal>, m: Seq<char>, n: nat) -> Seq<char> {
    match int_arg(args, 0) {
        Some(i) => out_of_bounds_text(i, n),
        None => int_arg_error(args, 0, m),
    }
}

/// The error of a string-list method that has no value.
pub open spec fn str_list_method_error(m: Seq<char>, l: Seq<Seq<char>>, args: Seq<SVal>) -> Seq<char> {
    if m == "first"@ || m == "last"@ {
        "List is empty"@
    } else if m == "get"@ {
        get_error(args, m, l.len())
    } else if m == "contains"@ || m == "join"@ {
        str_arg_error(args, 0, m)
    } else {
        unknown_method_text("string list"@, m)
    }
}

/// The error of an integer-list method that has no value.
pub open spec fn int_list_method_error(m: Seq<char>, l: Seq<i64>, args: Seq<SVal>) -> Seq<char> {
    if m == "first"@ || m == "last"@ {
        "List is empty"@
    } else if m == "sum"@ {
        "Integer overflow in sum"@
    } else if m == "min"@ || m == "max"@ {
        "List is empty"@
    } else if m == "get"@ {
        get_error(args, m, l.len())
    } else if m == "contains"@ {
        int_arg_error(args, 0, m)
    } else {
        unknown_method_text("integer list"@, m)
    }
}

/// The error of a method that has no value for its receiver and arguments.
pub open spec fn apply_method_error(receiver: SVal, m: Seq<char>, args: Seq<SVal>) -> Seq<char> {
    match receiver {
        SVal::Str(_) => str_method_error(m, args),
        SVal::Int(_) => int_method_error(m),
        SVal::Float(_) => float_method_error(m),
        SVal::StrList(l) => str_list_method_error(m, l, args),
        SVal::IntList(l) => int_list_method_error(m, l, args),
        _ => "Method '"@ + m + "' not supported on this type"@,
    }
}

/// The message for a missing method argument.
fn missing_arg(method: &str, index: usize) -> (r: String)
    requires
        index <= 2,
    ensures
        r@ == "Method '"@ + method@ + "' missing argument at index "@ + crate::evaluate::int_text(
            index as int,
        ),
{
    let head = text3("Method '", method, "' missing argument at index ");
    let n = crate::evaluate::int_to_text(index as i64);
    head.concat(n.as_str())
}

/// The message for an argument of the wrong kind.
fn wrong_arg(method: &str, index: usize, kind: &str) -> (r: String)
    requires
        index <= 2,
    ensures
        r@ == "Method '"@ + method@ + "' argument "@ + crate::evaluate::int_text(index as int)
            + " expected "@ + kind@,
{
    let head = text3("Method '", method, "' argument ");
    let n = crate::evaluate::int_to_text(index as i64);
    let msg = text3(head.as_str(), n.as_str(), " expected ");
    msg.concat(kind)
}

/// The message for an unknown method of a kind of receiver.
fn unknown(kind: &str, method: &str) -> (r: RadeResult<Val>)
    ensures
        r is Err && r->Err_0@ == unknown_method_text(kind@, method@),
{
    Err(text3("Unknown ", kind, " method: ").concat(method))
}

/// The string argument at `index`.
fn get_str_arg<'a>(args: &'a Vec<Val>, index: usize, method: &str) -> (r: Result<&'a str, String>)
    requires
        index <= 2,
    ensures
        match str_arg(vals_view(args@), index as int) {
            Some(t) => r is Ok && r->Ok_0@ == t,
            None => r is Err && r->Err_0@ == str_arg_error(vals_view(args@), index as int, method@),
        },
{
    proof {
        lemma_vals_view(args@);
    }
    if index >= args.len() {
        return Err(missing_arg(method, index));
    }
    match &args[index] {
        Val::Str(s) => Ok(s.0.plain()),
        _ => Err(wrong_arg(method, index, "string")),
    }
}

/// The integer argument at `index`.
fn get_int_arg(args: &Vec<Val>, index: usize, method: &str) -> (r: Result<i64, String>)
    requires
        index <= 2,
    ensures
        match int_arg(vals_view(args@), index as int) {
            Some(i) => r is Ok && r->Ok_0 == i,
            None => r is Err && r->Err_0@ == int_arg_error(vals_view(args@), index as int, method@),
        },
{
    proof {
        lemma_vals_view(args@);
    }
    if index >= args.len() {
        return Err(missing_arg(method, index));
    }
    match &args[index] {
        Val::Int(i) => Ok(i.0),
        _ => Err(wrong_arg(method, index, "integer")),
    }
}

fn str_val(s: String) -> (r: Val)
    ensures
        r@ == SVal::Str(s@),
{
    Val::Str(Str(FatString::new(s)))
}

fn bool_val(b: bool) -> (r: Val)
    ensures
        r@ == SVal::Bool(b),
{
    Val::Bool(Bool(b))
}

fn int_val(i: i64) -> (r: Val)
    ensures
        r@ == SVal::Int(i),
{
    Val::Int(Int(i))
}

/// A scaled value as a decimal, when it can be held; `neg` gives it the minus sign.
fn signed_float(mag: u128, neg: bool) -> (r: RadeResult<Val>)
    ensures
        val_result(r, float_in_range(if neg { -(mag as int) } else { mag as int })),
        r is Err ==> r->Err_0@ == "Decimal out of range"@,
{
    if mag > i128::MAX as u128 {
        if neg && mag == (i128::MAX as u128) + 1 {
            return Ok(Val::Float(Float(i128::MIN)));
        }
        return fail_text("Decimal out of range");
    }
    let v: i128 = mag as i128;
    Ok(Val::Float(Float(if neg { -v } else { v })))
}

impl MethodCall {
    /// `receiver.method(args)`.
    pub fn new(receiver: Val, method: String, args: Vec<Val>) -> (r: MethodCall)
        ensures
            r.receiver@ == receiver@,
            r.method@ == method@,
            r.args@ == args@,
    {
        MethodCall { receiver: Box::new(receiver), method, args }
    }

    /// The name of the method.
    pub fn method(&self) -> (r: &String)
        ensures
            r@ == self.method@,
    {
        &self.method
    }

    /// Whether the method gives a boolean; an error for an unknown method.
    pub fn is_bool(&self) -> (r: RadeResult<bool>)
        ensures
            match method_returns_bool(self.method@) {
                Some(b) => r is Ok && r->Ok_0 == b,
                None => r is Err && r->Err_0@ == "Unknown method: "@ + self.method@,
            },
    {
        let m = self.method.as_str();
        if str_eq(m, "is_empty") || str_eq(m, "contains") || str_eq(m, "starts_with") || str_eq(
            m,
            "ends_with",
        ) {
            Ok(true)
        } else if str_eq(m, "len") || str_eq(m, "to_uppercase") || str_eq(m, "to_lowercase")
            || str_eq(m, "trim") || str_eq(m, "trim_start") || str_eq(m, "trim_end") || str_eq(
            m,
            "replace",
        ) || str_eq(m, "to_string") || str_eq(m, "first") || str_eq(m, "last") || str_eq(m, "get")
            || str_eq(m, "join") || str_eq(m, "sum") || str_eq(m, "min") || str_eq(m, "max")
            || str_eq(m, "reverse") || str_eq(m, "abs") || str_eq(m, "floor") || str_eq(m, "ceil")
            || str_eq(m, "round") {
            Ok(false)
        } else {
            Err("Unknown method: ".to_owned().concat(m))
        }
    }

    /// The method applied to a receiver value and argument values (see `apply_method`).
    pub fn apply(&self, receiver: &Val, args: &Vec<Val>) -> (r: RadeResult<Val>)
        ensures
            val_result(r, apply_method(receiver@, self.method@, vals_view(args@))),
            r is Ok ==> crate::event::is_data(r->Ok_0@),
            r is Err ==> r->Err_0@ == apply_method_error(receiver@, self.method@, vals_view(args@)),
    {
        match receiver {
            Val::Str(s) => self.call_str_method(s.0.plain(), args),
            Val::Int(i) => self.call_int_method(i.0),
            Val::Float(x) => self.call_float_method(*x),
            Val::StrList(l) => self.call_str_list_method(l, args),
            Val::IntList(l) => self.call_int_list_method(l, args),
            _ => Err(text3("Method '", self.method.as_str(), "' not supported on this type")),
        }
    }

    fn call_str_method(&self, s: &str, args: &Vec<Val>) -> (r: RadeResult<Val>)
        ensures
            val_result(r, str_method(self.method@, s@, vals_view(args@))),
            r is Ok ==> crate::event::is_data(r->Ok_0@),
            r is Err ==> r->Err_0@ == str_method_error(self.method@, vals_view(args@)),
    {
        let m = self.method.as_str();
        if str_eq(m, "len") {
            Ok(int_val(crate::functions::length(s.to_owned())))
        } else if str_eq(m, "is_empty") {
            Ok(bool_val(crate::functions::is_empty(s.to_owned())))
        } else if str_eq(m, "to_uppercase") {
            Ok(str_val(to_uppercase(s)))
        } else if str_eq(m, "to_lowercase") {
            Ok(str_val(to_lowercase(s)))
        } else if str_eq(m, "trim") {
            Ok(str_val(trim(s)))
        } else if str_eq(m, "trim_start") {
            Ok(str_val(trim_start(s)))
        } else if str_eq(m, "trim_end") {
            Ok(str_val(trim_end(s)))
        } else if str_eq(m, "to_string") {
            Ok(str_val(s.to_owned()))
        } else if str_eq(m, "contains") {
            match get_str_arg(args, 0, "contains") {
                Ok(t) => Ok(bool_val(str_contains(s, t))),
                Err(e) => Err(e),
            }
        } else if str_eq(m, "starts_with") {
            match get_str_arg(args, 0, "starts_with") {
                Ok(t) => Ok(bool_val(str_starts_with(s, t))),
                Err(e) => Err(e),
            }
        } else if str_eq(m, "ends_with") {
            match get_str_arg(args, 0, "ends_with") {
                Ok(t) => Ok(bool_val(str_ends_with(s, t))),
                Err(e) => Err(e),
            }
        } else if str_eq(m, "replace") {
            match get_str_arg(args, 0, "replace") {
                Ok(a) => match get_str_arg(args, 1, "replace") {
                    Ok(b) => Ok(str_val(replace_all(s, a, b))),
                    Err(e) => Err(e),
                },
                Err(e) => Err(e),
            }
        } else {
            unknown("string", m)
        }
    }

    fn call_int_method(&self, i: i64) -> (r: RadeResult<Val>)
        ensures
            val_result(r, int_method(self.method@, i)),
            r is Ok ==> crate::event::is_data(r->Ok_0@),
            r is Err ==> r->Err_0@ == int_method_error(self.method@),
    {
        let m = self.method.as_str();
        if str_eq(m, "abs") {
            if i == i64::MIN {
                fail_text("Integer overflow in abs")
            } else {
                Ok(int_val(if i < 0 { -i } else { i }))
            }
        } else if str_eq(m, "to_string") {
            Ok(str_val(crate::evaluate::int_to_text(i)))
        } else {
            unknown("integer", m)
        }
    }

    fn call_float_method(&self, x: Float) -> (r: RadeResult<Val>)
        ensures
            val_result(r, float_method(self.method@, x)),
            r is Ok ==> crate::event::is_data(r->Ok_0@),
            r is Err ==> r->Err_0@ == float_method_error(self.method@),
    {
        let m = self.method.as_str();
        let v: i128 = x.0;
        let neg = v < 0;
        let w: u128 = if neg { ((-(v + 1)) as u128) + 1 } else { v as u128 };
        let s: u128 = 1_000_000_000_000_000_000u128;
        let q: u128 = w / s;
        let rem: u128 = w % s;
        assert(w as int == if neg { -(v as int) } else { v as int });
        assert(FLOAT_SCALE == 1_000_000_000_000_000_000);
        assert(q as int == (w as int) / (FLOAT_SCALE as int) && rem as int == (w as int) % (FLOAT_SCALE as int));
        if str_eq(m, "abs") {
            signed_float(w, false)
        } else if str_eq(m, "floor") {
            if neg {
                let up: u128 = if rem > 0 { q + 1 } else { q };
                signed_float(up * s, true)
            } else {
                signed_float(q * s, false)
            }
        } else if str_eq(m, "ceil") {
            if neg {
                signed_float(q * s, true)
            } else {
                let up: u128 = if rem > 0 { q + 1 } else { q };
                signed_float(up * s, false)
            }
        } else if str_eq(m, "round") {
            let near: u128 = if rem >= s / 2 { q + 1 } else { q };
            signed_float(near * s, neg)
        } else if str_eq(m, "to_string") {
            Ok(str_val(float_to_text(x)))
        } else {
            unknown("float", m)
        }
    }

    fn call_str_list_method(&self, list: &StrList, args: &Vec<Val>) -> (r: RadeResult<Val>)
        ensures
            val_result(r, str_list_method(self.method@, crate::val::fat_strings_view(list.0@), vals_view(args@))),
            r is Ok ==> crate::event::is_data(r->Ok_0@),
            r is Err ==> r->Err_0@ == str_list_method_error(self.method@, crate::val::fat_strings_view(list.0@), vals_view(args@)),
    {
        let m = self.method.as_str();
        let ghost l = crate::val::fat_strings_view(list.0@);
        assert(l.len() == list.0@.len());
        assert(forall|k: int| 0 <= k < l.len() ==> #[trigger] l[k] == list.0@[k]@);
        let n = list.0.len();
        if str_eq(m, "len") {
            Ok(int_val(n as i64))
        } else if str_eq(m, "is_empty") {
            Ok(bool_val(n == 0))
        } else if str_eq(m, "first") {
            if n == 0 {
                fail_text("List is empty")
            } else {
                Ok(str_val(list.0[0].plain().to_owned()))
            }
        } else if str_eq(m, "last") {
            if n == 0 {
                fail_text("List is empty")
            } else {
                Ok(str_val(list.0[n - 1].plain().to_owned()))
            }
        } else if str_eq(m, "reverse") {
            let mut out: Vec<FatString> = Vec::new();
            let mut k: usize = n;
            while k > 0
                invariant
                    k <= n,
                    n == list.0@.len(),
                    l == crate::val::fat_strings_view(list.0@),
                    crate::val::fat_strings_view(out@) =~= l.reverse().take(n - k),
                decreases k,
            {
                k = k - 1;
                let ghost before = out@;
                out.push(list.0[k].clone());
                proof {
                    assert(crate::val::fat_strings_view(out@) =~= crate::val::fat_strings_view(
                        before,
                    ).push(list.0@[k as int]@));
                    assert(l.reverse().take(n - k) =~= l.reverse().take(n - k - 1).push(l[k as int]));
                }
            }
            proof {
                assert(l.reverse().take(n as int) =~= l.reverse());
            }
            Ok(Val::StrList(StrList(out)))
        } else if str_eq(m, "get") {
            match get_int_arg(args, 0, "get") {
                Ok(i) => match list.get(i) {
                    Ok(x) => Ok(str_val(x.plain().to_owned())),
                    Err(e) => Err(e),
                },
                Err(e) => Err(e),
            }
        } else if str_eq(m, "contains") {
            match get_str_arg(args, 0, "contains") {
                Ok(t) => {
                    let mut found = false;
                    let mut k: usize = 0;
                    while k < n
                        invariant
                            k <= n,
                            n == list.0@.len(),
                            l == crate::val::fat_strings_view(list.0@),
                            found == l.take(k as int).contains(t@),
                        decreases n - k,
                    {
                        let e = str_eq(list.0[k].plain(), t);
                        proof {
                            assert(l.take(k + 1) =~= l.take(k as int).push(l[k as int]));
                            if l.take(k as int).contains(t@) {
                                let j = choose|j: int| 0 <= j < k && #[trigger] l.take(k as int)[j] == t@;
                                assert(l.take(k + 1)[j] == t@);
                            }
                            if l.take(k + 1).contains(t@) {
                                let j = choose|j: int| 0 <= j < k + 1 && #[trigger] l.take(k + 1)[j] == t@;
                                if j < k {
                                    assert(l.take(k as int)[j] == t@);
                                }
                            }
                            if e {
                                assert(l.take(k + 1)[k as int] == t@);
                            }
                        }
                        found = found || e;
                        k = k + 1;
                    }
                    proof {
                        assert(l.take(n as int) =~= l);
                    }
                    Ok(bool_val(found))
                },
                Err(e) => Err(e),
            }
        } else if str_eq(m, "join") {
            match get_str_arg(args, 0, "join") {
                Ok(sep) => {
                    let mut acc = String::new();
                    let mut k: usize = 0;
                    while k < n
                        invariant
                            k <= n,
                            n == list.0@.len(),
                            l == crate::val::fat_strings_view(list.0@),
                            acc@ == join_texts(l.take(k as int), sep@),
                        decreases n - k,
                    {
                        proof {
                            assert(l.take(k + 1).drop_last() =~= l.take(k as int));
                            assert(l.take(k + 1).last() == l[k as int]);
                            if k == 0 {
                                assert(l.take(1)[0] == l[0]);
                            }
                        }
                        if k > 0 {
                            acc = acc.concat(sep);
                        }
                        acc = acc.concat(list.0[k].plain());
                        k = k + 1;
                    }
                    proof {
                        assert(l.take(n as int) =~= l);
                    }
                    Ok(str_val(acc))
                },
                Err(e) => Err(e),
            }
        } else {
            unknown("string list", m)
        }
    }

    #[verifier::rlimit(60)]
    #[verifier::spinoff_prover]
    fn call_int_list_method(&self, list: &IntList, args: &Vec<Val>) -> (r: RadeResult<Val>)
        ensures
            val_result(r, int_list_method(self.method@, list.0@, vals_view(args@))),
            r is Ok ==> crate::event::is_data(r->Ok_0@),
            r is Err ==> r->Err_0@ == int_list_method_error(self.method@, list.0@, vals_view(args@)),
    {
        let m = self.method.as_str();
        let l = &list.0;
        let n = l.len();
        if str_eq(m, "len") {
            Ok(int_val(n as i64))
        } else if str_eq(m, "is_empty") {
            Ok(bool_val(n == 0))
        } else if str_eq(m, "first") {
            if n == 0 { fail_text("List is empty") } else { Ok(int_val(l[0])) }
        } else if str_eq(m, "last") {
            if n == 0 { fail_text("List is empty") } else { Ok(int_val(l[n - 1])) }
        } else if str_eq(m, "sum") {
            let mut acc: i128 = 0;
            let mut k: usize = 0;
            while k < n
                invariant
                    k <= n,
                    n == l@.len(),
                    acc == int_sum(l@.take(k as int)),
                    -(k as int) * 0x8000_0000_0000_0000int <= acc <= (k as int) * 0x8000_0000_0000_0000int,
                decreases n - k,
            {
                proof {
                    assert(l@.take(k + 1).drop_last() =~= l@.take(k as int));
                    assert(l@.take(k + 1).last() == l@[k as int]);
                }
                acc = acc + l[k] as i128;
                k = k + 1;
            }
            proof {
                assert(l@.take(n as int) =~= l@);
            }
            if acc < i64::MIN as i128 || acc > i64::MAX as i128 {
                fail_text("Integer overflow in sum")
            } else {
                Ok(int_val(acc as i64))
            }
        } else if str_eq(m, "min") || str_eq(m, "max") {
            let want_min = str_eq(m, "min");
            if n == 0 {
                return fail_text("List is empty");
            }
            let mut best: i64 = l[0];
            let mut k: usize = 1;
            while k < n
                invariant
                    1 <= k <= n,
                    n == l@.len(),
                    want_min ==> best == int_min(l@.take(k as int)),
                    !want_min ==> best == int_max(l@.take(k as int)),
                decreases n - k,
            {
                proof {
                    assert(l@.take(k + 1).drop_last() =~= l@.take(k as int));
                    assert(l@.take(k + 1).last() == l@[k as int]);
                }
                if want_min {
                    if l[k] < best {
                        best = l[k];
                    }
                } else {
                    if l[k] > best {
                        best = l[k];
                    }
                }
                k = k + 1;
            }
            proof {
                assert(l@.take(n as int) =~= l@);
                assert(l@.take(1)[0] == l@[0]);
            }
            Ok(int_val(best))
        } else if str_eq(m, "reverse") {
            let mut out: Vec<i64> = Vec::new();
            let mut k: usize = n;
            while k > 0
                invariant
                    k <= n,
                    n == l@.len(),
                    out@ =~= l@.reverse().take(n - k),
                decreases k,
            {
                k = k - 1;
                out.push(l[k]);
                proof {
                    assert(l@.reverse().take(n - k) =~= l@.reverse().take(n - k - 1).push(l@[k as int]));
                }
            }
            proof {
                assert(l@.reverse().take(n as int) =~= l@.reverse());
            }
            Ok(Val::IntList(IntList(out)))
        } else if str_eq(m, "get") {
            match get_int_arg(args, 0, "get") {
                Ok(i) => match list.get(i) {
                    Ok(x) => Ok(int_val(*x)),
                    Err(e) => Err(e),
                },
                Err(e) => Err(e),
            }
        } else if str_eq(m, "contains") {
            match get_int_arg(args, 0, "contains") {
                Ok(x) => {
                    let mut found = false;
                    let mut k: usize = 0;
                    while k < n
                        invariant
                            k <= n,
                            n == l@.len(),
                            found == l@.take(k as int).contains(x),
                        decreases n - k,
                    {
                        proof {
                            assert(l@.take(k + 1) =~= l@.take(k as int).push(l@[k as int]));
                            if l@.take(k as int).contains(x) {
                                let j = choose|j: int| 0 <= j < k && #[trigger] l@.take(k as int)[j] == x;
                                assert(l@.take(k + 1)[j] == x);
                            }
                            if l@.take(k + 1).contains(x) {
                                let j = choose|j: int| 0 <= j < k + 1 && #[trigger] l@.take(k + 1)[j] == x;
                                if j < k {
                                    assert(l@.take(k as int)[j] == x);
                                }
                            }
                            if l@[k as int] == x {
                                assert(l@.take(k + 1)[k as int] == x);
                            }
                        }
                        found = found || l[k] == x;
                        k = k + 1;
                    }
                    proof {
                        assert(l@.take(n as int) =~= l@);
                    }
                    Ok(bool_val(found))
                },
                Err(e) => Err(e),
            }
        } else {
            unknown("integer list", m)
        }
    }
}

/// A non-negative scaled value split into whole units and a remainder.
proof fn lemma_units(v: int)
    requires
        v >= 0,
    ensures
        v == (v / 1_000_000_000_000_000_000int) * 1_000_000_000_000_000_000int + v % 1_000_000_000_000_000_000int,
        0 <= v % 1_000_000_000_000_000_000int < 1_000_000_000_000_000_000int,
        v / 1_000_000_000_000_000_000int >= 0,
{
    let s = 1_000_000_000_000_000_000int;
    assert(v == (v / s) * s + v % s && 0 <= v % s < s && v / s >= 0) by (nonlinear_arith)
        requires
            v >= 0,
            s == 1_000_000_000_000_000_000int,
    ;
}

/// A whole number of units is a multiple of the scale.
proof fn lemma_whole(k: int)
    ensures
        (k * 1_000_000_000_000_000_000int) % 1_000_000_000_000_000_000int == 0,
{
    let s = 1_000_000_000_000_000_000int;
    assert((k * s) % s == 0) by (nonlinear_arith)
        requires
            s == 1_000_000_000_000_000_000int,
    ;
}

/// A value that can be held keeps its number, and its remainder by the scale.
proof fn lemma_held(m: int)
    requires
        m % 1_000_000_000_000_000_000int == 0,
    ensures
        float_in_range(m) is Some ==> ({
            let r = float_in_range(m)->0;
            &&& r is Float
            &&& r->Float_0.0 as int == m
            &&& r->Float_0.0 % FLOAT_SCALE == 0
        }),
{
    if i128::MIN <= m <= i128::MAX {
        let c = m as i128;
        assert(c as int == m);
        assert(FLOAT_SCALE as int == 1_000_000_000_000_000_000int);
        assert((c % FLOAT_SCALE) as int == m % 1_000_000_000_000_000_000int);
    }
}

/// `ceil` gives the least whole number not below the decimal: a whole number `r` with
/// `x <= r < x + 1`, whenever that number can be held.
pub proof fn law_ceil_least_whole_not_below(x: Float)
    ensures
        float_method("ceil"@, x) is Some ==> ({
            let r = float_method("ceil"@, x)->0;
            &&& r is Float
            &&& r->Float_0.0 % FLOAT_SCALE == 0
            &&& x.0 <= r->Float_0.0 < x.0 + FLOAT_SCALE
        }),
        x.0 <= i128::MAX - FLOAT_SCALE ==> float_method("ceil"@, x) is Some,
{
    reveal_strlit("abs");
    reveal_strlit("floor");
    reveal_strlit("ceil");
    assert("ceil"@ != "abs"@ && "ceil"@ != "floor"@) by {
        assert("ceil"@.len() == 4 && "abs"@.len() == 3 && "floor"@.len() == 5);
    }
    let v = x.0 as int;
    let s = 1_000_000_000_000_000_000int;
    assert(FLOAT_SCALE as int == s);
    if v >= 0 {
        lemma_units(v);
        let k = v / s + if v % s > 0 { 1int } else { 0int };
        assert(up_mag(v) == k * s);
        lemma_whole(k);
        assert(v <= k * s < v + s);
        assert(float_method("ceil"@, x) == float_in_range(k * s));
        lemma_held(k * s);
    } else {
        let w = -v;
        lemma_units(w);
        let k = w / s;
        assert(down_mag(w) == k * s);
        lemma_whole(-k);
        assert(-(k * s) == (-k) * s);
        assert(v <= -(k * s) < v + s);
        assert(float_method("ceil"@, x) == float_in_range(-(k * s)));
        lemma_held(-(k * s));
    }
}

/// `floor` gives the greatest whole number not above the decimal: a whole number `r` with
/// `r <= x < r + 1`, whenever that number can be held.
pub proof fn law_floor_greatest_whole_not_above(x: Float)
    ensures
        float_method("floor"@, x) is Some ==> ({
            let r = float_method("floor"@, x)->0;
            &&& r is Float
            &&& r->Float_0.0 % FLOAT_SCALE == 0
            &&& r->Float_0.0 <= x.0 < r->Float_0.0 + FLOAT_SCALE
        }),
        x.0 >= i128::MIN + FLOAT_SCALE ==> float_method("floor"@, x) is Some,
{
    reveal_strlit("abs");
    reveal_strlit("floor");
    assert("floor"@ != "abs"@) by {
        assert("abs"@.len() == 3 && "floor"@.len() == 5);
    }
    let v = x.0 as int;
    let s = 1_000_000_000_000_000_000int;
    assert(FLOAT_SCALE as int == s);
    if v >= 0 {
        lemma_units(v);
        let k = v / s;
        assert(down_mag(v) == k * s);
        lemma_whole(k);
        assert(k * s <= v < k * s + s);
        assert(float_method("floor"@, x) == float_in_range(k * s));
        lemma_held(k * s);
    } else {
        let w = -v;
        lemma_units(w);
        let k = w / s + if w % s > 0 { 1int } else { 0int };
        assert(up_mag(w) == k * s);
        lemma_whole(-k);
        assert(-(k * s) == (-k) * s);
        assert(-(k * s) <= v < -(k * s) + s);
        assert(float_method("floor"@, x) == float_in_range(-(k * s)));
        lemma_held(-(k * s));
    }
}

/// `round` gives the whole number nearest to the decimal, halves away from zero: a whole
/// number `r` with `|r - x| <= 1/2`, and exactly `1/2` only away from zero.
pub proof fn law_round_nearest_whole(x: Float)
    ensures
        float_method("round"@, x) is Some ==> ({
            let r = float_method("round"@, x)->0;
            &&& r is Float
            &&& r->Float_0.0 % FLOAT_SCALE == 0
            &&& x.0 - FLOAT_SCALE / 2 <= r->Float_0.0 <= x.0 + FLOAT_SCALE / 2
            &&& (x.0 >= 0 ==> r->Float_0.0 > x.0 - FLOAT_SCALE / 2)
            &&& (x.0 < 0 ==> r->Float_0.0 < x.0 + FLOAT_SCALE / 2)
        }),
{
    reveal_strlit("abs");
    reveal_strlit("floor");
    reveal_strlit("ceil");
    reveal_strlit("round");
    assert("round"@ != "abs"@ && "round"@ != "floor"@ && "round"@ != "ceil"@) by {
        assert("ceil"@.len() == 4 && "abs"@.len() == 3 && "round"@.len() == 5);
        assert("round"@[0] == 'r' && "floor"@[0] == 'f');
    }
    let v = x.0 as int;
    let s = 1_000_000_000_000_000_000int;
    assert(FLOAT_SCALE as int == s);
    if v >= 0 {
        lemma_units(v);
        let k = v / s + if v % s >= s / 2 { 1int } else { 0int };
        assert(near_mag(v) == k * s);
        lemma_whole(k);
        assert(v - s / 2 < k * s <= v + s / 2);
        assert(float_method("round"@, x) == float_in_range(k * s));
        lemma_held(k * s);
    } else {
        let w = -v;
        lemma_units(w);
        let k = w / s + if w % s >= s / 2 { 1int } else { 0int };
        assert(near_mag(w) == k * s);
        lemma_whole(-k);
        assert(-(k * s) == (-k) * s);
        assert(v - s / 2 <= -(k * s) < v + s / 2);
        assert(float_method("round"@, x) == float_in_range(-(k * s)));
        lemma_held(-(k * s));
    }
}

} // verus!
