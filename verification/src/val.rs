//! The leaf values of conditions: comparators, numbers, strings, lists, fields and regexes.
use vstd::prelude::*;
use vstd::string::StringExecFns;
use crate::fat_string::FatString;

verus! {

/// What evaluation and parsing report when they fail.
pub type RadeResult<T> = Result<T, String>;

/// An error carrying `msg`.
pub fn fail<T>(msg: &str) -> (r: RadeResult<T>)
    ensures
        r is Err,
{
    Err(msg.to_owned())
}

/// The comparison that a condition applies between two values.
#[derive(Debug, Clone, Copy, PartialEq, Eq, Structural, Hash)]
pub enum Comparator {
    Eq,
    Neq,
    Gt,
    Lt,
    Ge,
    Le,
    Match,
    Nmatch,
}

/// The comparator that holds exactly when the given one does not.
pub open spec fn negated(c: Comparator) -> Comparator {
    match c {
        Comparator::Eq => Comparator::Neq,
        Comparator::Neq => Comparator::Eq,
        Comparator::Gt => Comparator::Le,
        Comparator::Lt => Comparator::Ge,
        Comparator::Ge => Comparator::Lt,
        Comparator::Le => Comparator::Gt,
        Comparator::Match => Comparator::Nmatch,
        Comparator::Nmatch => Comparator::Match,
    }
}

/// The comparator to use once the two operands change places (`a op b` is `b swap(op) a`).
pub open spec fn swapped(c: Comparator) -> Comparator {
    match c {
        Comparator::Gt => Comparator::Lt,
        Comparator::Lt => Comparator::Gt,
        Comparator::Ge => Comparator::Le,
        Comparator::Le => Comparator::Ge,
        _ => c,
    }
}

impl Comparator {
    /// The comparator that holds exactly when `self` does not.
    pub fn negate(&self) -> (r: Comparator)
        ensures
            r == negated(*self),
    {
        match self {
            Comparator::Eq => Comparator::Neq,
            Comparator::Neq => Comparator::Eq,
            Comparator::Gt => Comparator::Le,
            Comparator::Lt => Comparator::Ge,
            Comparator::Ge => Comparator::Lt,
            Comparator::Le => Comparator::Gt,
            Comparator::Match => Comparator::Nmatch,
            Comparator::Nmatch => Comparator::Match,
        }
    }

    /// The comparator for swapped operands (a op b -> b swap(op) a).
    pub fn swap(&self) -> (r: Comparator)
        ensures
            r == swapped(*self),
    {
        match self {
            Comparator::Eq => Comparator::Eq,
            Comparator::Neq => Comparator::Neq,
            Comparator::Gt => Comparator::Lt,
            Comparator::Lt => Comparator::Gt,
            Comparator::Ge => Comparator::Le,
            Comparator::Le => Comparator::Ge,
            Comparator::Match => Comparator::Match,
            Comparator::Nmatch => Comparator::Nmatch,
        }
    }
}

/// The result types that a registered function can have.
#[derive(Debug, Clone, Copy, PartialEq, Eq, Structural)]
pub enum ValType {
    Bool,
    Int,
    Float,
    String,
    IntList,
    StringList,
}

/// A boolean value.
#[derive(Debug, Clone, Copy, PartialEq, Eq, Structural, Hash)]
pub struct Bool(pub bool);

/// An integer value.
#[derive(Debug, Clone, Copy, PartialEq, Eq, Structural, Hash)]
pub struct Int(pub i64);

/// The position that `index` selects in a list of length `len`: counted from the front
/// when `index >= 0`, from the back when negative (-1 is the last); `None` outside.
pub open spec fn list_position(len: int, index: int) -> Option<int> {
    let actual = if index < 0 { len + index } else { index };
    if 0 <= actual < len { Some(actual) } else { None }
}

fn position(len: usize, index: i64) -> (r: Option<usize>)
    ensures
        match list_position(len as int, index as int) {
            Some(p) => r == Some(p as usize),
            None => r is None,
        },
{
    let l = len as i128;
    let actual: i128 = if index < 0 { l + index as i128 } else { index as i128 };
    if 0 <= actual && actual < l {
        Some(actual as usize)
    } else {
        None
    }
}

/// A list of integers.
#[derive(Debug, PartialEq, Eq, Hash)]
pub struct IntList(pub Vec<i64>);

impl Clone for IntList {
    fn clone(&self) -> (r: Self)
        ensures
            r.0@ == self.0@,
    {
        IntList(self.0.clone())
    }
}

impl IntList {
    pub fn new(list: Vec<i64>) -> (r: IntList)
        ensures
            r.0@ == list@,
    {
        IntList(list)
    }

    /// The element at `index`, counting from the back for negative indices.
    pub fn get(&self, index: i64) -> (r: RadeResult<&i64>)
        ensures
            match list_position(self.0@.len() as int, index as int) {
                Some(p) => r == Ok::<&i64, String>(&self.0@[p]),
                None => r is Err && r->Err_0@ == out_of_bounds_text(index, self.0@.len()),
            },
    {
        match position(self.0.len(), index) {
            Some(p) => Ok(&self.0[p]),
            None => out_of_bounds(index, self.0.len()),
        }
    }
}

/// A list length as the `i64` that the error text shows (every real length fits).
pub open spec fn shown_len(len: nat) -> int {
    if len <= i64::MAX { len as int } else { i64::MAX as int }
}

/// The error text for an index outside a list.
pub open spec fn out_of_bounds_text(index: i64, len: nat) -> Seq<char> {
    "Index "@ + crate::evaluate::int_text(index as int) + " out of bounds for list of length "@
        + crate::evaluate::int_text(shown_len(len))
}

/// An error for an index outside a list of length `len`.
fn out_of_bounds<T>(index: i64, len: usize) -> (r: RadeResult<T>)
    ensures
        r is Err && r->Err_0@ == out_of_bounds_text(index, len as nat),
{
    let shown: i64 = if (len as u128) <= (i64::MAX as u128) { len as i64 } else { i64::MAX };
    let head = crate::text::text3(
        "Index ",
        crate::evaluate::int_to_text(index).as_str(),
        " out of bounds for list of length ",
    );
    let tail = crate::evaluate::int_to_text(shown);
    Err(head.concat(tail.as_str()))
}

/// A string value with its insensitive forms.
pub struct Str(pub FatString);

impl Str {
    pub fn from_str(s: &str) -> (r: Str)
        ensures
            r.0@ == s@,
    {
        Str(FatString::from_str(s))
    }
}

/// A list of strings.
pub struct StrList(pub Vec<FatString>);

/// The characters of each string of a list.
pub open spec fn fat_strings_view(v: Seq<FatString>) -> Seq<Seq<char>> {
    v.map_values(|f: FatString| f@)
}

impl StrList {
    /// The element at `index`, counting from the back for negative indices.
    pub fn get(&self, index: i64) -> (r: RadeResult<&FatString>)
        ensures
            match list_position(self.0@.len() as int, index as int) {
                Some(p) => r is Ok && r->Ok_0@ == self.0@[p]@,
                None => r is Err && r->Err_0@ == out_of_bounds_text(index, self.0@.len()),
            },
    {
        match position(self.0.len(), index) {
            Some(p) => Ok(&self.0[p]),
            None => out_of_bounds(index, self.0.len()),
        }
    }
}

/// A reference to an event field by name.
pub struct Field(pub String);

impl Field {
    pub fn new(field_name: String) -> (r: Field)
        ensures
            r.0@ == field_name@,
    {
        Field(field_name)
    }

    /// The field's name.
    pub fn plain(&self) -> (r: &str)
        ensures
            r@ == self.0@,
    {
        self.0.as_str()
    }
}

/// Whether two integer lists have the same elements in the same order.
pub fn ints_equal(a: &Vec<i64>, b: &Vec<i64>) -> (r: bool)
    ensures
        r == (a@ == b@),
{
    if a.len() != b.len() {
        return false;
    }
    let mut i: usize = 0;
    while i < a.len()
        invariant
            i <= a@.len(),
            a@.len() == b@.len(),
            forall|j: int| 0 <= j < i ==> a@[j] == b@[j],
        decreases a.len() - i,
    {
        if a[i] != b[i] {
            return false;
        }
        i = i + 1;
    }
    proof {
        assert(a@ =~= b@);
    }
    true
}

/// Whether `x` is an element of `a`.
pub fn ints_contain(a: &Vec<i64>, x: i64) -> (r: bool)
    ensures
        r == a@.contains(x),
{
    let mut i: usize = 0;
    while i < a.len()
        invariant
            i <= a@.len(),
            forall|j: int| 0 <= j < i ==> a@[j] != x,
        decreases a.len() - i,
    {
        if a[i] == x {
            return true;
        }
        i = i + 1;
    }
    false
}

/// Negating a comparator twice gives it back.
pub proof fn law_negate_twice(c: Comparator)
    ensures
        negated(negated(c)) == c,
{
}

/// Swapping a comparator twice gives it back.
pub proof fn law_swap_twice(c: Comparator)
    ensures
        swapped(swapped(c)) == c,
{
}

/// A negative index `-k` counts from the back: `-1` is the last element; indices beyond
/// either end select nothing.
pub proof fn law_negative_index_from_back(len: int, k: int)
    requires
        len >= 0,
    ensures
        1 <= k <= len ==> list_position(len, -k) == Some(len - k),
        k > len ==> list_position(len, -k) is None,
        k >= len ==> list_position(len, k) is None,
{
}

} // verus!
