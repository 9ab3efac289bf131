//! Events: named fields holding booleans, integers, decimals, strings and lists of those.
use vstd::prelude::*;
use crate::ast::{SVal, Val};
use crate::fat_string::FatString;
use crate::float::Float;
use crate::text::{chars_of, string_from_chars};
use crate::val::{fail, fat_strings_view, Bool, Int, IntList, RadeResult, Str, StrList};

verus! {

/// The fields of an event in a hashbrown map from names to values.
#[verifier::external_body]
pub struct FieldMap {
    map: hashbrown::HashMap<String, Val>,
}

/// The names and value models that a `FieldMap` holds.
pub uninterp spec fn field_map_contents(m: FieldMap) -> Map<Seq<char>, SVal>;

/// The map without entries.
pub open spec fn no_fields() -> Map<Seq<char>, SVal> {
    Map::empty()
}

impl FieldMap {
    /// `hashbrown::HashMap::new`: a map without entries.
    #[verifier::external_body]
    pub(crate) fn new() -> (r: FieldMap)
        ensures
            field_map_contents(r) == no_fields(),
    {
        FieldMap { map: hashbrown::HashMap::new() }
    }

    /// `hashbrown::HashMap::insert`: afterwards `key` maps to `value` and every other key
    /// keeps its value.
    #[verifier::external_body]
    pub(crate) fn insert(&mut self, key: String, value: Val)
        ensures
            field_map_contents(*final(self)) == field_map_contents(*old(self)).insert(key@, value@),
    {
        self.map.insert(key, value);
    }

    /// `hashbrown::HashMap::get`: the value that `key` maps to, if any.
    #[verifier::external_body]
    pub(crate) fn get(&self, key: &str) -> (r: Option<&Val>)
        ensures
            match r {
                Some(v) => field_map_contents(*self).contains_key(key@) && v@ == field_map_contents(
                    *self,
                )[key@],
                None => !field_map_contents(*self).contains_key(key@),
            },
    {
        self.map.get(key)
    }

    /// `hashbrown::HashMap::keys`, copied out: each key once, in the map's own order.
    #[verifier::external_body]
    pub(crate) fn keys(&self) -> (r: Vec<String>)
        ensures
            forall|i: int| 0 <= i < r@.len() ==> field_map_contents(*self).contains_key(#[trigger] r@[i]@),
            forall|k: Seq<char>| field_map_contents(*self).contains_key(k) ==> exists|i: int|
                0 <= i < r@.len() && #[trigger] r@[i]@ == k,
            forall|i: int, j: int| 0 <= i < j < r@.len() ==> r@[i]@ != r@[j]@,
    {
        self.map.keys().cloned().collect()
    }
}

impl Clone for FieldMap {
    /// `hashbrown::HashMap::clone`: a map with the same entries.
    #[verifier::external_body]
    fn clone(&self) -> (r: Self)
        ensures
            field_map_contents(r) == field_map_contents(*self),
    {
        FieldMap { map: self.map.clone() }
    }
}

/// A value that an event field can hold.
pub open spec fn is_data(v: SVal) -> bool {
    match v {
        SVal::Bool(_) => true,
        SVal::Int(_) => true,
        SVal::Float(_) => true,
        SVal::Str(_) => true,
        SVal::IntList(_) => true,
        SVal::StrList(_) => true,
        _ => false,
    }
}

/// The model of an event: its fields and the name that `set_name` gave it, if any.
pub struct EventView {
    pub fields: Map<Seq<char>, SVal>,
    pub name: Option<Seq<char>>,
}

/// The characters of the word `name`.
pub open spec fn name_key() -> Seq<char> {
    seq!['n', 'a', 'm', 'e']
}

/// The string field `k` of an event: a name set by `set_name` for `name`, else the field's
/// value when it is a string.
pub open spec fn str_field(e: EventView, k: Seq<char>) -> Option<Seq<char>> {
    if k == name_key() && e.name is Some {
        e.name
    } else if e.fields.contains_key(k) && e.fields[k] is Str {
        Some(e.fields[k]->Str_0)
    } else {
        None
    }
}

/// An event: fields by name, and a name that overrides a `name` field.
pub struct Event {
    all: FieldMap,
    name: Option<FatString>,
}

impl View for Event {
    type V = EventView;

    closed spec fn view(&self) -> EventView {
        EventView {
            fields: field_map_contents(self.all),
            name: match self.name {
                Some(n) => Some(n@),
                None => None,
            },
        }
    }
}

/// A value that an event field is built from, as it comes from a document.
pub enum FieldInput {
    Bool(bool),
    Int(i64),
    Float(Float),
    Str(String),
    List(Vec<FieldInput>),
    /// A null, a mapping, an integer beyond `i64` or another form that no field takes.
    Unsupported,
}

pub open spec fn all_ints(items: Seq<FieldInput>) -> bool {
    forall|i: int| 0 <= i < items.len() ==> #[trigger] items[i] is Int
}

pub open spec fn all_strs(items: Seq<FieldInput>) -> bool {
    forall|i: int| 0 <= i < items.len() ==> #[trigger] items[i] is Str
}

/// Whether a field can be built from `v`: any scalar, or a list of integers only or
/// strings only.
pub open spec fn supported_input(v: FieldInput) -> bool {
    match v {
        FieldInput::Unsupported => false,
        FieldInput::List(items) => all_ints(items@) || all_strs(items@),
        _ => true,
    }
}

/// The value of the field built from `v`; a list of integers (the empty list among them)
/// becomes an integer list, a list of strings a string list.
pub open spec fn input_value(v: FieldInput) -> SVal {
    match v {
        FieldInput::Bool(b) => SVal::Bool(b),
        FieldInput::Int(i) => SVal::Int(i),
        FieldInput::Float(f) => SVal::Float(f),
        FieldInput::Str(s) => SVal::Str(s@),
        FieldInput::List(items) => if all_ints(items@) {
            SVal::IntList(items@.map_values(|x: FieldInput| x->Int_0))
        } else {
            SVal::StrList(items@.map_values(|x: FieldInput| x->Str_0@))
        },
        FieldInput::Unsupported => SVal::Bool(false),
    }
}

/// The fields built from `(name, input)` pairs, a later pair replacing an earlier one
/// with the same name.
pub open spec fn fields_of(inputs: Seq<(String, FieldInput)>) -> Map<Seq<char>, SVal>
    decreases inputs.len(),
{
    if inputs.len() == 0 {
        Map::empty()
    } else {
        fields_of(inputs.drop_last()).insert(inputs.last().0@, input_value(inputs.last().1))
    }
}

/// What std's `char::is_alphanumeric` says of a character.
pub uninterp spec fn alphanumeric(c: char) -> bool;

/// Calls std's `char::is_alphanumeric`; the Unicode tables behind it are not restated.
#[verifier::external_body]
fn is_alphanumeric(c: char) -> (r: bool)
    ensures
        r == alphanumeric(c),
{
    c.is_alphanumeric()
}

/// A character that separates tokens: neither alphanumeric nor `\`, `.` or `-`.
pub open spec fn separator(c: char) -> bool {
    !alphanumeric(c) && c != '\\' && c != '.' && c != '-'
}

/// Tokens of `s` from position `i` on, where `cur` is the token read so far and `acc` the
/// tokens finished before it; empty tokens are dropped.
pub open spec fn tokens_from(s: Seq<char>, i: int, cur: Seq<char>, acc: Seq<Seq<char>>) -> Seq<Seq<char>>
    decreases s.len() - i,
{
    if i >= s.len() {
        if cur.len() > 0 { acc.push(cur) } else { acc }
    } else if separator(s[i]) {
        tokens_from(s, i + 1, Seq::empty(), if cur.len() > 0 { acc.push(cur) } else { acc })
    } else {
        tokens_from(s, i + 1, cur.push(s[i]), acc)
    }
}

/// The maximal runs of non-separator characters of `s`, in order.
pub open spec fn tokens(s: Seq<char>) -> Seq<Seq<char>> {
    tokens_from(s, 0, Seq::empty(), Seq::empty())
}

impl FieldInput {
    /// Whether a field can be built from this input (see `supported_input`).
    pub fn is_supported(&self) -> (r: bool)
        ensures
            r == supported_input(*self),
    {
        match self {
            FieldInput::Unsupported => false,
            FieldInput::List(items) => {
                let mut ints = true;
                let mut strs = true;
                let mut k: usize = 0;
                while k < items.len()
                    invariant
                        k <= items@.len(),
                        ints == (forall|j: int| 0 <= j < k ==> #[trigger] items@[j] is Int),
                        strs == (forall|j: int| 0 <= j < k ==> #[trigger] items@[j] is Str),
                    decreases items.len() - k,
                {
                    if !matches!(items[k], FieldInput::Int(_)) {
                        ints = false;
                    }
                    if !matches!(items[k], FieldInput::Str(_)) {
                        strs = false;
                    }
                    k = k + 1;
                }
                ints || strs
            },
            _ => true,
        }
    }
}

fn input_to_val(v: &FieldInput) -> (r: Val)
    requires
        supported_input(*v),
    ensures
        r@ == input_value(*v),
{
    match v {
        FieldInput::Bool(b) => Val::Bool(Bool(*b)),
        FieldInput::Int(i) => Val::Int(Int(*i)),
        FieldInput::Float(f) => Val::Float(*f),
        FieldInput::Str(s) => Val::Str(Str(FatString::new(s.clone()))),
        FieldInput::List(items) => {
            let mut ints_only = true;
            let mut k: usize = 0;
            while k < items.len()
                invariant
                    k <= items@.len(),
                    ints_only == (forall|j: int| 0 <= j < k ==> #[trigger] items@[j] is Int),
                decreases items.len() - k,
            {
                if !matches!(items[k], FieldInput::Int(_)) {
                    ints_only = false;
                }
                k = k + 1;
            }
            if ints_only {
                let mut out: Vec<i64> = Vec::new();
                let mut i: usize = 0;
                while i < items.len()
                    invariant
                        i <= items@.len(),
                        all_ints(items@),
                        out@ == items@.take(i as int).map_values(|x: FieldInput| x->Int_0),
                    decreases items.len() - i,
                {
                    if let FieldInput::Int(x) = &items[i] {
                        out.push(*x);
                        proof {
                            assert(items@.take(i + 1) =~= items@.take(i as int).push(items@[i as int]));
                        }
                    }
                    i = i + 1;
                    proof {
                        assert(out@ =~= items@.take(i as int).map_values(|x: FieldInput| x->Int_0));
                    }
                }
                proof {
                    assert(items@.take(items@.len() as int) =~= items@);
                }
                Val::IntList(IntList(out))
            } else {
                let mut out: Vec<FatString> = Vec::new();
                let mut i: usize = 0;
                while i < items.len()
                    invariant
                        i <= items@.len(),
                        all_strs(items@),
                        fat_strings_view(out@) == items@.take(i as int).map_values(
                            |x: FieldInput| x->Str_0@,
                        ),
                    decreases items.len() - i,
                {
                    if let FieldInput::Str(s) = &items[i] {
                        let ghost before = out@;
                        let f = FatString::new(s.clone());
                        out.push(f);
                        proof {
                            assert(fat_strings_view(out@) =~= fat_strings_view(before).push(f@));
                            assert(items@.take(i + 1) =~= items@.take(i as int).push(items@[i as int]));
                        }
                    }
                    i = i + 1;
                    proof {
                        assert(fat_strings_view(out@) =~= items@.take(i as int).map_values(
                            |x: FieldInput| x->Str_0@,
                        ));
                    }
                }
                proof {
                    assert(items@.take(items@.len() as int) =~= items@);
                }
                Val::StrList(StrList(out))
            }
        },
        FieldInput::Unsupported => Val::Bool(Bool(false)),
    }
}

impl Event {
    #[verifier::type_invariant]
    spec fn fields_are_data(&self) -> bool {
        &&& field_map_contents(self.all).dom().finite()
        &&& forall|k: Seq<char>| #[trigger]
            field_map_contents(self.all).contains_key(k) ==> is_data(field_map_contents(self.all)[k])
    }

    /// The event whose fields are built from `(name, input)` pairs; a later pair replaces
    /// an earlier one with the same name.
    pub fn from_fields(fields: Vec<(String, FieldInput)>) -> (r: Event)
        requires
            forall|i: int| 0 <= i < fields@.len() ==> supported_input(#[trigger] fields@[i].1),
        ensures
            r@.fields == fields_of(fields@),
            r@.name is None,
    {
        let mut all = FieldMap::new();
        let mut i: usize = 0;
        while i < fields.len()
            invariant
                i <= fields@.len(),
                forall|j: int| 0 <= j < fields@.len() ==> supported_input(#[trigger] fields@[j].1),
                field_map_contents(all) == fields_of(fields@.take(i as int)),
                field_map_contents(all).dom().finite(),
                forall|k: Seq<char>| #[trigger]
                    field_map_contents(all).contains_key(k) ==> is_data(field_map_contents(all)[k]),
            decreases fields.len() - i,
        {
            let v = input_to_val(&fields[i].1);
            proof {
                assert(fields@.take(i + 1).drop_last() =~= fields@.take(i as int));
            }
            all.insert(fields[i].0.clone(), v);
            i = i + 1;
        }
        proof {
            assert(fields@.take(fields@.len() as int) =~= fields@);
        }
        Event { all, name: None }
    }

    /// The tokens of `s`: the maximal runs of characters that are alphanumeric or one of
    /// `\`, `.` and `-`.
    pub fn tokenize(s: &str) -> (r: Vec<FatString>)
        ensures
            fat_strings_view(r@) == tokens(s@),
    {
        let cs = chars_of(s);
        let mut out: Vec<FatString> = Vec::new();
        let mut cur: Vec<char> = Vec::new();
        let mut i: usize = 0;
        proof {
            assert(fat_strings_view(out@) =~= Seq::<Seq<char>>::empty());
        }
        while i < cs.len()
            invariant
                i <= cs@.len(),
                cs@ == s@,
                tokens(s@) == tokens_from(s@, i as int, cur@, fat_strings_view(out@)),
            decreases cs.len() - i,
        {
            let c = cs[i];
            let sep = !is_alphanumeric(c) && c != '\\' && c != '.' && c != '-';
            if sep {
                if cur.len() > 0 {
                    let ghost before = out@;
                    let t = FatString::new(string_from_chars(cur.as_slice()));
                    out.push(t);
                    proof {
                        assert(fat_strings_view(out@) =~= fat_strings_view(before).push(cur@));
                    }
                    cur = Vec::new();
                } else {
                    cur = Vec::new();
                    proof {
                        assert(cur@ =~= Seq::<char>::empty());
                    }
                }
            } else {
                cur.push(c);
            }
            i = i + 1;
        }
        if cur.len() > 0 {
            let ghost before = out@;
            let t = FatString::new(string_from_chars(cur.as_slice()));
            out.push(t);
            proof {
                assert(fat_strings_view(out@) =~= fat_strings_view(before).push(cur@));
            }
        }
        out
    }

    /// The event's name: the one `set_name` gave, else its `name` field when that is a
    /// string.
    pub fn name(&self) -> (r: Option<&str>)
        ensures
            match str_field(self@, name_key()) {
                Some(n) => r is Some && r->0@ == n,
                None => r is None,
            },
    {
        proof {
            reveal_strlit("name");
            assert("name"@ =~= name_key());
        }
        match self.str_field_at("name") {
            Ok(f) => Some(f.plain()),
            Err(_) => None,
        }
    }

    /// Gives the event a name; its fields stay as they were.
    pub fn set_name(&mut self, name: &str)
        ensures
            final(self)@.fields == old(self)@.fields,
            final(self)@.name == Some(name@),
    {
        proof {
            use_type_invariant(&*self);
        }
        self.name = Some(FatString::from_str(name));
    }

    /// The integer field `field_name`.
    pub fn get_int_field(&self, field_name: &String) -> (r: RadeResult<i64>)
        ensures
            match r {
                Ok(i) => self@.fields.contains_key(field_name@) && self@.fields[field_name@]
                    == SVal::Int(i),
                Err(_) => !(self@.fields.contains_key(field_name@)
                    && self@.fields[field_name@] is Int),
            },
    {
        match self.all.get(field_name.as_str()) {
            Some(Val::Int(i)) => Ok(i.0),
            _ => fail("Int field not found"),
        }
    }

    /// The boolean field `field_name`.
    pub fn get_bool_field(&self, field_name: &String) -> (r: RadeResult<bool>)
        ensures
            match r {
                Ok(b) => self@.fields.contains_key(field_name@) && self@.fields[field_name@]
                    == SVal::Bool(b),
                Err(_) => !(self@.fields.contains_key(field_name@)
                    && self@.fields[field_name@] is Bool),
            },
    {
        match self.all.get(field_name.as_str()) {
            Some(Val::Bool(b)) => Ok(b.0),
            _ => fail("Bool field not found"),
        }
    }

    /// The string field `field_name` (the name that `set_name` gave, for `name`).
    pub fn get_str_field(&self, field_name: &String) -> (r: RadeResult<&FatString>)
        ensures
            match str_field(self@, field_name@) {
                Some(s) => r is Ok && r->Ok_0@ == s,
                None => r is Err,
            },
    {
        self.str_field_at(field_name.as_str())
    }

    fn str_field_at(&self, field_name: &str) -> (r: RadeResult<&FatString>)
        ensures
            match str_field(self@, field_name@) {
                Some(s) => r is Ok && r->Ok_0@ == s,
                None => r is Err,
            },
    {
        proof {
            reveal_strlit("name");
            assert("name"@ =~= name_key());
        }
        if crate::text::str_eq(field_name, "name") {
            if let Some(n) = &self.name {
                return Ok(n);
            }
        }
        match self.all.get(field_name) {
            Some(Val::Str(s)) => Ok(&s.0),
            _ => fail("Str field not found"),
        }
    }

    /// The string-list field `field_name`.
    pub fn get_strlist_field(&self, field_name: &String) -> (r: RadeResult<&Vec<FatString>>)
        ensures
            match r {
                Ok(l) => self@.fields.contains_key(field_name@) && self@.fields[field_name@]
                    == SVal::StrList(fat_strings_view(l@)),
                Err(_) => !(self@.fields.contains_key(field_name@)
                    && self@.fields[field_name@] is StrList),
            },
    {
        match self.all.get(field_name.as_str()) {
            Some(Val::StrList(l)) => Ok(&l.0),
            _ => fail("Str list not found"),
        }
    }

    /// The integer-list field `field_name`.
    pub fn get_intlist_field(&self, field_name: &String) -> (r: RadeResult<&Vec<i64>>)
        ensures
            match r {
                Ok(l) => self@.fields.contains_key(field_name@) && self@.fields[field_name@]
                    == SVal::IntList(l@),
                Err(_) => !(self@.fields.contains_key(field_name@)
                    && self@.fields[field_name@] is IntList),
            },
    {
        match self.all.get(field_name.as_str()) {
            Some(Val::IntList(l)) => Ok(&l.0),
            _ => fail("Int list not found"),
        }
    }

    /// The field `field_name`, whatever it holds.
    pub fn get_field(&self, field_name: &String) -> (r: RadeResult<&Val>)
        ensures
            match r {
                Ok(v) => self@.fields.contains_key(field_name@) && v@ == self@.fields[field_name@]
                    && is_data(v@),
                Err(_) => !self@.fields.contains_key(field_name@),
            },
    {
        proof {
            use_type_invariant(self);
        }
        match self.all.get(field_name.as_str()) {
            Some(v) => Ok(v),
            None => fail("Field not found"),
        }
    }

    /// The names of the event's fields, each once.
    pub fn field_names(&self) -> (r: Vec<String>)
        ensures
            forall|i: int| 0 <= i < r@.len() ==> self@.fields.contains_key(#[trigger] r@[i]@),
            forall|k: Seq<char>| self@.fields.contains_key(k) ==> exists|i: int|
                0 <= i < r@.len() && #[trigger] r@[i]@ == k,
            forall|i: int, j: int| 0 <= i < j < r@.len() ==> r@[i]@ != r@[j]@,
    {
        self.all.keys()
    }
}

impl Clone for Event {
    fn clone(&self) -> (r: Self)
        ensures
            r@ == self@,
    {
        proof {
            use_type_invariant(self);
        }
        let name = match &self.name {
            Some(n) => Some(n.clone()),
            None => None,
        };
        Event { all: self.all.clone(), name }
    }
}

/// The models of a list of events.
pub open spec fn events_view(v: Seq<Event>) -> Seq<EventView> {
    v.map_values(|e: Event| e@)
}

/// A list of events.
pub struct Events(pub Vec<Event>);

impl Events {
    pub fn new(events: Vec<Event>) -> (r: Events)
        ensures
            r.0@ == events@,
    {
        Events(events)
    }

    /// The events, in order.
    pub fn get(self) -> (r: Vec<Event>)
        ensures
            r@ == self.0@,
    {
        self.0
    }

    /// The events as a slice, in order.
    pub fn iter(&self) -> (r: &[Event])
        ensures
            r@ == self.0@,
    {
        self.0.as_slice()
    }

    pub fn add_event(&mut self, event: Event)
        ensures
            final(self).0@ == old(self).0@.push(event),
    {
        self.0.push(event);
    }
}

/// After `set_name(n)` an event's name is `n`, whatever its `name` field holds.
pub proof fn law_set_name_then_name(e: EventView, n: Seq<char>)
    ensures
        str_field(EventView { name: Some(n), ..e }, name_key()) == Some(n),
{
}

/// Tokens never are empty and never hold a separator.
pub proof fn law_tokens_are_clean(s: Seq<char>)
    ensures
        forall|k: int| 0 <= k < tokens(s).len() ==> #[trigger] tokens(s)[k].len() > 0,
        forall|k: int, j: int|
            0 <= k < tokens(s).len() && 0 <= j < tokens(s)[k].len() ==> !separator(
                #[trigger] tokens(s)[k][j],
            ),
{
    lemma_tokens_from_clean(s, 0, Seq::empty(), Seq::empty());
}

proof fn lemma_tokens_from_clean(s: Seq<char>, i: int, cur: Seq<char>, acc: Seq<Seq<char>>)
    requires
        forall|k: int| 0 <= k < acc.len() ==> #[trigger] acc[k].len() > 0,
        forall|k: int, j: int| 0 <= k < acc.len() && 0 <= j < acc[k].len() ==> !separator(#[trigger] acc[k][j]),
        forall|j: int| 0 <= j < cur.len() ==> !separator(#[trigger] cur[j]),
    ensures
        forall|k: int| 0 <= k < tokens_from(s, i, cur, acc).len() ==> #[trigger] tokens_from(s, i, cur, acc)[k].len() > 0,
        forall|k: int, j: int|
            0 <= k < tokens_from(s, i, cur, acc).len() && 0 <= j < tokens_from(s, i, cur, acc)[k].len()
                ==> !separator(#[trigger] tokens_from(s, i, cur, acc)[k][j]),
    decreases s.len() - i,
{
    let flushed = if cur.len() > 0 { acc.push(cur) } else { acc };
    assert forall|k: int| 0 <= k < flushed.len() implies #[trigger] flushed[k].len() > 0 by {
        if k < acc.len() {
            assert(flushed[k] == acc[k]);
        }
    }
    assert forall|k: int, j: int| 0 <= k < flushed.len() && 0 <= j < flushed[k].len() implies !separator(
        #[trigger] flushed[k][j],
    ) by {
        if k < acc.len() {
            assert(flushed[k] == acc[k]);
        } else {
            assert(flushed[k] == cur);
        }
    }
    if i >= s.len() {
        assert(tokens_from(s, i, cur, acc) == flushed);
    } else if i < 0 {
        if separator(s[i]) {
            assert(tokens_from(s, i, cur, acc) == tokens_from(s, i + 1, Seq::empty(), flushed));
            lemma_tokens_from_clean(s, i + 1, Seq::empty(), flushed);
        } else {
            let next = cur.push(s[i]);
            assert forall|j: int| 0 <= j < next.len() implies !separator(#[trigger] next[j]) by {
                if j < cur.len() {
                    assert(next[j] == cur[j]);
                }
            }
            assert(tokens_from(s, i, cur, acc) == tokens_from(s, i + 1, next, acc));
            lemma_tokens_from_clean(s, i + 1, next, acc);
        }
    } else if separator(s[i]) {
        assert(tokens_from(s, i, cur, acc) == tokens_from(s, i + 1, Seq::empty(), flushed));
        lemma_tokens_from_clean(s, i + 1, Seq::empty(), flushed);
    } else {
        let next = cur.push(s[i]);
        assert forall|j: int| 0 <= j < next.len() implies !separator(#[trigger] next[j]) by {
            if j < cur.len() {
                assert(next[j] == cur[j]);
            }
        }
        assert(tokens_from(s, i, cur, acc) == tokens_from(s, i + 1, next, acc));
        lemma_tokens_from_clean(s, i + 1, next, acc);
    }
}

} // verus!
