use rade::ast::{FnCall, Val};
use rade::event::{Event, FieldInput};
use rade::evaluate::ResultMap;
use rade::fat_string::{FatString, InsensitiveFlag};
use rade::float::{float_eq, Float};
use rade::functions::{is_empty, length, split};
use rade::parser::ConditionParser;
use rade::pattern::{FatRegex, RadeRegex};
use rade::val::{Bool, Comparator, Field, Int, IntList, Str, StrList};

fn strs(v: &[&str]) -> Vec<String> {
    v.iter().map(|s| s.to_string()).collect()
}

fn sample_event() -> Event {
    Event::from_fields(vec![
        ("name".to_string(), FieldInput::Str("Alice".to_string())),
        ("count".to_string(), FieldInput::Int(3)),
        ("ratio".to_string(), FieldInput::Float(Float::from_decimal("0.5").unwrap())),
        ("flag".to_string(), FieldInput::Bool(true)),
        (
            "tags".to_string(),
            FieldInput::List(vec![FieldInput::Str("x".to_string()), FieldInput::Str("y".to_string())]),
        ),
        ("nums".to_string(), FieldInput::List(vec![FieldInput::Int(4), FieldInput::Int(5)])),
        ("empty".to_string(), FieldInput::List(vec![])),
    ])
}

#[test]
fn split_agrees_with_std() {
    let cases = [("a,b,,c", ","), ("abc", ""), ("", ""), ("aaa", "aa"), ("x--y--", "--"), ("no sep", ";")];
    for (s, d) in cases {
        let expected: Vec<String> = s.split(d).map(String::from).collect();
        assert_eq!(split(s.to_string(), d.to_string()), expected, "split({:?}, {:?})", s, d);
    }
}

#[test]
fn concat_length_is_empty() {
    assert_eq!(rade::functions::concat(strs(&["hello", "world"])), "helloworld");
    assert_eq!(rade::functions::concat(vec![]), "");
    assert_eq!(length("héllo".to_string()), 6);
    assert_eq!(length("".to_string()), 0);
    assert!(is_empty(String::new()));
    assert!(!is_empty("a".to_string()));
}

#[test]
fn function_calls_through_conditions() {
    let e = Event::from_fields(vec![("csv".to_string(), FieldInput::Str("a;b;c".to_string()))]);
    let c = ConditionParser::parse_condition("length(concat(split(csv, ';'))) == 3").unwrap();
    assert!(c.evaluate(&e, &mut ResultMap::new()));
    let c = ConditionParser::parse_condition("float_sum(1.25, 2.5) == 3.75").unwrap();
    assert!(c.evaluate(&e, &mut ResultMap::new()));
    let c = ConditionParser::parse_condition("split(csv, ';')[0] == 'a'");
    assert!(c.is_err());
    let c = ConditionParser::parse_condition("unknown_fn(csv) == 1").unwrap();
    assert!(!c.evaluate(&e, &mut ResultMap::new()));
}

#[test]
fn fn_call_call_and_is_bool() {
    let e = sample_event();
    let call = FnCall::new("length".to_string(), vec![Val::Field(Field::new("name".to_string()))]);
    let v = call.call(&e, &mut ResultMap::new()).unwrap();
    assert_eq!(v.to_i64().unwrap(), 5);
    assert_eq!(call.is_bool().unwrap(), false);
    let b = FnCall::new("is_empty".to_string(), vec![Val::Str(Str::from_str(""))]);
    assert!(b.is_bool().unwrap());
    assert!(FnCall::new("nope".to_string(), vec![]).is_bool().is_err());
    let missing = FnCall::new("length".to_string(), vec![]);
    assert!(missing.call(&e, &mut ResultMap::new()).is_err());
}

#[test]
fn conversions_of_values() {
    assert_eq!(Val::Bool(Bool(true)).to_bool().unwrap(), true);
    assert!(Val::Int(Int(1)).to_bool().is_err());
    assert_eq!(Val::Int(Int(-7)).to_i64().unwrap(), -7);
    assert_eq!(Val::Str(Str::from_str("q")).to_string().unwrap(), "q");
    let l = Val::StrList(StrList(vec![FatString::from_str("a"), FatString::from_str("b")]));
    assert_eq!(l.to_str_list().unwrap(), strs(&["a", "b"]));
    let ints = Val::IntList(IntList::new(vec![0, -12, 345, i64::MIN]));
    assert_eq!(ints.to_int_list().unwrap(), strs(&["0", "-12", "345", "-9223372036854775808"]));
    assert!(Val::Int(Int(1)).to_int_list().is_err());
    assert_eq!(Val::Float(Float::from_decimal("2.5").unwrap()).to_f64().unwrap(), Float::from_decimal("2.5").unwrap());
}

#[test]
fn field_access_on_events() {
    let e = sample_event();
    assert_eq!(e.get_int_field(&"count".to_string()).unwrap(), 3);
    assert!(e.get_int_field(&"name".to_string()).is_err());
    assert_eq!(e.get_bool_field(&"flag".to_string()).unwrap(), true);
    assert_eq!(e.get_str_field(&"name".to_string()).unwrap().plain(), "Alice");
    assert_eq!(e.get_strlist_field(&"tags".to_string()).unwrap().len(), 2);
    assert_eq!(e.get_intlist_field(&"nums".to_string()).unwrap(), &vec![4, 5]);
    assert_eq!(e.get_intlist_field(&"empty".to_string()).unwrap().len(), 0);
    assert!(e.get_field(&"missing".to_string()).is_err());
    let tags = Field::new("tags".to_string());
    assert_eq!(tags.get_str(&e, -1).unwrap().plain(), "y");
    assert!(tags.get_str(&e, 2).is_err());
    let nums = Field::new("nums".to_string());
    assert_eq!(nums.get_int(&e, -2).unwrap(), 4);
    assert_eq!(nums.get_val(&e, 1).unwrap().to_i64().unwrap(), 5);
    assert!(nums.get_str(&e, 0).is_err());
}

#[test]
fn name_and_set_name() {
    let mut e = sample_event();
    assert_eq!(e.name(), Some("Alice"));
    e.set_name("Bob");
    assert_eq!(e.name(), Some("Bob"));
    assert_eq!(e.get_field(&"name".to_string()).unwrap().to_string().unwrap(), "Alice");
    let mut unnamed = Event::from_fields(vec![]);
    assert_eq!(unnamed.name(), None);
    unnamed.set_name("file");
    assert_eq!(unnamed.name(), Some("file"));
}

#[test]
fn supported_inputs() {
    assert!(FieldInput::Int(1).is_supported());
    assert!(!FieldInput::Unsupported.is_supported());
    assert!(FieldInput::List(vec![]).is_supported());
    assert!(!FieldInput::List(vec![FieldInput::Int(1), FieldInput::Str("a".to_string())]).is_supported());
    assert!(!FieldInput::List(vec![FieldInput::Bool(true)]).is_supported());
}

#[test]
fn tokenize_splits_on_separators() {
    let tokens: Vec<String> = Event::tokenize("[Ref].Assembly.GetType('a-b\\c')  x")
        .iter()
        .map(|f| f.plain().to_string())
        .collect();
    assert_eq!(tokens, strs(&["Ref", ".Assembly.GetType", "a-b\\c", "x"]));
    assert!(Event::tokenize("  ,; ").is_empty());
}

#[test]
fn as_str_as_f64_as_i64() {
    let e = sample_event();
    let f = Val::Field(Field::new("name".to_string()));
    assert_eq!(f.as_str(&e, &None).unwrap(), "Alice");
    assert_eq!(f.as_str(&e, &Some(InsensitiveFlag::Case)).unwrap(), "alice");
    let l = Val::StrList(StrList(vec![]));
    assert!(l.as_str(&e, &None).is_err());
    assert_eq!(Val::Int(Int(2)).as_f64(&e).unwrap(), Float::from_int(2));
    assert!(f.as_f64(&e).is_err());
    assert_eq!(Val::Float(Float::from_decimal("-2.75").unwrap()).as_i64(&e).unwrap(), -2);
    assert_eq!(Val::Field(Field::new("count".to_string())).as_i64(&e).unwrap(), 3);
    assert_eq!(Val::FieldIndex(Field::new("nums".to_string()), 0).as_i64(&e).unwrap(), 4);
    let sl = Val::StrList(StrList(vec![FatString::from_str("A"), FatString::from_str("b")]));
    assert_eq!(sl.as_str_list(&e, &Some(InsensitiveFlag::Case)).unwrap(), vec!["a", "b"]);
}

#[test]
fn comparisons_between_values() {
    let e = sample_event();
    let count = Val::Field(Field::new("count".to_string()));
    assert!(count.compare_with(&Val::Int(Int(3)), &e, &Comparator::Eq, &None).unwrap());
    assert!(Val::Int(Int(2)).compare_with(&count, &e, &Comparator::Lt, &None).unwrap());
    let ratio = Val::Field(Field::new("ratio".to_string()));
    assert!(ratio.compare_with(&Val::Float(Float::from_decimal("0.5000001").unwrap()), &e, &Comparator::Eq, &None).unwrap());
    assert!(Val::Int(Int(1)).compare_with(&Val::Int(Int(1)), &e, &Comparator::Match, &None).is_err());
    assert!(Val::Int(Int(1)).compare_with(&Val::Int(Int(1)), &e, &Comparator::Eq, &Some(InsensitiveFlag::Case)).is_err());
    assert!(Val::Bool(Bool(true)).compare_with(&Val::Field(Field::new("flag".to_string())), &e, &Comparator::Eq, &None).unwrap());
    assert!(Val::Bool(Bool(true)).compare_with(&Val::Bool(Bool(true)), &e, &Comparator::Gt, &None).is_err());
    assert!(Val::Str(Str::from_str("ALICE")).compare_with(&Val::Field(Field::new("name".to_string())), &e, &Comparator::Eq, &Some(InsensitiveFlag::Case)).unwrap());
    assert!(Val::StrList(StrList(vec![])).compare_with(&Val::Int(Int(1)), &e, &Comparator::Eq, &None).is_err());
}

#[test]
fn as_bool_and_validate_bool() {
    let e = sample_event();
    assert!(Val::Field(Field::new("flag".to_string())).as_bool(&e).unwrap());
    assert!(Val::Int(Int(1)).as_bool(&e).is_err());
    assert!(Val::Int(Int(1)).validate_bool().is_err());
    assert!(Val::Field(Field::new("x".to_string())).validate_bool().is_ok());
    let call = Val::FnCall(FnCall::new("length".to_string(), vec![]));
    assert!(call.validate_bool().is_err());
}

#[test]
fn regex_matching_and_display() {
    let e = sample_event();
    let re = RadeRegex::from_str("/^ali/i").unwrap();
    assert_eq!(re.as_str(), "(?i)^ali");
    assert_eq!(re.flag(), Some(InsensitiveFlag::Case));
    assert_eq!(re.to_string(), "/^ali/i");
    assert!(re.match_(&Val::Field(Field::new("name".to_string())), &e, &Comparator::Match).unwrap());
    assert!(!re.match_(&Val::Field(Field::new("name".to_string())), &e, &Comparator::Nmatch).unwrap());
    assert!(re.match_(&Val::Field(Field::new("name".to_string())), &e, &Comparator::Eq).is_err());
    assert_eq!(RadeRegex::from_str("/a\\/b/").unwrap().as_str(), "a/b");
    assert!(RadeRegex::from_str("/(unclosed/").is_err());
    let back = RadeRegex::from_str(&re.to_string()).unwrap();
    assert_eq!(back.as_str(), re.as_str());
    let r = Val::Regex(RadeRegex::from_str("/x/").unwrap());
    assert!(r.match_(&Val::Str(Str::from_str("axb")), &e, &Comparator::Match).unwrap());
    assert!(Val::Int(Int(1)).match_(&Val::Str(Str::from_str("x")), &e, &Comparator::Match).is_err());
}

#[test]
fn fat_strings_and_fat_regexes() {
    let f = FatString::from_str("Don't");
    assert_eq!(f.choose_form(&None), "Don't");
    assert_eq!(f.choose_form(&Some(InsensitiveFlag::Case)), "don't");
    assert_eq!(f.choose_form(&Some(InsensitiveFlag::Apostrophe)), "Don\"t");
    assert_eq!(f.choose_form(&Some(InsensitiveFlag::CaseAndApostrophe)), "don\"t");
    assert_eq!(f.lowercased(), "don't");
    let r = FatRegex::from_str("It's").unwrap();
    assert_eq!(r.lowercased(), "it's");
    assert!(r.is_match("it\"s", &Some(InsensitiveFlag::CaseAndApostrophe)));
    assert!(FatRegex::from_str("(").is_err());
    assert_eq!(InsensitiveFlag::from_regex_flags("mia"), Some(InsensitiveFlag::CaseAndApostrophe));
    assert_eq!(InsensitiveFlag::from_regex_flags("ai"), Some(InsensitiveFlag::Case));
    assert_eq!(InsensitiveFlag::from_regex_flags("sa"), Some(InsensitiveFlag::Apostrophe));
    assert_eq!(InsensitiveFlag::from_regex_flags("ms"), None);
}

#[test]
fn int_list_operations() {
    let e = sample_event();
    let l = IntList::new(vec![4, 5]);
    assert!(l.eq(&Val::IntList(IntList::new(vec![4, 5])), &e).unwrap());
    assert!(!l.eq(&Val::IntList(IntList::new(vec![5, 4])), &e).unwrap());
    assert!(l.eq(&Val::Int(Int(4)), &e).is_err());
    assert!(l.contains(&Val::Int(Int(5)), &e, &None).unwrap());
    assert!(!l.contains(&Val::Int(Int(6)), &e, &None).unwrap());
    assert_eq!(*l.get(-1).unwrap(), 5);
    assert!(l.get(2).is_err());
    assert!(l.as_i64(&e).is_err());
    assert_eq!(IntList::new(vec![9]).as_i64(&e).unwrap(), 9);
}

#[test]
fn str_contains_starts_ends() {
    let e = sample_event();
    let s = Str::from_str("Hello World");
    assert!(s.contains(&Val::Str(Str::from_str("lo w")), &e, &Some(InsensitiveFlag::Case)).unwrap());
    assert!(!s.contains(&Val::Str(Str::from_str("lo w")), &e, &None).unwrap());
    assert!(s.starts_with(&Str::from_str("Hell"), &e, &None).unwrap());
    assert!(s.ends_with(&Str::from_str("WORLD"), &e, &Some(InsensitiveFlag::Case)).unwrap());
    assert!(!s.ends_with(&Str::from_str("Hello"), &e, &None).unwrap());
}

#[test]
fn decimals() {
    let a = Float::from_decimal("1.5").unwrap();
    let b = Float::from_decimal("1.5000009").unwrap();
    let c = Float::from_decimal("1.500001").unwrap();
    assert!(float_eq(a, b));
    assert!(float_eq(b, a));
    assert!(!float_eq(a, c));
    assert_eq!(Float::from_decimal("-0.25").unwrap().0, -250_000_000_000_000_000);
    assert!(Float::from_decimal("abc").is_none());
    assert_eq!(a.checked_add(a), Float::from_decimal("3"));
    assert!(Float(i128::MAX).checked_add(a).is_none());
}

#[test]
fn comparator_negate_and_swap() {
    let all = [
        Comparator::Eq,
        Comparator::Neq,
        Comparator::Gt,
        Comparator::Lt,
        Comparator::Ge,
        Comparator::Le,
        Comparator::Match,
        Comparator::Nmatch,
    ];
    for c in all {
        assert_eq!(c.negate().negate(), c);
        assert_eq!(c.swap().swap(), c);
        assert_eq!(c.negate().swap(), c.swap().negate());
    }
    assert_eq!(Comparator::Gt.negate(), Comparator::Le);
    assert_eq!(Comparator::Gt.swap(), Comparator::Lt);
}

#[test]
fn str_list_get_counts_from_the_back() {
    let l = StrList(vec![FatString::from_str("a"), FatString::from_str("b"), FatString::from_str("c")]);
    assert_eq!(l.get(-1).unwrap().plain(), "c");
    assert_eq!(l.get(-3).unwrap().plain(), "a");
    assert!(l.get(-4).is_err());
    assert!(l.get(3).is_err());
}
