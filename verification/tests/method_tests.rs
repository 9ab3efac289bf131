use rade::ast::{MethodCall, Operand, Val};
use rade::event::{Event, FieldInput};
use rade::evaluate::ResultMap;
use rade::float::Float;
use rade::parser::ConditionParser;
use rade::rule::Rule;
use rade::val::{Comparator, Field, Int};
use uuid::Uuid;

fn holds(condition: &str, fields: Vec<(&str, FieldInput)>) -> bool {
    let c = ConditionParser::parse_condition(condition).unwrap();
    let fields = fields.into_iter().map(|(k, v)| (k.to_string(), v)).collect();
    c.evaluate(&Event::from_fields(fields), &mut ResultMap::new())
}

fn s(x: &str) -> FieldInput {
    FieldInput::Str(x.to_string())
}

#[test]
fn test_simple_rule_from_yaml() {
    let rule = Rule::from_condition_text(
        Uuid::parse_str("1ee8be03-0f8b-4808-9c3d-260ae456f051").unwrap(),
        Some("Simple".to_string()),
        Some("The simplest rule".to_string()),
        Some(vec!["test".to_string()]),
        Some("Test".to_string()),
        None,
        None,
        Some("text = \"old value\"".to_string()),
        "text_old.replace('old', 'new') == text_new\n",
    )
    .unwrap();
    assert_eq!(rule.name(), &Some("Simple".to_string()));
    assert_eq!(rule.categories(), &Some(vec!["test".to_string()]));
    let e = Event::from_fields(vec![
        ("text_old".to_string(), s("an old value")),
        ("text_new".to_string(), s("an new value")),
    ]);
    assert!(rule.evaluate(&e));
}

#[test]
fn readme_amsi_example() {
    let content = "[Ref].Assembly.GetType('AmsiUtils').GetField('amsiInitFailed')";
    assert!(holds(
        "content.contains('AmsiUtils') && content.contains('amsiInitFailed')",
        vec![("content", s(content))]
    ));
    assert!(!holds(
        "content.contains('AmsiUtils') && content.contains('nothing')",
        vec![("content", s(content))]
    ));
}

#[test]
fn readme_string_methods() {
    let f = || vec![("process_name", s("CMD")), ("content", s("say hello to all")), ("path", s("C:/temp/x"))];
    assert!(holds("process_name.to_lowercase() == 'cmd'", f()));
    assert!(holds("content.to_uppercase().contains('HELLO')", f()));
    assert!(holds("content.len() > 10 && content.to_uppercase().contains('HELLO')", f()));
    assert!(holds("path.replace('temp', 'tmp') == 'C:/tmp/x'", f()));
    assert!(holds("content.len() == 16", f()));
    assert!(holds("'  pad  '.trim() == 'pad'", f()));
    assert!(holds("'  pad  '.trim_start() == 'pad  '", f()));
    assert!(holds("'  pad  '.trim_end() == '  pad'", f()));
    assert!(holds("content.starts_with('say') && content.ends_with('all')", f()));
    assert!(!holds("content.is_empty()", f()));
}

#[test]
fn list_methods() {
    let f = || {
        vec![
            ("names", FieldInput::List(vec![s("a"), s("b"), s("c")])),
            ("nums", FieldInput::List(vec![FieldInput::Int(4), FieldInput::Int(-2), FieldInput::Int(9)])),
        ]
    };
    assert!(holds("names.len() == 3", f()));
    assert!(holds("names.first() == 'a' && names.last() == 'c'", f()));
    assert!(holds("names.get(-1) == 'c'", f()));
    assert!(holds("names.join('-') == 'a-b-c'", f()));
    assert!(holds("names.contains('b')", f()));
    assert!(!holds("names.contains('z')", f()));
    assert!(holds("names.reverse().first() == 'c'", f()));
    assert!(holds("nums.sum() == 11", f()));
    assert!(holds("nums.min() == -2 && nums.max() == 9", f()));
    assert!(holds("nums.contains(9)", f()));
    assert!(holds("nums.get(1) == -2", f()));
    assert!(holds("nums.reverse().first() == 9", f()));
    assert!(!holds("nums.get(5) == 1", f()));
}

#[test]
fn number_methods() {
    let f = || vec![("n", FieldInput::Int(-7)), ("x", FieldInput::Float(Float::from_decimal("-2.5").unwrap()))];
    assert!(holds("n.abs() == 7", f()));
    assert!(holds("n.to_string() == '-7'", f()));
    assert!(holds("x.floor() == -3.0", f()));
    assert!(holds("x.ceil() == -2.0", f()));
    assert!(holds("x.round() == -3.0", f()));
    assert!(holds("x.abs() == 2.5", f()));
    assert!(holds("x.to_string() == '-2.5'", f()));
    assert!(holds("x.round().to_string() == '-3'", f()));
    assert!(holds("0.125.to_string() == '0.125'", f()));
}

#[test]
fn method_call_structure() {
    let c = ConditionParser::parse_condition("content.contains('x')").unwrap();
    match c.op() {
        Operand::Val(Val::MethodCall(m)) => {
            assert_eq!(m.method(), "contains");
            assert!(m.is_bool().unwrap());
        },
        _ => panic!("expected a method call"),
    }
    assert!(ConditionParser::parse_condition("content.len()").is_err());
    assert!(ConditionParser::parse_condition("content.frobnicate()").is_err());
    let m = MethodCall::new(Val::Field(Field::new("a".to_string())), "nope".to_string(), vec![]);
    assert_eq!(m.is_bool().unwrap_err(), "Unknown method: nope");
}

#[test]
fn method_errors_evaluate_false() {
    assert!(!holds("n.contains('a')", vec![("n", FieldInput::Int(1))]));
    assert!(!holds("s.contains(1)", vec![("s", s("abc"))]));
    assert!(!holds("s.contains()", vec![("s", s("abc"))]));
}

#[test]
fn integer_against_decimal_goes_through_f64() {
    let big = Val::Int(Int(9007199254740993));
    let dec = Val::Float(Float::from_decimal("9007199254740992").unwrap());
    let e = Event::from_fields(vec![]);
    assert_eq!(big.compare_with(&dec, &e, &Comparator::Eq, &None), Ok(true));
    let small = Val::Int(Int(3));
    let d = Val::Float(Float::from_decimal("3.0").unwrap());
    assert_eq!(small.compare_with(&d, &e, &Comparator::Eq, &None), Ok(true));
    assert_eq!(Float::from_int(9007199254740993), Float::from_decimal("9007199254740992").unwrap());
    assert_eq!(Float::from_int(9007199254740995), Float::from_decimal("9007199254740996").unwrap());
    assert_eq!(Float::from_int(-9007199254740995), Float::from_decimal("-9007199254740996").unwrap());
}
