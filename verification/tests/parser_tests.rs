use rade::ast::{Operand, Val};
use rade::event::{Event, FieldInput};
use rade::evaluate::ResultMap;
use rade::parser::ConditionParser;
use rade::val::Comparator;

fn holds(condition: &str, fields: Vec<(String, FieldInput)>) -> bool {
    let c = ConditionParser::parse_condition(condition).unwrap();
    c.evaluate(&Event::from_fields(fields), &mut ResultMap::new())
}

#[test]
fn regex_needs_a_match_comparator() {
    assert!(ConditionParser::parse_condition("name == /a/").is_err());
    assert!(ConditionParser::parse_condition("name !~ /a/").is_ok());
}

#[test]
fn array_literals() {
    assert!(ConditionParser::parse_condition("concat(['a', 1]) == 'a'").is_err());
    assert!(ConditionParser::parse_condition("concat([a]) == 'a'").is_err());
    assert!(ConditionParser::parse_condition("concat([]) == ''").is_ok());
    assert!(holds("concat([]) == ''", vec![]));
    let c = ConditionParser::parse_condition("x == [1, 2]").unwrap();
    match c.op() {
        Operand::Cmp(_, Val::IntList(l), Comparator::Eq, None) => assert_eq!(l.0, vec![1, 2]),
        _ => panic!("expected an integer list"),
    }
}

#[test]
fn integers_in_every_base() {
    assert!(holds("v == 0xff", vec![("v".to_string(), FieldInput::Int(255))]));
    assert!(holds("v == -0b11", vec![("v".to_string(), FieldInput::Int(-3))]));
    assert!(holds("v == 0d12", vec![("v".to_string(), FieldInput::Int(12))]));
    assert!(ConditionParser::parse_condition("v == 9223372036854775808").is_err());
    assert!(ConditionParser::parse_condition("v == -9223372036854775808").is_err());
    assert!(holds("v == -9223372036854775807", vec![("v".to_string(), FieldInput::Int(-9223372036854775807))]));
}

#[test]
fn calls_and_indexing_apply_to_identifiers_only() {
    assert!(ConditionParser::parse_condition("'a'(1) == 1").is_err());
    assert!(ConditionParser::parse_condition("'a'[0] == 1").is_err());
    assert!(ConditionParser::parse_condition("a[b] == 1").is_err());
}

#[test]
fn standalone_values_must_be_boolean() {
    assert!(ConditionParser::parse_condition("5").is_err());
    assert!(ConditionParser::parse_condition("'text'").is_err());
    assert!(ConditionParser::parse_condition("length('x')").is_err());
    assert!(ConditionParser::parse_condition("unknown('x')").is_err());
    assert!(ConditionParser::parse_condition("true").is_ok());
    assert!(ConditionParser::parse_condition("is_empty(5)").is_ok());
}

#[test]
fn negation_needs_parentheses() {
    assert!(ConditionParser::parse_condition("!a").is_err());
    assert!(ConditionParser::parse_condition("!(a)").is_ok());
    assert!(ConditionParser::parse_condition("(a").is_err());
    assert!(ConditionParser::parse_condition("a)").is_err());
}

#[test]
fn comparators_and_flags() {
    let name = |v: &str| vec![("n".to_string(), FieldInput::Str(v.to_string()))];
    assert!(holds("n ~= 'ABC'", name("abc")));
    assert!(!holds("n == 'ABC'", name("abc")));
    assert!(holds("n ^~= 'IT\"S'", name("it's")));
    assert!(holds("n != 'x'", name("y")));
    assert!(!holds("n > 'x'", name("y")));
}

#[test]
fn strings_drop_backslashes() {
    assert!(holds(r#"n == 'a\\b'"#, vec![("n".to_string(), FieldInput::Str("ab".to_string()))]));
}

#[test]
fn disjunctions_and_conjunctions_flatten() {
    let c = ConditionParser::parse_condition("a || b || c").unwrap();
    match c.op() {
        Operand::Or(parts) => assert_eq!(parts.len(), 3),
        _ => panic!("expected a disjunction"),
    }
    let c = ConditionParser::parse_condition("a && b").unwrap();
    assert!(matches!(c.op(), Operand::And(_)));
    let c = ConditionParser::parse_condition("a").unwrap();
    assert!(matches!(c.op(), Operand::Val(Val::Field(_))));
}

#[test]
fn function_arguments_may_be_conditions() {
    let c = ConditionParser::parse_condition("is_empty(a == 1)").unwrap();
    match c.op() {
        Operand::Val(Val::FnCall(call)) => assert!(matches!(call.args[0], Val::Expression(_))),
        _ => panic!("expected a call"),
    }
    assert!(!holds("is_empty(a == 1)", vec![("a".to_string(), FieldInput::Int(1))]));
}

#[test]
fn operand_hash_is_the_cache_key() {
    let a = ConditionParser::parse_condition("a == 1 && b == 2").unwrap();
    let b = ConditionParser::parse_condition("a == 1 && b == 2").unwrap();
    let c = ConditionParser::parse_condition("a == 1 || b == 2").unwrap();
    assert_eq!(a.op().gen_hash(), a.hash());
    assert_eq!(a.op().gen_hash(), b.op().gen_hash());
    assert_ne!(a.op().gen_hash(), c.op().gen_hash());
}
