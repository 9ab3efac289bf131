use rade::event::{Event, FieldInput};
use rade::evaluate::ResultMap;
use rade::float::Float;
use rade::parser::ConditionParser;

const CONDITION: &str = "b >= 10 && flag || c == 'test'";

fn decimal(text: &str) -> FieldInput {
    FieldInput::Float(Float::from_decimal(text).unwrap())
}

#[test]
fn rule_match() {
    let condition = ConditionParser::parse_condition(CONDITION).expect("Parse error");
    let map = vec![
        ("b".to_string(), FieldInput::Int(1234)),
        ("flag".to_string(), FieldInput::Bool(true)),
        ("c".to_string(), FieldInput::Str("test".to_string())),
    ];
    let event = Event::from_fields(map);
    let result = condition.evaluate(&event, &mut ResultMap::new());
    println!(" Result: {}", result);
    assert!(result);
}

#[test]
fn rule_match_even_string_is_incorrect() {
    let condition = ConditionParser::parse_condition(CONDITION).expect("Parse error");
    let map = vec![
        ("b".to_string(), FieldInput::Int(1234)),
        ("flag".to_string(), FieldInput::Bool(true)),
        ("c".to_string(), FieldInput::Str("none".to_string())),
    ];
    let event = Event::from_fields(map);
    let result = condition.evaluate(&event, &mut ResultMap::new());
    println!(" Result: {}", result);
    assert!(result);
}

#[test]
fn rule_does_not_match() {
    let condition = ConditionParser::parse_condition(CONDITION).expect("Parse error");
    let map = vec![
        ("b".to_string(), FieldInput::Int(2)),
        ("flag".to_string(), FieldInput::Bool(true)),
        ("c".to_string(), FieldInput::Str("none".to_string())),
    ];
    let event = Event::from_fields(map);
    let result = condition.evaluate(&event, &mut ResultMap::new());
    println!(" Result: {}", result);
    assert!(!result);
}

#[test]
fn rule_with_float() {
    let condition = ConditionParser::parse_condition(CONDITION).expect("Parse error");
    let map = vec![
        ("b".to_string(), decimal("12.5")),
        ("flag".to_string(), FieldInput::Bool(true)),
        ("c".to_string(), FieldInput::Str("test".to_string())),
    ];
    let event = Event::from_fields(map);
    let result = condition.evaluate(&event, &mut ResultMap::new());
    println!(" Result: {}", result);
    assert!(result);
}

#[test]
fn rule_incorrect_types_but_still_valid() {
    let condition = ConditionParser::parse_condition(CONDITION).expect("Parse error");
    let map = vec![
        ("b".to_string(), decimal("12.5")),
        ("flag".to_string(), FieldInput::Bool(true)),
        ("c".to_string(), FieldInput::Int(1)),
    ];
    let event = Event::from_fields(map);
    let result = condition.evaluate(&event, &mut ResultMap::new());
    println!(" Result: {}", result);
    assert!(result);
}

#[test]
fn rule_incorrect_types() {
    let condition = ConditionParser::parse_condition(CONDITION).expect("Parse error");
    let map = vec![
        ("b".to_string(), FieldInput::Str("a".to_string())),
        ("flag".to_string(), FieldInput::Bool(true)),
        ("c".to_string(), FieldInput::Str("test".to_string())),
    ];
    let event = Event::from_fields(map);
    let result = condition.evaluate(&event, &mut ResultMap::new());
    println!(" Result: {}", result);
    assert!(result);
}

#[test]
fn test_simple_eq_string_match() {
    let condition = ConditionParser::parse_condition("name == 'alice'").unwrap();
    let map = vec![("name".to_string(), FieldInput::Str("alice".to_string()))];
    let event = Event::from_fields(map);
    assert!(condition.evaluate(&event, &mut ResultMap::new()));
}

#[test]
fn test_simple_eq_string_no_match() {
    let condition = ConditionParser::parse_condition("name == 'alice'").unwrap();
    let map = vec![("name".to_string(), FieldInput::Str("bob".to_string()))];
    let event = Event::from_fields(map);
    assert!(!condition.evaluate(&event, &mut ResultMap::new()));
}

#[test]
fn test_simple_neq_string() {
    let condition = ConditionParser::parse_condition("name != 'alice'").unwrap();
    let map = vec![("name".to_string(), FieldInput::Str("bob".to_string()))];
    let event = Event::from_fields(map);
    assert!(condition.evaluate(&event, &mut ResultMap::new()));
}

#[test]
fn test_simple_eq_number() {
    let condition = ConditionParser::parse_condition("count == 42").unwrap();
    let map = vec![("count".to_string(), FieldInput::Int(42))];
    let event = Event::from_fields(map);
    assert!(condition.evaluate(&event, &mut ResultMap::new()));
}

#[test]
fn test_case_insensitive_eq() {
    let condition = ConditionParser::parse_condition("name ~= 'ALICE'").unwrap();
    let map = vec![("name".to_string(), FieldInput::Str("alice".to_string()))];
    let event = Event::from_fields(map);
    assert!(condition.evaluate(&event, &mut ResultMap::new()));
}

#[test]
fn test_case_insensitive_eq_mixed_case() {
    let condition = ConditionParser::parse_condition("name ~= 'AlIcE'").unwrap();
    let map = vec![("name".to_string(), FieldInput::Str("aLiCe".to_string()))];
    let event = Event::from_fields(map);
    assert!(condition.evaluate(&event, &mut ResultMap::new()));
}

#[test]
fn test_apostrophe_insensitive_eq() {
    let condition = ConditionParser::parse_condition("name ^= 'don\"t'").unwrap();
    let map = vec![("name".to_string(), FieldInput::Str("don't".to_string()))];
    let event = Event::from_fields(map);
    assert!(condition.evaluate(&event, &mut ResultMap::new()));
}

#[test]
fn test_case_and_apostrophe_insensitive_eq() {
    let condition = ConditionParser::parse_condition("name ^~= 'DON\"T'").unwrap();
    let map = vec![("name".to_string(), FieldInput::Str("don't".to_string()))];
    let event = Event::from_fields(map);
    assert!(condition.evaluate(&event, &mut ResultMap::new()));
}

#[test]
fn test_greater_than() {
    let condition = ConditionParser::parse_condition("value > 10").unwrap();
    let map = vec![("value".to_string(), FieldInput::Int(15))];
    let event = Event::from_fields(map);
    assert!(condition.evaluate(&event, &mut ResultMap::new()));
}

#[test]
fn test_greater_than_equal_boundary() {
    let condition = ConditionParser::parse_condition("value > 10").unwrap();
    let map = vec![("value".to_string(), FieldInput::Int(10))];
    let event = Event::from_fields(map);
    assert!(!condition.evaluate(&event, &mut ResultMap::new()));
}

#[test]
fn test_less_than() {
    let condition = ConditionParser::parse_condition("value < 10").unwrap();
    let map = vec![("value".to_string(), FieldInput::Int(5))];
    let event = Event::from_fields(map);
    assert!(condition.evaluate(&event, &mut ResultMap::new()));
}

#[test]
fn test_greater_than_or_equal() {
    let condition = ConditionParser::parse_condition("value >= 10").unwrap();
    let map = vec![("value".to_string(), FieldInput::Int(10))];
    let event = Event::from_fields(map);
    assert!(condition.evaluate(&event, &mut ResultMap::new()));
}

#[test]
fn test_less_than_or_equal() {
    let condition = ConditionParser::parse_condition("value <= 10").unwrap();
    let map = vec![("value".to_string(), FieldInput::Int(10))];
    let event = Event::from_fields(map);
    assert!(condition.evaluate(&event, &mut ResultMap::new()));
}

#[test]
fn test_hex_number() {
    let condition = ConditionParser::parse_condition("value == 0xFF").unwrap();
    let map = vec![("value".to_string(), FieldInput::Int(255))];
    let event = Event::from_fields(map);
    assert!(condition.evaluate(&event, &mut ResultMap::new()));
}

#[test]
fn test_binary_number() {
    let condition = ConditionParser::parse_condition("value == 0b1010").unwrap();
    let map = vec![("value".to_string(), FieldInput::Int(10))];
    let event = Event::from_fields(map);
    assert!(condition.evaluate(&event, &mut ResultMap::new()));
}

#[test]
fn test_octal_number() {
    let condition = ConditionParser::parse_condition("value == 0o77").unwrap();
    let map = vec![("value".to_string(), FieldInput::Int(63))];
    let event = Event::from_fields(map);
    assert!(condition.evaluate(&event, &mut ResultMap::new()));
}

#[test]
fn test_float_comparison() {
    let condition = ConditionParser::parse_condition("value > 3.14").unwrap();
    let map = vec![("value".to_string(), decimal("3.5"))];
    let event = Event::from_fields(map);
    assert!(condition.evaluate(&event, &mut ResultMap::new()));
}

#[test]
fn test_negative_number() {
    let condition = ConditionParser::parse_condition("value > -5").unwrap();
    let map = vec![("value".to_string(), FieldInput::Int(0))];
    let event = Event::from_fields(map);
    assert!(condition.evaluate(&event, &mut ResultMap::new()));
}

#[test]
fn test_boolean_field_true() {
    let condition = ConditionParser::parse_condition("enabled").unwrap();
    let map = vec![("enabled".to_string(), FieldInput::Bool(true))];
    let event = Event::from_fields(map);
    assert!(condition.evaluate(&event, &mut ResultMap::new()));
}

#[test]
fn test_boolean_field_false() {
    let condition = ConditionParser::parse_condition("enabled").unwrap();
    let map = vec![("enabled".to_string(), FieldInput::Bool(false))];
    let event = Event::from_fields(map);
    assert!(!condition.evaluate(&event, &mut ResultMap::new()));
}

#[test]
fn test_negated_boolean_field() {
    let condition = ConditionParser::parse_condition("disabled == false").unwrap();
    let map = vec![("disabled".to_string(), FieldInput::Bool(false))];
    let event = Event::from_fields(map);
    assert!(condition.evaluate(&event, &mut ResultMap::new()));
}

#[test]
fn test_simple_and_both_true() {
    let condition = ConditionParser::parse_condition("a == 1 && b == 2").unwrap();
    let map = vec![("a".to_string(), FieldInput::Int(1)), ("b".to_string(), FieldInput::Int(2))];
    let event = Event::from_fields(map);
    assert!(condition.evaluate(&event, &mut ResultMap::new()));
}

#[test]
fn test_simple_and_one_false() {
    let condition = ConditionParser::parse_condition("a == 1 && b == 2").unwrap();
    let map = vec![("a".to_string(), FieldInput::Int(1)), ("b".to_string(), FieldInput::Int(3))];
    let event = Event::from_fields(map);
    assert!(!condition.evaluate(&event, &mut ResultMap::new()));
}

#[test]
fn test_multiple_and() {
    let condition = ConditionParser::parse_condition("a == 1 && b == 2 && c == 3").unwrap();
    let map = vec![
        ("a".to_string(), FieldInput::Int(1)),
        ("b".to_string(), FieldInput::Int(2)),
        ("c".to_string(), FieldInput::Int(3)),
    ];
    let event = Event::from_fields(map);
    assert!(condition.evaluate(&event, &mut ResultMap::new()));
}

#[test]
fn test_simple_or_first_true() {
    let condition = ConditionParser::parse_condition("a == 1 || b == 2").unwrap();
    let map = vec![("a".to_string(), FieldInput::Int(1)), ("b".to_string(), FieldInput::Int(99))];
    let event = Event::from_fields(map);
    assert!(condition.evaluate(&event, &mut ResultMap::new()));
}

#[test]
fn test_simple_or_second_true() {
    let condition = ConditionParser::parse_condition("a == 1 || b == 2").unwrap();
    let map = vec![("a".to_string(), FieldInput::Int(99)), ("b".to_string(), FieldInput::Int(2))];
    let event = Event::from_fields(map);
    assert!(condition.evaluate(&event, &mut ResultMap::new()));
}

#[test]
fn test_simple_or_both_false() {
    let condition = ConditionParser::parse_condition("a == 1 || b == 2").unwrap();
    let map = vec![("a".to_string(), FieldInput::Int(99)), ("b".to_string(), FieldInput::Int(99))];
    let event = Event::from_fields(map);
    assert!(!condition.evaluate(&event, &mut ResultMap::new()));
}

#[test]
fn test_multiple_or() {
    let condition = ConditionParser::parse_condition("a == 1 || b == 2 || c == 3").unwrap();
    let map = vec![
        ("a".to_string(), FieldInput::Int(99)),
        ("b".to_string(), FieldInput::Int(99)),
        ("c".to_string(), FieldInput::Int(3)),
    ];
    let event = Event::from_fields(map);
    assert!(condition.evaluate(&event, &mut ResultMap::new()));
}

#[test]
fn test_and_or_precedence() {
    // AND has higher precedence than OR: a || b && c means a || (b && c)
    let condition = ConditionParser::parse_condition("a == 1 || b == 2 && c == 3").unwrap();
    let map = vec![
        ("a".to_string(), FieldInput::Int(99)),
        ("b".to_string(), FieldInput::Int(2)),
        ("c".to_string(), FieldInput::Int(3)),
    ];
    let event = Event::from_fields(map);
    assert!(condition.evaluate(&event, &mut ResultMap::new()));
}

#[test]
fn test_and_or_precedence_false() {
    // a || (b && c) where a=false, b=true, c=false => false || false => false
    let condition = ConditionParser::parse_condition("a == 1 || b == 2 && c == 3").unwrap();
    let map = vec![
        ("a".to_string(), FieldInput::Int(99)),
        ("b".to_string(), FieldInput::Int(2)),
        ("c".to_string(), FieldInput::Int(99)),
    ];
    let event = Event::from_fields(map);
    assert!(!condition.evaluate(&event, &mut ResultMap::new()));
}

#[test]
fn test_complex_nested_logic() {
    let condition =
        ConditionParser::parse_condition("status == 'active' && level >= 5 || admin").unwrap();
    let map = vec![
        ("status".to_string(), FieldInput::Str("active".to_string())),
        ("level".to_string(), FieldInput::Int(10)),
        ("admin".to_string(), FieldInput::Bool(false)),
    ];
    let event = Event::from_fields(map);
    assert!(condition.evaluate(&event, &mut ResultMap::new()));
}

#[test]
fn test_string_with_escaped_quote() {
    let condition = ConditionParser::parse_condition(r#"msg == 'it\'s'"#).unwrap();
    let map = vec![("msg".to_string(), FieldInput::Str("it's".to_string()))];
    let event = Event::from_fields(map);
    assert!(condition.evaluate(&event, &mut ResultMap::new()));
}

#[test]
fn test_empty_string() {
    let condition = ConditionParser::parse_condition("name == ''").unwrap();
    let map = vec![("name".to_string(), FieldInput::Str("".to_string()))];
    let event = Event::from_fields(map);
    assert!(condition.evaluate(&event, &mut ResultMap::new()));
}

#[test]
fn test_string_with_spaces() {
    let condition = ConditionParser::parse_condition("msg == 'hello world'").unwrap();
    let map = vec![("msg".to_string(), FieldInput::Str("hello world".to_string()))];
    let event = Event::from_fields(map);
    assert!(condition.evaluate(&event, &mut ResultMap::new()));
}

#[test]
fn test_missing_field_in_comparison() {
    let condition = ConditionParser::parse_condition("missing == 'value'").unwrap();
    let map = vec![("other".to_string(), FieldInput::Str("value".to_string()))];
    let event = Event::from_fields(map);
    assert!(!condition.evaluate(&event, &mut ResultMap::new()));
}

#[test]
fn test_missing_field_as_boolean() {
    let condition = ConditionParser::parse_condition("missing").unwrap();
    let map = vec![("other".to_string(), FieldInput::Bool(true))];
    let event = Event::from_fields(map);
    assert!(!condition.evaluate(&event, &mut ResultMap::new()));
}

#[test]
fn test_identifier_with_underscore() {
    let condition = ConditionParser::parse_condition("user_name == 'test'").unwrap();
    let map = vec![("user_name".to_string(), FieldInput::Str("test".to_string()))];
    let event = Event::from_fields(map);
    assert!(condition.evaluate(&event, &mut ResultMap::new()));
}

#[test]
fn test_identifier_with_numbers() {
    let condition = ConditionParser::parse_condition("field123 == 'value'").unwrap();
    let map = vec![("field123".to_string(), FieldInput::Str("value".to_string()))];
    let event = Event::from_fields(map);
    assert!(condition.evaluate(&event, &mut ResultMap::new()));
}

#[test]
fn test_identifier_starting_with_underscore() {
    let condition = ConditionParser::parse_condition("_private == 42").unwrap();
    let map = vec![("_private".to_string(), FieldInput::Int(42))];
    let event = Event::from_fields(map);
    assert!(condition.evaluate(&event, &mut ResultMap::new()));
}

#[test]
fn test_extra_whitespace() {
    let condition =
        ConditionParser::parse_condition("  a   ==   1   &&   b   ==   2  ").unwrap();
    let map = vec![("a".to_string(), FieldInput::Int(1)), ("b".to_string(), FieldInput::Int(2))];
    let event = Event::from_fields(map);
    assert!(condition.evaluate(&event, &mut ResultMap::new()));
}

#[test]
fn test_newlines_in_condition() {
    let condition = ConditionParser::parse_condition("a == 1\n&&\nb == 2").unwrap();
    let map = vec![("a".to_string(), FieldInput::Int(1)), ("b".to_string(), FieldInput::Int(2))];
    let event = Event::from_fields(map);
    assert!(condition.evaluate(&event, &mut ResultMap::new()));
}

#[test]
fn test_invalid_syntax_missing_operand() {
    let result = ConditionParser::parse_condition("a ==");
    assert!(result.is_err());
}

#[test]
fn test_invalid_syntax_double_operator() {
    let result = ConditionParser::parse_condition("a == == b");
    assert!(result.is_err());
}

#[test]
fn test_invalid_syntax_unclosed_string() {
    let result = ConditionParser::parse_condition("name == 'unclosed");
    assert!(result.is_err());
}

#[test]
fn test_empty_condition() {
    let result = ConditionParser::parse_condition("");
    assert!(result.is_err());
}

#[test]
fn test_field_to_field_eq() {
    let condition = ConditionParser::parse_condition("field_a == field_b").unwrap();
    let map = vec![
        ("field_a".to_string(), FieldInput::Str("same".to_string())),
        ("field_b".to_string(), FieldInput::Str("same".to_string())),
    ];
    let event = Event::from_fields(map);
    assert!(condition.evaluate(&event, &mut ResultMap::new()));
}

#[test]
fn test_field_to_field_neq() {
    let condition = ConditionParser::parse_condition("field_a != field_b").unwrap();
    let map = vec![
        ("field_a".to_string(), FieldInput::Str("value1".to_string())),
        ("field_b".to_string(), FieldInput::Str("value2".to_string())),
    ];
    let event = Event::from_fields(map);
    assert!(condition.evaluate(&event, &mut ResultMap::new()));
}

#[test]
fn test_field_to_field_numeric_comparison() {
    let condition = ConditionParser::parse_condition("min_val < max_val").unwrap();
    let map = vec![
        ("min_val".to_string(), FieldInput::Int(10)),
        ("max_val".to_string(), FieldInput::Int(100)),
    ];
    let event = Event::from_fields(map);
    assert!(condition.evaluate(&event, &mut ResultMap::new()));
}

#[test]
fn test_large_number() {
    let condition = ConditionParser::parse_condition("big_num > 1000000000").unwrap();
    let map = vec![("big_num".to_string(), FieldInput::Int(9999999999))];
    let event = Event::from_fields(map);
    assert!(condition.evaluate(&event, &mut ResultMap::new()));
}

#[test]
fn test_number_with_underscores() {
    let condition = ConditionParser::parse_condition("value == 1_000_000").unwrap();
    let map = vec![("value".to_string(), FieldInput::Int(1000000))];
    let event = Event::from_fields(map);
    assert!(condition.evaluate(&event, &mut ResultMap::new()));
}

#[test]
fn test_field_index_string_list_first_element() {
    let condition = ConditionParser::parse_condition("items[0] == 'apple'").unwrap();
    let items = FieldInput::List(vec![
        FieldInput::Str("apple".to_string()),
        FieldInput::Str("banana".to_string()),
        FieldInput::Str("cherry".to_string()),
    ]);
    let map = vec![("items".to_string(), items)];
    let event = Event::from_fields(map);
    assert!(condition.evaluate(&event, &mut ResultMap::new()));
}

#[test]
fn test_field_index_string_list_middle_element() {
    let condition = ConditionParser::parse_condition("items[1] == 'banana'").unwrap();
    let items = FieldInput::List(vec![
        FieldInput::Str("apple".to_string()),
        FieldInput::Str("banana".to_string()),
        FieldInput::Str("cherry".to_string()),
    ]);
    let map = vec![("items".to_string(), items)];
    let event = Event::from_fields(map);
    assert!(condition.evaluate(&event, &mut ResultMap::new()));
}

#[test]
fn test_field_index_string_list_last_element() {
    let condition = ConditionParser::parse_condition("items[2] == 'cherry'").unwrap();
    let items = FieldInput::List(vec![
        FieldInput::Str("apple".to_string()),
        FieldInput::Str("banana".to_string()),
        FieldInput::Str("cherry".to_string()),
    ]);
    let map = vec![("items".to_string(), items)];
    let event = Event::from_fields(map);
    assert!(condition.evaluate(&event, &mut ResultMap::new()));
}

#[test]
fn test_field_index_string_list_no_match() {
    let condition = ConditionParser::parse_condition("items[0] == 'orange'").unwrap();
    let items = FieldInput::List(vec![
        FieldInput::Str("apple".to_string()),
        FieldInput::Str("banana".to_string()),
    ]);
    let map = vec![("items".to_string(), items)];
    let event = Event::from_fields(map);
    assert!(!condition.evaluate(&event, &mut ResultMap::new()));
}

#[test]
fn test_field_index_int_list_first_element() {
    let condition = ConditionParser::parse_condition("numbers[0] == 10").unwrap();
    let numbers = FieldInput::List(vec![
        FieldInput::Int(10),
        FieldInput::Int(20),
        FieldInput::Int(30),
    ]);
    let map = vec![("numbers".to_string(), numbers)];
    let event = Event::from_fields(map);
    assert!(condition.evaluate(&event, &mut ResultMap::new()));
}

#[test]
fn test_field_index_int_list_comparison() {
    let condition = ConditionParser::parse_condition("numbers[1] > 15").unwrap();
    let numbers = FieldInput::List(vec![
        FieldInput::Int(10),
        FieldInput::Int(20),
        FieldInput::Int(30),
    ]);
    let map = vec![("numbers".to_string(), numbers)];
    let event = Event::from_fields(map);
    assert!(condition.evaluate(&event, &mut ResultMap::new()));
}

#[test]
fn test_field_index_in_complex_condition() {
    let condition =
        ConditionParser::parse_condition("items[0] == 'start' && values[1] > 50").unwrap();
    let items = FieldInput::List(vec![
        FieldInput::Str("start".to_string()),
        FieldInput::Str("middle".to_string()),
    ]);
    let values = FieldInput::List(vec![
        FieldInput::Int(25),
        FieldInput::Int(75),
    ]);
    let map = vec![("items".to_string(), items), ("values".to_string(), values)];
    let event = Event::from_fields(map);
    assert!(condition.evaluate(&event, &mut ResultMap::new()));
}

#[test]
fn test_field_index_with_or_condition() {
    let condition =
        ConditionParser::parse_condition("items[0] == 'wrong' || items[1] == 'banana'")
            .unwrap();
    let items = FieldInput::List(vec![
        FieldInput::Str("apple".to_string()),
        FieldInput::Str("banana".to_string()),
    ]);
    let map = vec![("items".to_string(), items)];
    let event = Event::from_fields(map);
    assert!(condition.evaluate(&event, &mut ResultMap::new()));
}

#[test]
fn test_field_index_out_of_bounds() {
    let condition = ConditionParser::parse_condition("items[99] == 'missing'").unwrap();
    let items = FieldInput::List(vec![FieldInput::Str("apple".to_string())]);
    let map = vec![("items".to_string(), items)];
    let event = Event::from_fields(map);
    // Out of bounds should evaluate to false (error case)
    assert!(!condition.evaluate(&event, &mut ResultMap::new()));
}

#[test]
fn test_field_index_neq() {
    let condition = ConditionParser::parse_condition("items[0] != 'orange'").unwrap();
    let items = FieldInput::List(vec![FieldInput::Str("apple".to_string())]);
    let map = vec![("items".to_string(), items)];
    let event = Event::from_fields(map);
    assert!(condition.evaluate(&event, &mut ResultMap::new()));
}

#[test]
fn test_field_index_parse_only() {
    // Just test that parsing works correctly
    let condition = ConditionParser::parse_condition("arr[0] == 'test'");
    assert!(condition.is_ok());
}

#[test]
fn test_field_index_parse_with_larger_index() {
    let condition = ConditionParser::parse_condition("arr[123] == 'test'");
    assert!(condition.is_ok());
}

#[test]
fn test_field_index_negative_last_element_string() {
    // -1 should access the last element
    let condition = ConditionParser::parse_condition("items[-1] == 'cherry'").unwrap();
    let items = FieldInput::List(vec![
        FieldInput::Str("apple".to_string()),
        FieldInput::Str("banana".to_string()),
        FieldInput::Str("cherry".to_string()),
    ]);
    let map = vec![("items".to_string(), items)];
    let event = Event::from_fields(map);
    assert!(condition.evaluate(&event, &mut ResultMap::new()));
}

#[test]
fn test_field_index_negative_second_to_last_string() {
    // -2 should access the second to last element
    let condition = ConditionParser::parse_condition("items[-2] == 'banana'").unwrap();
    let items = FieldInput::List(vec![
        FieldInput::Str("apple".to_string()),
        FieldInput::Str("banana".to_string()),
        FieldInput::Str("cherry".to_string()),
    ]);
    let map = vec![("items".to_string(), items)];
    let event = Event::from_fields(map);
    assert!(condition.evaluate(&event, &mut ResultMap::new()));
}

#[test]
fn test_field_index_negative_third_to_last_string() {
    // -3 should access the third to last element (first in a 3-element list)
    let condition = ConditionParser::parse_condition("items[-3] == 'apple'").unwrap();
    let items = FieldInput::List(vec![
        FieldInput::Str("apple".to_string()),
        FieldInput::Str("banana".to_string()),
        FieldInput::Str("cherry".to_string()),
    ]);
    let map = vec![("items".to_string(), items)];
    let event = Event::from_fields(map);
    assert!(condition.evaluate(&event, &mut ResultMap::new()));
}

#[test]
fn test_field_index_negative_last_element_int() {
    // -1 should access the last element
    let condition = ConditionParser::parse_condition("numbers[-1] == 30").unwrap();
    let numbers = FieldInput::List(vec![
        FieldInput::Int(10),
        FieldInput::Int(20),
        FieldInput::Int(30),
    ]);
    let map = vec![("numbers".to_string(), numbers)];
    let event = Event::from_fields(map);
    assert!(condition.evaluate(&event, &mut ResultMap::new()));
}

#[test]
fn test_field_index_negative_second_to_last_int() {
    // -2 should access the second to last element
    let condition = ConditionParser::parse_condition("numbers[-2] == 20").unwrap();
    let numbers = FieldInput::List(vec![
        FieldInput::Int(10),
        FieldInput::Int(20),
        FieldInput::Int(30),
    ]);
    let map = vec![("numbers".to_string(), numbers)];
    let event = Event::from_fields(map);
    assert!(condition.evaluate(&event, &mut ResultMap::new()));
}

#[test]
fn test_field_index_negative_out_of_bounds() {
    // -4 is out of bounds for a 3-element list
    let condition = ConditionParser::parse_condition("items[-4] == 'missing'").unwrap();
    let items = FieldInput::List(vec![
        FieldInput::Str("apple".to_string()),
        FieldInput::Str("banana".to_string()),
        FieldInput::Str("cherry".to_string()),
    ]);
    let map = vec![("items".to_string(), items)];
    let event = Event::from_fields(map);
    // Out of bounds should evaluate to false (error case)
    assert!(!condition.evaluate(&event, &mut ResultMap::new()));
}

#[test]
fn test_field_index_negative_single_element_list() {
    // -1 on a single element list should return that element
    let condition = ConditionParser::parse_condition("items[-1] == 'only'").unwrap();
    let items = FieldInput::List(vec![FieldInput::Str("only".to_string())]);
    let map = vec![("items".to_string(), items)];
    let event = Event::from_fields(map);
    assert!(condition.evaluate(&event, &mut ResultMap::new()));
}

#[test]
fn test_field_index_negative_comparison() {
    // Compare last element with a value using >
    let condition = ConditionParser::parse_condition("numbers[-1] > 25").unwrap();
    let numbers = FieldInput::List(vec![
        FieldInput::Int(10),
        FieldInput::Int(20),
        FieldInput::Int(30),
    ]);
    let map = vec![("numbers".to_string(), numbers)];
    let event = Event::from_fields(map);
    assert!(condition.evaluate(&event, &mut ResultMap::new()));
}

#[test]
fn test_field_index_negative_in_complex_condition() {
    // Use negative index in AND condition
    let condition =
        ConditionParser::parse_condition("items[0] == 'start' && items[-1] == 'end'").unwrap();
    let items = FieldInput::List(vec![
        FieldInput::Str("start".to_string()),
        FieldInput::Str("middle".to_string()),
        FieldInput::Str("end".to_string()),
    ]);
    let map = vec![("items".to_string(), items)];
    let event = Event::from_fields(map);
    assert!(condition.evaluate(&event, &mut ResultMap::new()));
}

#[test]
fn test_field_index_negative_in_or_condition() {
    // Use negative index in OR condition
    let condition =
        ConditionParser::parse_condition("items[-1] == 'wrong' || items[-2] == 'middle'")
            .unwrap();
    let items = FieldInput::List(vec![
        FieldInput::Str("start".to_string()),
        FieldInput::Str("middle".to_string()),
        FieldInput::Str("end".to_string()),
    ]);
    let map = vec![("items".to_string(), items)];
    let event = Event::from_fields(map);
    assert!(condition.evaluate(&event, &mut ResultMap::new()));
}

#[test]
fn test_field_index_negative_neq() {
    let condition = ConditionParser::parse_condition("items[-1] != 'wrong'").unwrap();
    let items = FieldInput::List(vec![
        FieldInput::Str("apple".to_string()),
        FieldInput::Str("banana".to_string()),
    ]);
    let map = vec![("items".to_string(), items)];
    let event = Event::from_fields(map);
    assert!(condition.evaluate(&event, &mut ResultMap::new()));
}

#[test]
fn test_field_index_negative_parse_only() {
    let condition = ConditionParser::parse_condition("arr[-1] == 'test'");
    assert!(condition.is_ok());
}

#[test]
fn test_field_index_negative_parse_larger_negative() {
    let condition = ConditionParser::parse_condition("arr[-100] == 'test'");
    assert!(condition.is_ok());
}

#[test]
fn test_field_index_mixed_positive_and_negative() {
    // items[0] and items[-3] should be the same for a 3-element list
    let condition =
        ConditionParser::parse_condition("items[0] == 'apple' && items[-3] == 'apple'")
            .unwrap();
    let items = FieldInput::List(vec![
        FieldInput::Str("apple".to_string()),
        FieldInput::Str("banana".to_string()),
        FieldInput::Str("cherry".to_string()),
    ]);
    let map = vec![("items".to_string(), items)];
    let event = Event::from_fields(map);
    assert!(condition.evaluate(&event, &mut ResultMap::new()));
}

#[test]
fn test_field_index_negative_with_regex() {
    let condition = ConditionParser::parse_condition("items[-1] =~ /^end/").unwrap();
    let items = FieldInput::List(vec![
        FieldInput::Str("start_item".to_string()),
        FieldInput::Str("end_item".to_string()),
    ]);
    let map = vec![("items".to_string(), items)];
    let event = Event::from_fields(map);
    assert!(condition.evaluate(&event, &mut ResultMap::new()));
}

#[test]
fn test_regex_simple_match() {
    let condition = ConditionParser::parse_condition("name =~ /alice/").unwrap();
    let map = vec![("name".to_string(), FieldInput::Str("alice".to_string()))];
    let event = Event::from_fields(map);
    assert!(condition.evaluate(&event, &mut ResultMap::new()));
}

#[test]
fn test_regex_partial_match() {
    let condition = ConditionParser::parse_condition("name =~ /ali/").unwrap();
    let map = vec![("name".to_string(), FieldInput::Str("alice".to_string()))];
    let event = Event::from_fields(map);
    assert!(condition.evaluate(&event, &mut ResultMap::new()));
}

#[test]
fn test_regex_no_match() {
    let condition = ConditionParser::parse_condition("name =~ /bob/").unwrap();
    let map = vec![("name".to_string(), FieldInput::Str("alice".to_string()))];
    let event = Event::from_fields(map);
    assert!(!condition.evaluate(&event, &mut ResultMap::new()));
}

#[test]
fn test_regex_with_special_chars() {
    let condition = ConditionParser::parse_condition(r"email =~ /\w+@\w+\.\w+/").unwrap();
    let map = vec![("email".to_string(), FieldInput::Str("test@example.com".to_string()))];
    let event = Event::from_fields(map);
    assert!(condition.evaluate(&event, &mut ResultMap::new()));
}

#[test]
fn test_regex_start_anchor() {
    let condition = ConditionParser::parse_condition("name =~ /^alice/").unwrap();
    let map = vec![("name".to_string(), FieldInput::Str("alice123".to_string()))];
    let event = Event::from_fields(map);
    assert!(condition.evaluate(&event, &mut ResultMap::new()));
}

#[test]
fn test_regex_start_anchor_no_match() {
    let condition = ConditionParser::parse_condition("name =~ /^alice/").unwrap();
    let map = vec![("name".to_string(), FieldInput::Str("xxx_alice".to_string()))];
    let event = Event::from_fields(map);
    assert!(!condition.evaluate(&event, &mut ResultMap::new()));
}

#[test]
fn test_regex_end_anchor() {
    let condition = ConditionParser::parse_condition("name =~ /alice$/").unwrap();
    let map = vec![("name".to_string(), FieldInput::Str("xxx_alice".to_string()))];
    let event = Event::from_fields(map);
    assert!(condition.evaluate(&event, &mut ResultMap::new()));
}

#[test]
fn test_regex_full_match_anchors() {
    let condition = ConditionParser::parse_condition("name =~ /^alice$/").unwrap();
    let map = vec![("name".to_string(), FieldInput::Str("alice".to_string()))];
    let event = Event::from_fields(map);
    assert!(condition.evaluate(&event, &mut ResultMap::new()));
}

#[test]
fn test_regex_full_match_anchors_no_match() {
    let condition = ConditionParser::parse_condition("name =~ /^alice$/").unwrap();
    let map = vec![("name".to_string(), FieldInput::Str("alice123".to_string()))];
    let event = Event::from_fields(map);
    assert!(!condition.evaluate(&event, &mut ResultMap::new()));
}

#[test]
fn test_regex_digit_pattern() {
    let condition = ConditionParser::parse_condition(r"code =~ /\d{3}-\d{4}/").unwrap();
    let map = vec![("code".to_string(), FieldInput::Str("123-4567".to_string()))];
    let event = Event::from_fields(map);
    assert!(condition.evaluate(&event, &mut ResultMap::new()));
}

#[test]
fn test_regex_alternation() {
    let condition = ConditionParser::parse_condition("fruit =~ /apple|banana|cherry/").unwrap();
    let map = vec![("fruit".to_string(), FieldInput::Str("banana".to_string()))];
    let event = Event::from_fields(map);
    assert!(condition.evaluate(&event, &mut ResultMap::new()));
}

#[test]
fn test_regex_character_class() {
    let condition = ConditionParser::parse_condition("grade =~ /[A-F]/").unwrap();
    let map = vec![("grade".to_string(), FieldInput::Str("B".to_string()))];
    let event = Event::from_fields(map);
    assert!(condition.evaluate(&event, &mut ResultMap::new()));
}

#[test]
fn test_regex_negated_character_class() {
    let condition = ConditionParser::parse_condition("value =~ /[^0-9]/").unwrap();
    let map = vec![("value".to_string(), FieldInput::Str("abc".to_string()))];
    let event = Event::from_fields(map);
    assert!(condition.evaluate(&event, &mut ResultMap::new()));
}

#[test]
fn test_regex_quantifiers() {
    let condition = ConditionParser::parse_condition("text =~ /a+b*c?/").unwrap();
    let map = vec![("text".to_string(), FieldInput::Str("aaabbc".to_string()))];
    let event = Event::from_fields(map);
    assert!(condition.evaluate(&event, &mut ResultMap::new()));
}

#[test]
fn test_regex_in_and_condition() {
    let condition =
        ConditionParser::parse_condition("name =~ /^test/ && status == 'active'").unwrap();
    let map = vec![
        ("name".to_string(), FieldInput::Str("test_user".to_string())),
        ("status".to_string(), FieldInput::Str("active".to_string())),
    ];
    let event = Event::from_fields(map);
    assert!(condition.evaluate(&event, &mut ResultMap::new()));
}

#[test]
fn test_regex_in_or_condition() {
    let condition =
        ConditionParser::parse_condition("name =~ /^admin/ || name =~ /^test/").unwrap();
    let map = vec![("name".to_string(), FieldInput::Str("test_user".to_string()))];
    let event = Event::from_fields(map);
    assert!(condition.evaluate(&event, &mut ResultMap::new()));
}

#[test]
fn test_regex_parse_only() {
    let condition = ConditionParser::parse_condition("field =~ /pattern/");
    assert!(condition.is_ok());
}

#[test]
fn test_regex_parse_complex_pattern() {
    let condition = ConditionParser::parse_condition(
        r"field =~ /^[a-zA-Z0-9_.+-]+@[a-zA-Z0-9-]+\.[a-zA-Z0-9-.]+$/",
    );
    assert!(condition.is_ok());
}

#[test]
fn test_regex_word_boundary() {
    let condition = ConditionParser::parse_condition(r"text =~ /\bword\b/").unwrap();
    let map = vec![("text".to_string(), FieldInput::Str("a word here".to_string()))];
    let event = Event::from_fields(map);
    assert!(condition.evaluate(&event, &mut ResultMap::new()));
}

#[test]
fn test_regex_word_boundary_no_match() {
    let condition = ConditionParser::parse_condition(r"text =~ /\bword\b/").unwrap();
    let map = vec![("text".to_string(), FieldInput::Str("awordhere".to_string()))];
    let event = Event::from_fields(map);
    assert!(!condition.evaluate(&event, &mut ResultMap::new()));
}

#[test]
fn test_regex_optional_group() {
    let condition = ConditionParser::parse_condition("text =~ /colou?r/").unwrap();
    let map = vec![("text".to_string(), FieldInput::Str("color".to_string()))];
    let event = Event::from_fields(map);
    assert!(condition.evaluate(&event, &mut ResultMap::new()));
}

#[test]
fn test_regex_optional_group_british() {
    let condition = ConditionParser::parse_condition("text =~ /colou?r/").unwrap();
    let map = vec![("text".to_string(), FieldInput::Str("colour".to_string()))];
    let event = Event::from_fields(map);
    assert!(condition.evaluate(&event, &mut ResultMap::new()));
}

#[test]
fn test_regex_flag_i_case_insensitive() {
    let condition = ConditionParser::parse_condition("name =~ /alice/i").unwrap();
    let map = vec![("name".to_string(), FieldInput::Str("ALICE".to_string()))];
    let event = Event::from_fields(map);
    assert!(condition.evaluate(&event, &mut ResultMap::new()));
}

#[test]
fn test_regex_flag_i_mixed_case() {
    let condition = ConditionParser::parse_condition("name =~ /hello world/i").unwrap();
    let map = vec![("name".to_string(), FieldInput::Str("HeLLo WoRLd".to_string()))];
    let event = Event::from_fields(map);
    assert!(condition.evaluate(&event, &mut ResultMap::new()));
}

#[test]
fn test_regex_flag_i_no_match_without_flag() {
    let condition = ConditionParser::parse_condition("name =~ /alice/").unwrap();
    let map = vec![("name".to_string(), FieldInput::Str("ALICE".to_string()))];
    let event = Event::from_fields(map);
    assert!(!condition.evaluate(&event, &mut ResultMap::new()));
}

#[test]
fn test_regex_flag_m_multiline() {
    // With 'm' flag, ^ and $ match at line boundaries
    let condition = ConditionParser::parse_condition("text =~ /^line2/m").unwrap();
    let map = vec![("text".to_string(), FieldInput::Str("line1\nline2\nline3".to_string()))];
    let event = Event::from_fields(map);
    assert!(condition.evaluate(&event, &mut ResultMap::new()));
}

#[test]
fn test_regex_flag_m_no_match_without_flag() {
    // Without 'm' flag, ^ only matches at the start of the string
    let condition = ConditionParser::parse_condition("text =~ /^line2/").unwrap();
    let map = vec![("text".to_string(), FieldInput::Str("line1\nline2\nline3".to_string()))];
    let event = Event::from_fields(map);
    assert!(!condition.evaluate(&event, &mut ResultMap::new()));
}

#[test]
fn test_regex_flag_s_dotall() {
    // With 's' flag, dot matches newlines
    let condition = ConditionParser::parse_condition("text =~ /start.*end/s").unwrap();
    let map = vec![("text".to_string(), FieldInput::Str("start\nmiddle\nend".to_string()))];
    let event = Event::from_fields(map);
    assert!(condition.evaluate(&event, &mut ResultMap::new()));
}

#[test]
fn test_regex_flag_s_no_match_without_flag() {
    // Without 's' flag, dot doesn't match newlines
    let condition = ConditionParser::parse_condition("text =~ /start.*end/").unwrap();
    let map = vec![("text".to_string(), FieldInput::Str("start\nmiddle\nend".to_string()))];
    let event = Event::from_fields(map);
    assert!(!condition.evaluate(&event, &mut ResultMap::new()));
}

#[test]
fn test_regex_flags_combined_im() {
    // Combined 'i' and 'm' flags
    let condition = ConditionParser::parse_condition("text =~ /^HELLO/im").unwrap();
    let map = vec![("text".to_string(), FieldInput::Str("first line\nhello world".to_string()))];
    let event = Event::from_fields(map);
    assert!(condition.evaluate(&event, &mut ResultMap::new()));
}

#[test]
fn test_regex_flags_combined_is() {
    // Combined 'i' and 's' flags
    let condition = ConditionParser::parse_condition("text =~ /START.*END/is").unwrap();
    let map = vec![("text".to_string(), FieldInput::Str("start\nmiddle\nEND".to_string()))];
    let event = Event::from_fields(map);
    assert!(condition.evaluate(&event, &mut ResultMap::new()));
}

#[test]
fn test_regex_flags_combined_ims() {
    // All three flags combined
    let condition = ConditionParser::parse_condition("text =~ /^MIDDLE.*END/ims").unwrap();
    let map = vec![("text".to_string(), FieldInput::Str("start\nMIDDLE\nend".to_string()))];
    let event = Event::from_fields(map);
    assert!(condition.evaluate(&event, &mut ResultMap::new()));
}

#[test]
fn test_regex_flag_i_with_character_class() {
    let condition = ConditionParser::parse_condition("text =~ /[a-z]+/i").unwrap();
    let map = vec![("text".to_string(), FieldInput::Str("ABCDEF".to_string()))];
    let event = Event::from_fields(map);
    assert!(condition.evaluate(&event, &mut ResultMap::new()));
}

#[test]
fn test_regex_flags_parse_only_i() {
    let condition = ConditionParser::parse_condition("field =~ /pattern/i");
    assert!(condition.is_ok());
}

#[test]
fn test_regex_flags_parse_only_m() {
    let condition = ConditionParser::parse_condition("field =~ /pattern/m");
    assert!(condition.is_ok());
}

#[test]
fn test_regex_flags_parse_only_s() {
    let condition = ConditionParser::parse_condition("field =~ /pattern/s");
    assert!(condition.is_ok());
}

#[test]
fn test_regex_flags_parse_only_ims() {
    let condition = ConditionParser::parse_condition("field =~ /pattern/ims");
    assert!(condition.is_ok());
}

#[test]
fn test_regex_flag_i_with_anchors() {
    let condition = ConditionParser::parse_condition("name =~ /^ALICE$/i").unwrap();
    let map = vec![("name".to_string(), FieldInput::Str("alice".to_string()))];
    let event = Event::from_fields(map);
    assert!(condition.evaluate(&event, &mut ResultMap::new()));
}

#[test]
fn test_regex_flag_m_end_of_line() {
    // With 'm' flag, $ matches at end of each line
    let condition = ConditionParser::parse_condition("text =~ /line1$/m").unwrap();
    let map = vec![("text".to_string(), FieldInput::Str("line1\nline2\nline3".to_string()))];
    let event = Event::from_fields(map);
    assert!(condition.evaluate(&event, &mut ResultMap::new()));
}

#[test]
fn test_parenthesis_simple_condition() {
    let condition = ConditionParser::parse_condition("(a == 1)").unwrap();
    let map = vec![("a".to_string(), FieldInput::Int(1))];
    let event = Event::from_fields(map);
    assert!(condition.evaluate(&event, &mut ResultMap::new()));
}

#[test]
fn test_parenthesis_simple_condition_false() {
    let condition = ConditionParser::parse_condition("(a == 1)").unwrap();
    let map = vec![("a".to_string(), FieldInput::Int(2))];
    let event = Event::from_fields(map);
    assert!(!condition.evaluate(&event, &mut ResultMap::new()));
}

#[test]
fn test_parenthesis_changes_precedence_or_and() {
    // Without parentheses: a || b && c means a || (b && c)
    // With parentheses: (a || b) && c
    let condition = ConditionParser::parse_condition("(a == 1 || b == 2) && c == 3").unwrap();
    let map = vec![
        ("a".to_string(), FieldInput::Int(1)),
        ("b".to_string(), FieldInput::Int(99)),
        ("c".to_string(), FieldInput::Int(3)),
    ];
    let event = Event::from_fields(map);
    // (true || false) && true = true && true = true
    assert!(condition.evaluate(&event, &mut ResultMap::new()));
}

#[test]
fn test_parenthesis_changes_precedence_or_and_false() {
    let condition = ConditionParser::parse_condition("(a == 1 || b == 2) && c == 3").unwrap();
    let map = vec![
        ("a".to_string(), FieldInput::Int(99)),
        ("b".to_string(), FieldInput::Int(99)),
        ("c".to_string(), FieldInput::Int(3)),
    ];
    let event = Event::from_fields(map);
    // (false || false) && true = false && true = false
    assert!(!condition.evaluate(&event, &mut ResultMap::new()));
}

#[test]
fn test_parenthesis_nested_and() {
    let condition = ConditionParser::parse_condition("a == 1 && (b == 2 && c == 3)").unwrap();
    let map = vec![
        ("a".to_string(), FieldInput::Int(1)),
        ("b".to_string(), FieldInput::Int(2)),
        ("c".to_string(), FieldInput::Int(3)),
    ];
    let event = Event::from_fields(map);
    assert!(condition.evaluate(&event, &mut ResultMap::new()));
}

#[test]
fn test_parenthesis_nested_or() {
    let condition = ConditionParser::parse_condition("a == 1 || (b == 2 || c == 3)").unwrap();
    let map = vec![
        ("a".to_string(), FieldInput::Int(99)),
        ("b".to_string(), FieldInput::Int(99)),
        ("c".to_string(), FieldInput::Int(3)),
    ];
    let event = Event::from_fields(map);
    // false || (false || true) = false || true = true
    assert!(condition.evaluate(&event, &mut ResultMap::new()));
}

#[test]
fn test_parenthesis_double_nested() {
    let condition = ConditionParser::parse_condition("((a == 1))").unwrap();
    let map = vec![("a".to_string(), FieldInput::Int(1))];
    let event = Event::from_fields(map);
    assert!(condition.evaluate(&event, &mut ResultMap::new()));
}

#[test]
fn test_parenthesis_complex_nested() {
    let condition =
        ConditionParser::parse_condition("((a == 1 || b == 2) && (c == 3 || d == 4))").unwrap();
    let map = vec![
        ("a".to_string(), FieldInput::Int(1)),
        ("b".to_string(), FieldInput::Int(99)),
        ("c".to_string(), FieldInput::Int(99)),
        ("d".to_string(), FieldInput::Int(4)),
    ];
    let event = Event::from_fields(map);
    // ((true || false) && (false || true)) = (true && true) = true
    assert!(condition.evaluate(&event, &mut ResultMap::new()));
}

#[test]
fn test_parenthesis_negation() {
    let condition = ConditionParser::parse_condition("!(a == 1)").unwrap();
    let map = vec![("a".to_string(), FieldInput::Int(1))];
    let event = Event::from_fields(map);
    // !(true) = false
    assert!(!condition.evaluate(&event, &mut ResultMap::new()));
}

#[test]
fn test_parenthesis_negation_false_becomes_true() {
    let condition = ConditionParser::parse_condition("!(a == 1)").unwrap();
    let map = vec![("a".to_string(), FieldInput::Int(2))];
    let event = Event::from_fields(map);
    // !(false) = true
    assert!(condition.evaluate(&event, &mut ResultMap::new()));
}

#[test]
fn test_parenthesis_negation_complex() {
    let condition = ConditionParser::parse_condition("!(a == 1 && b == 2)").unwrap();
    let map = vec![("a".to_string(), FieldInput::Int(1)), ("b".to_string(), FieldInput::Int(99))];
    let event = Event::from_fields(map);
    // !(true && false) = !(false) = true
    assert!(condition.evaluate(&event, &mut ResultMap::new()));
}

#[test]
fn test_parenthesis_negation_or() {
    let condition = ConditionParser::parse_condition("!(a == 1 || b == 2)").unwrap();
    let map = vec![("a".to_string(), FieldInput::Int(99)), ("b".to_string(), FieldInput::Int(99))];
    let event = Event::from_fields(map);
    // !(false || false) = !(false) = true
    assert!(condition.evaluate(&event, &mut ResultMap::new()));
}

#[test]
fn test_parenthesis_negation_combined_with_and() {
    let condition = ConditionParser::parse_condition("!(a == 1) && b == 2").unwrap();
    let map = vec![("a".to_string(), FieldInput::Int(99)), ("b".to_string(), FieldInput::Int(2))];
    let event = Event::from_fields(map);
    // !(false) && true = true && true = true
    assert!(condition.evaluate(&event, &mut ResultMap::new()));
}

#[test]
fn test_parenthesis_negation_combined_with_or() {
    let condition = ConditionParser::parse_condition("!(a == 1) || b == 2").unwrap();
    let map = vec![("a".to_string(), FieldInput::Int(1)), ("b".to_string(), FieldInput::Int(2))];
    let event = Event::from_fields(map);
    // !(true) || true = false || true = true
    assert!(condition.evaluate(&event, &mut ResultMap::new()));
}

#[test]
fn test_parenthesis_multiple_negations() {
    let condition = ConditionParser::parse_condition("!(a == 1) && !(b == 2)").unwrap();
    let map = vec![("a".to_string(), FieldInput::Int(99)), ("b".to_string(), FieldInput::Int(99))];
    let event = Event::from_fields(map);
    // !(false) && !(false) = true && true = true
    assert!(condition.evaluate(&event, &mut ResultMap::new()));
}

#[test]
fn test_parenthesis_with_comparison_operators() {
    let condition = ConditionParser::parse_condition("(a > 5) && (b < 10)").unwrap();
    let map = vec![("a".to_string(), FieldInput::Int(10)), ("b".to_string(), FieldInput::Int(5))];
    let event = Event::from_fields(map);
    // (true) && (true) = true
    assert!(condition.evaluate(&event, &mut ResultMap::new()));
}

#[test]
fn test_parenthesis_with_string_comparison() {
    let condition =
        ConditionParser::parse_condition("(name == 'alice') || (name == 'bob')").unwrap();
    let map = vec![("name".to_string(), FieldInput::Str("bob".to_string()))];
    let event = Event::from_fields(map);
    assert!(condition.evaluate(&event, &mut ResultMap::new()));
}

#[test]
fn test_parenthesis_with_regex() {
    let condition = ConditionParser::parse_condition("(name =~ /^test/) && active").unwrap();
    let map = vec![
        ("name".to_string(), FieldInput::Str("test_user".to_string())),
        ("active".to_string(), FieldInput::Bool(true)),
    ];
    let event = Event::from_fields(map);
    assert!(condition.evaluate(&event, &mut ResultMap::new()));
}

#[test]
fn test_parenthesis_deeply_nested() {
    let condition =
        ConditionParser::parse_condition("(((a == 1) && (b == 2)) || ((c == 3) && (d == 4)))")
            .unwrap();
    let map = vec![
        ("a".to_string(), FieldInput::Int(99)),
        ("b".to_string(), FieldInput::Int(99)),
        ("c".to_string(), FieldInput::Int(3)),
        ("d".to_string(), FieldInput::Int(4)),
    ];
    let event = Event::from_fields(map);
    // (((false) && (false)) || ((true) && (true))) = (false || true) = true
    assert!(condition.evaluate(&event, &mut ResultMap::new()));
}

#[test]
fn test_parenthesis_parse_only() {
    let condition = ConditionParser::parse_condition("(a == 1)");
    assert!(condition.is_ok());
}

#[test]
fn test_parenthesis_negation_parse_only() {
    let condition = ConditionParser::parse_condition("!(a == 1)");
    assert!(condition.is_ok());
}

#[test]
fn test_parenthesis_nested_parse_only() {
    let condition = ConditionParser::parse_condition("((a == 1) && (b == 2))");
    assert!(condition.is_ok());
}

#[test]
fn test_parenthesis_with_whitespace() {
    let condition = ConditionParser::parse_condition("( a == 1 )").unwrap();
    let map = vec![("a".to_string(), FieldInput::Int(1))];
    let event = Event::from_fields(map);
    assert!(condition.evaluate(&event, &mut ResultMap::new()));
}

#[test]
fn test_parenthesis_boolean_field() {
    let condition = ConditionParser::parse_condition("(enabled)").unwrap();
    let map = vec![("enabled".to_string(), FieldInput::Bool(true))];
    let event = Event::from_fields(map);
    assert!(condition.evaluate(&event, &mut ResultMap::new()));
}

#[test]
fn test_parenthesis_negated_boolean_field() {
    let condition = ConditionParser::parse_condition("!(disabled)").unwrap();
    let map = vec![("disabled".to_string(), FieldInput::Bool(false))];
    let event = Event::from_fields(map);
    // !(false) = true
    assert!(condition.evaluate(&event, &mut ResultMap::new()));
}

#[test]
fn test_function_call_no_args_parse() {
    // is_empty is a registered function that returns bool
    let condition = ConditionParser::parse_condition("is_empty('')");
    assert!(condition.is_ok());
}

#[test]
fn test_function_call_single_int_arg_in_comparison_parse() {
    // Using length which returns i64, in a comparison
    let condition = ConditionParser::parse_condition("length('x') == 1");
    assert!(condition.is_ok());
}

#[test]
fn test_function_call_single_string_arg_parse() {
    let condition = ConditionParser::parse_condition("length('hello') > 0");
    assert!(condition.is_ok());
}

#[test]
fn test_function_call_single_field_arg_parse() {
    let condition = ConditionParser::parse_condition("length(fieldname) > 0");
    assert!(condition.is_ok());
}

#[test]
fn test_function_call_multiple_string_args_parse() {
    let condition =
        ConditionParser::parse_condition("concat('hello', 'world') == 'helloworld'");
    assert!(condition.is_ok());
}

#[test]
fn test_function_call_nested_parse() {
    let condition = ConditionParser::parse_condition("length(concat('a', 'b')) == 2");
    assert!(condition.is_ok());
}

#[test]
fn test_function_call_deeply_nested_parse() {
    let condition =
        ConditionParser::parse_condition("length(concat(concat('a', 'b'), 'c')) == 3");
    assert!(condition.is_ok());
}

#[test]
fn test_function_call_in_comparison_parse() {
    let condition = ConditionParser::parse_condition("length('hello') == 5");
    assert!(condition.is_ok());
}

#[test]
fn test_function_call_in_and_expression_parse() {
    let condition = ConditionParser::parse_condition("is_empty('') && a == 1");
    assert!(condition.is_ok());
}

#[test]
fn test_function_call_in_or_expression_parse() {
    let condition = ConditionParser::parse_condition("is_empty('') || a == 1");
    assert!(condition.is_ok());
}

#[test]
fn test_function_call_with_float_arg_parse() {
    // float_sum takes two f64 arguments
    let condition = ConditionParser::parse_condition("float_sum(3.14, 2.0) > 5.0");
    assert!(condition.is_ok());
}

#[test]
fn test_function_call_as_boolean_condition_parse() {
    // Function returning bool can be used directly as a condition
    let condition = ConditionParser::parse_condition("is_empty('')");
    assert!(condition.is_ok());
}

#[test]
fn test_function_call_with_field_index_arg_parse() {
    let condition = ConditionParser::parse_condition("length(arr[0]) > 0");
    assert!(condition.is_ok());
}

#[test]
fn test_function_call_with_negative_field_index_arg_parse() {
    let condition = ConditionParser::parse_condition("length(arr[-1]) > 0");
    assert!(condition.is_ok());
}

#[test]
fn test_function_call_length_evaluation() {
    let condition = ConditionParser::parse_condition("length('hello') == 5").unwrap();
    let map: Vec<(String, FieldInput)> = Vec::new();
    let event = Event::from_fields(map);
    assert!(condition.evaluate(&event, &mut ResultMap::new()));
}

#[test]
fn test_function_call_length_with_field_evaluation() {
    let condition = ConditionParser::parse_condition("length(name) == 5").unwrap();
    let map = vec![("name".to_string(), FieldInput::Str("hello".to_string()))];
    let event = Event::from_fields(map);
    assert!(condition.evaluate(&event, &mut ResultMap::new()));
}

#[test]
fn test_function_call_concat_evaluation() {
    let condition =
        ConditionParser::parse_condition("concat(['hello', 'world']) == 'helloworld'").unwrap();
    let map: Vec<(String, FieldInput)> = Vec::new();
    let event = Event::from_fields(map);
    assert!(condition.evaluate(&event, &mut ResultMap::new()));
}

#[test]
fn test_function_call_concat_with_fields_evaluation() {
    // Note: Field identifiers in arrays are not supported, use separate arguments
    let condition =
        ConditionParser::parse_condition("concat(['John', 'Doe']) == 'JohnDoe'").unwrap();
    let map: Vec<(String, FieldInput)> = Vec::new();
    let event = Event::from_fields(map);
    assert!(condition.evaluate(&event, &mut ResultMap::new()));
}

#[test]
fn test_function_call_is_empty_true_evaluation() {
    let condition = ConditionParser::parse_condition("is_empty('')").unwrap();
    let map: Vec<(String, FieldInput)> = Vec::new();
    let event = Event::from_fields(map);
    assert!(condition.evaluate(&event, &mut ResultMap::new()));
}

#[test]
fn test_function_call_is_empty_false_evaluation() {
    let condition = ConditionParser::parse_condition("is_empty('hello')").unwrap();
    let map: Vec<(String, FieldInput)> = Vec::new();
    let event = Event::from_fields(map);
    assert!(!condition.evaluate(&event, &mut ResultMap::new()));
}

#[test]
fn test_function_call_is_empty_with_field_evaluation() {
    let condition = ConditionParser::parse_condition("is_empty(name)").unwrap();
    let map = vec![("name".to_string(), FieldInput::Str("".to_string()))];
    let event = Event::from_fields(map);
    assert!(condition.evaluate(&event, &mut ResultMap::new()));
}

#[test]
fn test_function_call_in_and_condition_evaluation() {
    let condition = ConditionParser::parse_condition("is_empty('') && a == 1").unwrap();
    let map = vec![("a".to_string(), FieldInput::Int(1))];
    let event = Event::from_fields(map);
    // is_empty('') = true, a == 1 = true, true && true = true
    assert!(condition.evaluate(&event, &mut ResultMap::new()));
}

#[test]
fn test_function_call_in_or_condition_evaluation() {
    let condition = ConditionParser::parse_condition("is_empty('hello') || a == 1").unwrap();
    let map = vec![("a".to_string(), FieldInput::Int(1))];
    let event = Event::from_fields(map);
    // is_empty('hello') = false, a == 1 = true, false || true = true
    assert!(condition.evaluate(&event, &mut ResultMap::new()));
}

#[test]
fn test_function_call_comparison_gt_evaluation() {
    let condition = ConditionParser::parse_condition("length('hello') > 3").unwrap();
    let map: Vec<(String, FieldInput)> = Vec::new();
    let event = Event::from_fields(map);
    assert!(condition.evaluate(&event, &mut ResultMap::new()));
}

#[test]
fn test_function_call_comparison_lt_evaluation() {
    let condition = ConditionParser::parse_condition("length('hi') < 5").unwrap();
    let map: Vec<(String, FieldInput)> = Vec::new();
    let event = Event::from_fields(map);
    assert!(condition.evaluate(&event, &mut ResultMap::new()));
}

#[test]
fn test_function_call_comparison_neq_evaluation() {
    let condition = ConditionParser::parse_condition("length('hello') != 10").unwrap();
    let map: Vec<(String, FieldInput)> = Vec::new();
    let event = Event::from_fields(map);
    assert!(condition.evaluate(&event, &mut ResultMap::new()));
}

#[test]
fn test_nested_function_call_evaluation() {
    let condition =
        ConditionParser::parse_condition("length(concat(['a', 'bc'])) == 3").unwrap();
    let map: Vec<(String, FieldInput)> = Vec::new();
    let event = Event::from_fields(map);
    assert!(condition.evaluate(&event, &mut ResultMap::new()));
}

#[test]
fn test_function_call_chained_boolean_evaluation() {
    // Multiple boolean function calls
    let condition = ConditionParser::parse_condition("is_empty('') && is_empty('')").unwrap();
    let map: Vec<(String, FieldInput)> = Vec::new();
    let event = Event::from_fields(map);
    assert!(condition.evaluate(&event, &mut ResultMap::new()));
}
