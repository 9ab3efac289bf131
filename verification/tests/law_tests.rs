use rade::ast::{FnCall, MethodCall, Val};
use rade::event::Event;
use rade::evaluate::ResultMap;
use rade::functions::{is_empty, length, split};
use rade::parser::ConditionParser;
use rade::pattern::RadeRegex;
use rade::rule_set::Sha256Buff;
use rade::val::{Bool, Field, Int, IntList, Str, StrList};
use rade::fat_string::FatString;

#[test]
fn split_then_join_gives_the_input() {
    for (s, d) in [("a,b,,c", ","), ("", ","), ("xx", "x"), ("one::two::", "::")] {
        let pieces = split(s.to_string(), d.to_string());
        assert_eq!(pieces.join(d), s);
        assert!(pieces.iter().all(|p| !p.contains(d)));
        assert_eq!(pieces.len(), s.matches(d).count() + 1);
    }
}

#[test]
fn is_empty_agrees_with_length() {
    for s in ["", "a", "é", " "] {
        assert_eq!(is_empty(s.to_string()), length(s.to_string()) == 0);
    }
}

#[test]
fn checksum_text_reads_back() {
    let b = Sha256Buff::from_bytes(b"some rules");
    let back = Sha256Buff::from_sha_string(&b.to_string()).unwrap();
    assert_eq!(back.as_slice(), b.as_slice());
    let lower = b.to_string().to_lowercase();
    assert_eq!(Sha256Buff::from_sha_string(&lower).unwrap().as_slice(), b.as_slice());
}

#[test]
fn regex_literal_with_inner_slash_round_trips() {
    let r = RadeRegex::from_str("/a/b/i").unwrap();
    assert_eq!(r.to_string(), "/a/b/i");
    let again = RadeRegex::from_str(&r.to_string()).unwrap();
    assert_eq!(again.to_string(), r.to_string());
}

#[test]
fn regex_error_is_handed_on() {
    let e = match RadeRegex::new("(", "") {
        Ok(_) => panic!("should not compile"),
        Err(e) => e,
    };
    assert_eq!(e, regex::Regex::new("(").unwrap_err().to_string());
}

fn parse_error(c: &str) -> String {
    match ConditionParser::parse_condition(c) {
        Ok(_) => panic!("{} should not parse", c),
        Err(e) => e,
    }
}

#[test]
fn error_texts() {
    assert_eq!(
        IntList::new(vec![1, 2, 3]).get(-4).unwrap_err(),
        "Index -4 out of bounds for list of length 3"
    );
    assert_eq!(
        StrList(vec![FatString::new("a".to_string())]).get(1).err().unwrap(),
        "Index 1 out of bounds for list of length 1"
    );
    assert_eq!(
        parse_error("length('x')"),
        "Function length does not return a boolean"
    );
    assert_eq!(parse_error("nope('x')"), "Function nope not found");
    assert_eq!(parse_error("42"), "Not a boolean: Int(Int(42))");
    assert_eq!(parse_error("2.5"), "Not a boolean: Float(Float(2.5))");
    assert_eq!(parse_error("3.0"), "Not a boolean: Float(Float(3.0))");
    assert_eq!(parse_error("0.00001"), "Not a boolean: Float(Float(1e-5))");
    assert_eq!(parse_error("'abc'"), "Not a boolean: Str(Str(FatString(abc)))");
    assert_eq!(parse_error("[1, 2]"), "Not a boolean: IntList(IntList([1, 2]))");
    assert_eq!(parse_error("['a', 'b']"), "Not a boolean: StrList(StrList([FatString(a), FatString(b)]))");
    assert_eq!(parse_error("a[0]"), "Not a boolean: FieldIndex(Field(\"a\"), 0)");
    assert_eq!(parse_error("/ab/i"), "Not a boolean: Regex(RadeRegex(Regex(\"(?i)ab\"), Some(Case)))");
    assert_eq!(parse_error("abs_check.abs()"), "Method abs does not return a boolean");
    assert_eq!(
        parse_error("name == /alice/"),
        "Regex can only be used with == operator"
    );
    assert_eq!(
        parse_error("content.len()"),
        "Method len does not return a boolean"
    );
}

#[test]
fn missing_argument_texts() {
    let e = Event::from_fields(vec![]);
    let one = FnCall::new("split".to_string(), vec![Val::Str(Str(FatString::new("a,b".to_string())))]);
    assert_eq!(one.call(&e, &mut ResultMap::new()).err().unwrap(), "Missing argument 1 for function split");
    let none = FnCall::new("concat".to_string(), vec![]);
    assert_eq!(none.call(&e, &mut ResultMap::new()).err().unwrap(), "Missing argument 0 for function concat");
}

#[test]
fn method_error_texts() {
    use_method_errors();
}

fn apply_err(recv: Val, name: &str, args: Vec<Val>) -> String {
    let m = MethodCall::new(Val::Field(Field::new("x".to_string())), name.to_string(), vec![]);
    match m.apply(&recv, &args) {
        Ok(_) => panic!("{} should fail", name),
        Err(e) => e,
    }
}

fn use_method_errors() {
    let empty_ints = || Val::IntList(IntList::new(vec![]));
    let strs = || Val::StrList(StrList(vec![FatString::new("a".to_string())]));
    assert_eq!(apply_err(empty_ints(), "first", vec![]), "List is empty");
    assert_eq!(apply_err(empty_ints(), "max", vec![]), "List is empty");
    assert_eq!(apply_err(empty_ints(), "frob", vec![]), "Unknown integer list method: frob");
    assert_eq!(apply_err(strs(), "frob", vec![]), "Unknown string list method: frob");
    assert_eq!(apply_err(strs(), "get", vec![Val::Int(Int(3))]), "Index 3 out of bounds for list of length 1");
    assert_eq!(apply_err(strs(), "join", vec![]), "Method 'join' missing argument at index 0");
    assert_eq!(
        apply_err(Val::Str(Str(FatString::new("s".to_string()))), "contains", vec![Val::Int(Int(1))]),
        "Method 'contains' argument 0 expected string"
    );
    assert_eq!(apply_err(Val::Int(Int(1)), "frob", vec![]), "Unknown integer method: frob");
    assert_eq!(apply_err(Val::Bool(Bool(true)), "len", vec![]), "Method 'len' not supported on this type");
    assert!(MethodCall::new(Val::Field(Field::new("x".to_string())), "abs".to_string(), vec![]).is_bool() == Ok(false));
    assert_eq!(parse_error("[1, 'a'] == x"), "Mixed array types not supported");
    assert_eq!(parse_error("a == 1 )"), "Unexpected input after the condition");
    assert_eq!(parse_error("a == #"), "The condition holds a character that starts no token");
}
