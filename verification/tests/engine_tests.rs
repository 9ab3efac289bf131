use rade::engine::{Matches, MatchedRules, RadeEngine};
use rade::event::{Event, Events, FieldInput};
use rade::evaluate::ResultMap;
use rade::parser::ConditionParser;
use rade::rule::{Rule, Rules};
use uuid::Uuid;

fn rule(id: u128, condition: &str) -> Rule {
    Rule::new(
        Uuid::from_u128(id),
        "name",
        "description",
        "tactic",
        "TA0000",
        "T0000",
        "example",
        ConditionParser::parse_condition(condition).unwrap(),
    )
}

fn event(name: &str, a: i64, b: i64) -> Event {
    Event::from_fields(vec![
        ("name".to_string(), FieldInput::Str(name.to_string())),
        ("a".to_string(), FieldInput::Int(a)),
        ("b".to_string(), FieldInput::Int(b)),
    ])
}

fn pairs(m: &Matches) -> Vec<(String, u128)> {
    let mut out = Vec::new();
    for (e, ids) in m.0.iter() {
        for id in ids.0.iter() {
            out.push((e.name().unwrap().to_string(), id.as_u128()));
        }
    }
    out.sort();
    out
}

#[test]
fn iterative_matches_rule_by_rule() {
    let rules = Rules::new(vec![rule(1, "a == 1"), rule(2, "a == 1 && b == 2")]);
    let mut engine = RadeEngine::from_rules(rules);
    let events = Events::new(vec![event("e1", 1, 2), event("e2", 1, 3), event("e3", 5, 2)]);
    let m = engine.eval_iterative(events);
    let order: Vec<(String, Vec<u128>)> = m
        .0
        .iter()
        .map(|(e, ids)| (e.name().unwrap().to_string(), ids.0.iter().map(|u| u.as_u128()).collect()))
        .collect();
    assert_eq!(
        order,
        vec![
            ("e1".to_string(), vec![1]),
            ("e2".to_string(), vec![1]),
            ("e1".to_string(), vec![2]),
        ]
    );
}

#[test]
fn predicates_match_event_by_event() {
    let rules = Rules::new(vec![rule(1, "a == 1"), rule(2, "a == 1 && b == 2")]);
    let mut engine = RadeEngine::from_rules(rules);
    engine.compile_rules();
    let events = Events::new(vec![event("e1", 1, 2), event("e2", 1, 3), event("e3", 5, 2)]);
    let m = engine.eval_with_predicates(events).unwrap();
    let order: Vec<(String, Vec<u128>)> = m
        .0
        .iter()
        .map(|(e, ids)| (e.name().unwrap().to_string(), ids.0.iter().map(|u| u.as_u128()).collect()))
        .collect();
    assert_eq!(order, vec![("e1".to_string(), vec![1, 2]), ("e2".to_string(), vec![1])]);
}

#[test]
fn predicates_and_iteration_find_the_same_pairs() {
    let make_rules = || {
        Rules::new(vec![
            rule(1, "a == 1 || b == 2"),
            rule(2, "a == 1 && (b == 2 || b == 3)"),
            rule(3, "!(a == 1)"),
            rule(4, "a > 100"),
        ])
    };
    let make_events = || {
        Events::new(vec![event("e1", 1, 2), event("e2", 1, 3), event("e3", 5, 2), event("e4", 7, 7)])
    };
    let mut engine = RadeEngine::from_rules(make_rules());
    let iterative = engine.eval_iterative(make_events());
    engine.compile_rules();
    let predicated = engine.eval_with_predicates(make_events()).unwrap();
    assert_eq!(pairs(&iterative), pairs(&predicated));
    assert_eq!(
        pairs(&predicated),
        vec![
            ("e1".to_string(), 1),
            ("e1".to_string(), 2),
            ("e2".to_string(), 1),
            ("e2".to_string(), 2),
            ("e3".to_string(), 1),
            ("e3".to_string(), 3),
            ("e4".to_string(), 3),
        ]
    );
}

#[test]
fn predicates_without_compiling_are_an_error() {
    let mut engine = RadeEngine::from_rules(Rules::new(vec![rule(1, "a == 1")]));
    let events = Events::new(vec![event("e1", 1, 2)]);
    assert!(engine.eval_with_predicates(events).is_err());
}

#[test]
fn add_match_leaves_out_events_without_matches() {
    let mut m = Matches::new();
    m.add_match(event("e1", 1, 1), MatchedRules::new());
    assert_eq!(m.0.len(), 0);
    let mut ids = MatchedRules::new();
    ids.add(Uuid::from_u128(9));
    m.add_match(event("e1", 1, 1), ids);
    assert_eq!(m.0.len(), 1);
    assert_eq!(m.0[0].1 .0, vec![Uuid::from_u128(9)]);
}

#[test]
fn rule_accessors_and_evaluation() {
    let r = rule(7, "a == 1");
    assert_eq!(r.id().as_u128(), 7);
    assert_eq!(r.name().as_deref(), Some("name"));
    assert!(r.categories().is_none());
    assert!(r.evaluate(&event("e", 1, 0)));
    assert!(!r.evaluate(&event("e", 2, 0)));
    assert_eq!(r.condition_hash(), r.condition().hash());
}

#[test]
fn rule_operands_split_leaves_and_junctions() {
    // A parenthesised part is a value of its own, evaluated as one simple part.
    let r = rule(1, "a == 1 && (b == 2 || b == 3)");
    let (simple, complex) = r.operands();
    assert_eq!(simple.len(), 2);
    assert_eq!(complex.len(), 1);
    assert_eq!(complex[0].hash(), r.condition_hash());
    let r = rule(2, "a == 1 || b == 2 && c == 3");
    let (simple, complex) = r.operands();
    assert_eq!(simple.len(), 3);
    assert_eq!(complex.len(), 2);
    assert_eq!(complex[1].hash(), r.condition_hash());
    let r = rule(3, "a == 1");
    let (simple, complex) = r.operands();
    assert_eq!(simple.len(), 1);
    assert!(complex.is_empty());
    assert_eq!(simple[0].hash(), r.condition_hash());
}

#[test]
fn rule_from_condition_text_rejects_bad_conditions() {
    let ok = Rule::from_condition_text(
        Uuid::from_u128(3),
        Some("n".to_string()),
        None,
        Some(vec!["test".to_string()]),
        None,
        None,
        None,
        None,
        "a == 1",
    )
    .unwrap();
    assert_eq!(ok.categories().clone(), Some(vec!["test".to_string()]));
    let bad = Rule::from_condition_text(Uuid::from_u128(3), None, None, None, None, None, None, None, "a ==");
    assert!(bad.is_err());
}

#[test]
fn cache_holds_the_result_under_the_hash() {
    let c = ConditionParser::parse_condition("a == 1 && b == 2").unwrap();
    let mut cache = ResultMap::new();
    assert!(c.evaluate(&event("e", 1, 2), &mut cache));
    // A second evaluation with the filled cache answers from the cache.
    assert!(c.evaluate(&event("e", 5, 5), &mut cache));
    assert!(!c.evaluate(&event("e", 5, 5), &mut ResultMap::new()));
}

#[test]
fn events_accessors() {
    let mut events = Events::new(vec![event("e1", 1, 1)]);
    events.add_event(event("e2", 2, 2));
    assert_eq!(events.iter().len(), 2);
    let v = events.get();
    assert_eq!(v[1].name(), Some("e2"));
}

#[test]
fn stale_predicates_report_only_holding_rules() {
    let mut engine = RadeEngine::from_rules(Rules::new(vec![rule(1, "a == 1"), rule(3, "b == 5")]));
    engine.compile_rules();
    engine.load_rules(Rules::new(vec![rule(1, "a == 1"), rule(2, "b == 2"), rule(3, "b == 5")]));
    let events = Events::new(vec![event("x", 1, 2)]);
    let m = engine.eval_with_predicates(events).unwrap();
    assert_eq!(pairs(&m), vec![("x".to_string(), 1)]);
}
