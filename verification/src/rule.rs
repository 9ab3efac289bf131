//! Rules: a condition with an identifier and descriptive texts; and lists of rules.
use vstd::prelude::*;
use crate::ast::{clone_container, containers_view, op_hash, OperandContainer, SOp};
use crate::evaluate::ResultMap;
use crate::event::Event;
use crate::parser::{parse_spec, ConditionParser};
use crate::semantics::{complex_ops, eval, hash_injective, ops_within, simple_ops};
use crate::val::RadeResult;

verus! {

/// The identifier of a rule.
pub type Guid = uuid::Uuid;

#[verifier::external_type_specification]
#[verifier::external_body]
pub struct ExUuid(uuid::Uuid);

/// The texts of an optional string.
pub open spec fn opt_text(o: Option<String>) -> Option<Seq<char>> {
    match o {
        Some(s) => Some(s@),
        None => None,
    }
}

/// The texts of an optional list of strings.
pub open spec fn opt_texts(o: Option<Vec<String>>) -> Option<Seq<Seq<char>>> {
    match o {
        Some(v) => Some(v@.map_values(|s: String| s@)),
        None => None,
    }
}

/// The model of a rule.
pub struct RuleView {
    pub id: Guid,
    pub name: Option<Seq<char>>,
    pub description: Option<Seq<char>>,
    pub categories: Option<Seq<Seq<char>>>,
    pub mitre_tactic: Option<Seq<char>>,
    pub mitre_tactic_id: Option<Seq<char>>,
    pub mitre_id: Option<Seq<char>>,
    pub example: Option<Seq<char>>,
    pub condition: SOp,
}

/// A detection rule: the condition an event must meet, an identifier and descriptions.
pub struct Rule {
    id: Guid,
    name: Option<String>,
    description: Option<String>,
    categories: Option<Vec<String>>,
    mitre_tactic: Option<String>,
    mitre_tactic_id: Option<String>,
    mitre_id: Option<String>,
    example: Option<String>,
    condition: OperandContainer,
}

impl View for Rule {
    type V = RuleView;

    closed spec fn view(&self) -> RuleView {
        RuleView {
            id: self.id,
            name: opt_text(self.name),
            description: opt_text(self.description),
            categories: opt_texts(self.categories),
            mitre_tactic: opt_text(self.mitre_tactic),
            mitre_tactic_id: opt_text(self.mitre_tactic_id),
            mitre_id: opt_text(self.mitre_id),
            example: opt_text(self.example),
            condition: self.condition@,
        }
    }
}

fn clone_opt(o: &Option<String>) -> (r: Option<String>)
    ensures
        opt_text(r) == opt_text(*o),
{
    match o {
        Some(s) => Some(s.clone()),
        None => None,
    }
}

fn clone_texts(o: &Option<Vec<String>>) -> (r: Option<Vec<String>>)
    ensures
        opt_texts(r) == opt_texts(*o),
{
    match o {
        Some(v) => {
            let mut out: Vec<String> = Vec::new();
            let mut i: usize = 0;
            while i < v.len()
                invariant
                    i <= v@.len(),
                    out@.map_values(|s: String| s@) == v@.take(i as int).map_values(|s: String| s@),
                decreases v.len() - i,
            {
                let ghost before = out@;
                let t = v[i].clone();
                out.push(t);
                proof {
                    assert(out@.map_values(|s: String| s@) =~= before.map_values(|s: String| s@).push(
                        v@[i as int]@,
                    ));
                    assert(v@.take(i + 1).map_values(|s: String| s@) =~= v@.take(i as int).map_values(
                        |s: String| s@,
                    ).push(v@[i as int]@));
                }
                i = i + 1;
            }
            proof {
                assert(v@.take(v@.len() as int) =~= v@);
            }
            Some(out)
        },
        None => None,
    }
}

impl Rule {
    /// A rule with all its descriptions given and no categories.
    pub fn new(
        guid: Guid,
        name: &str,
        description: &str,
        mitre_tactic: &str,
        mitre_tactic_id: &str,
        mitre_id: &str,
        example: &str,
        condition: OperandContainer,
    ) -> (r: Rule)
        ensures
            r@.id == guid,
            r@.name == Some(name@),
            r@.description == Some(description@),
            r@.categories is None,
            r@.mitre_tactic == Some(mitre_tactic@),
            r@.mitre_tactic_id == Some(mitre_tactic_id@),
            r@.mitre_id == Some(mitre_id@),
            r@.example == Some(example@),
            r@.condition == condition@,
    {
        Rule {
            id: guid,
            name: Some(name.to_owned()),
            description: Some(description.to_owned()),
            categories: None,
            mitre_tactic: Some(mitre_tactic.to_owned()),
            mitre_tactic_id: Some(mitre_tactic_id.to_owned()),
            mitre_id: Some(mitre_id.to_owned()),
            example: Some(example.to_owned()),
            condition,
        }
    }

    /// A rule from all its parts.
    pub fn from_parts(
        id: Guid,
        name: Option<String>,
        description: Option<String>,
        categories: Option<Vec<String>>,
        mitre_tactic: Option<String>,
        mitre_tactic_id: Option<String>,
        mitre_id: Option<String>,
        example: Option<String>,
        condition: OperandContainer,
    ) -> (r: Rule)
        ensures
            r@.id == id,
            r@.name == opt_text(name),
            r@.description == opt_text(description),
            r@.categories == opt_texts(categories),
            r@.mitre_tactic == opt_text(mitre_tactic),
            r@.mitre_tactic_id == opt_text(mitre_tactic_id),
            r@.mitre_id == opt_text(mitre_id),
            r@.example == opt_text(example),
            r@.condition == condition@,
    {
        Rule {
            id,
            name,
            description,
            categories,
            mitre_tactic,
            mitre_tactic_id,
            mitre_id,
            example,
            condition,
        }
    }

    /// A rule whose condition is written in the condition language; an error when the
    /// text is not a condition.
    pub fn from_condition_text(
        id: Guid,
        name: Option<String>,
        description: Option<String>,
        categories: Option<Vec<String>>,
        mitre_tactic: Option<String>,
        mitre_tactic_id: Option<String>,
        mitre_id: Option<String>,
        example: Option<String>,
        condition: &str,
    ) -> (r: RadeResult<Rule>)
        ensures
            match parse_spec(condition@) {
                Some(o) => r is Ok && r->Ok_0@.condition == o && r->Ok_0@.id == id
                    && r->Ok_0@.name == opt_text(name) && r->Ok_0@.description == opt_text(
                    description,
                ) && r->Ok_0@.categories == opt_texts(categories) && r->Ok_0@.mitre_tactic
                    == opt_text(mitre_tactic) && r->Ok_0@.mitre_tactic_id == opt_text(
                    mitre_tactic_id,
                ) && r->Ok_0@.mitre_id == opt_text(mitre_id) && r->Ok_0@.example == opt_text(
                    example,
                ),
                None => r is Err,
            },
    {
        match ConditionParser::parse_condition(condition) {
            Ok(c) => Ok(
                Rule::from_parts(
                    id,
                    name,
                    description,
                    categories,
                    mitre_tactic,
                    mitre_tactic_id,
                    mitre_id,
                    example,
                    c,
                ),
            ),
            Err(e) => Err(e),
        }
    }

    pub fn id(&self) -> (r: &Guid)
        ensures
            *r == self@.id,
    {
        &self.id
    }

    pub fn name(&self) -> (r: &Option<String>)
        ensures
            opt_text(*r) == self@.name,
    {
        &self.name
    }

    pub fn description(&self) -> (r: &Option<String>)
        ensures
            opt_text(*r) == self@.description,
    {
        &self.description
    }

    pub fn categories(&self) -> (r: &Option<Vec<String>>)
        ensures
            opt_texts(*r) == self@.categories,
    {
        &self.categories
    }

    pub fn mitre_tactic(&self) -> (r: &Option<String>)
        ensures
            opt_text(*r) == self@.mitre_tactic,
    {
        &self.mitre_tactic
    }

    pub fn mitre_tactic_id(&self) -> (r: &Option<String>)
        ensures
            opt_text(*r) == self@.mitre_tactic_id,
    {
        &self.mitre_tactic_id
    }

    pub fn mitre_id(&self) -> (r: &Option<String>)
        ensures
            opt_text(*r) == self@.mitre_id,
    {
        &self.mitre_id
    }

    pub fn example(&self) -> (r: &Option<String>)
        ensures
            opt_text(*r) == self@.example,
    {
        &self.example
    }

    pub fn condition(&self) -> (r: &OperandContainer)
        ensures
            r@ == self@.condition,
    {
        &self.condition
    }

    /// Whether the event meets the rule's condition, evaluated with a cache of its own
    /// (`cached_eval` from an empty cache, for any hashes): the model's `eval` when no two
    /// different conditions nested in it share a hash.
    pub fn evaluate(&self, event: &Event) -> (r: bool)
        ensures
            hash_injective(ops_within(self@.condition)) ==> r == eval(self@.condition, event@),
            r == crate::cached::cached_eval(self@.condition, event@, Map::empty()).0,
    {
        let mut cache = ResultMap::new();
        self.condition.evaluate(event, &mut cache)
    }

    /// The condition's parts evaluated on their own, and its conjunctions and disjunctions
    /// (see `simple_ops` and `complex_ops`).
    pub fn operands(&self) -> (r: (Vec<OperandContainer>, Vec<OperandContainer>))
        ensures
            containers_view(r.0@) == simple_ops(self@.condition),
            containers_view(r.1@) == complex_ops(self@.condition),
    {
        let mut simple_operands: Vec<OperandContainer> = Vec::new();
        let mut complex_operands: Vec<OperandContainer> = Vec::new();
        proof {
            assert(containers_view(simple_operands@) =~= Seq::<SOp>::empty());
        }
        self.condition.operands(&mut simple_operands, &mut complex_operands);
        proof {
            assert(containers_view(Seq::<OperandContainer>::empty()) + simple_ops(self@.condition)
                =~= simple_ops(self@.condition));
            assert(containers_view(Seq::<OperandContainer>::empty()) + complex_ops(self@.condition)
                =~= complex_ops(self@.condition));
        }
        (simple_operands, complex_operands)
    }

    /// The hash of the rule's condition.
    pub fn condition_hash(&self) -> (r: u64)
        ensures
            r == op_hash(self@.condition),
    {
        self.condition.hash()
    }
}

impl Clone for Rule {
    fn clone(&self) -> (r: Self)
        ensures
            r@ == self@,
    {
        Rule {
            id: self.id,
            name: clone_opt(&self.name),
            description: clone_opt(&self.description),
            categories: clone_texts(&self.categories),
            mitre_tactic: clone_opt(&self.mitre_tactic),
            mitre_tactic_id: clone_opt(&self.mitre_tactic_id),
            mitre_id: clone_opt(&self.mitre_id),
            example: clone_opt(&self.example),
            condition: clone_container(&self.condition),
        }
    }
}

/// The models of a list of rules.
pub open spec fn rules_view(v: Seq<Rule>) -> Seq<RuleView> {
    v.map_values(|r: Rule| r@)
}

/// A list of rules.
pub struct Rules(pub Vec<Rule>);

impl Rules {
    pub fn new(rules: Vec<Rule>) -> (r: Rules)
        ensures
            r.0@ == rules@,
    {
        Rules(rules)
    }

    /// The rules, in order.
    pub fn iter(&self) -> (r: &[Rule])
        ensures
            r@ == self.0@,
    {
        self.0.as_slice()
    }

    pub fn add_rule(&mut self, rule: Rule)
        ensures
            final(self).0@ == old(self).0@.push(rule),
    {
        self.0.push(rule);
    }
}

impl Default for Rules {
    fn default() -> (r: Self)
        ensures
            r.0@.len() == 0,
    {
        Rules(Vec::new())
    }
}

} // verus!
