//! The detection engine: evaluates events against rules, one rule at a time or through
//! compiled predicates that share results between rules.
use vstd::prelude::*;
use crate::ast::{
    clone_container, containers_view, law_comparator_changes_hash, lemma_containers_view, op_hash,
    OperandContainer, SOp, SVal,
};
use crate::fat_string::InsensitiveFlag;
use crate::evaluate::{result_map_contents, ResultMap};
use crate::event::{events_view, Event, EventView, Events};
use crate::rule::{rules_view, Guid, RuleView, Rules};
use crate::semantics::{
    cache_sound, complex_ops, complex_ops_all, eval, hash_injective, lemma_ops_within_all_elem,
    lemma_injective_subset, lemma_ops_within_self, ops_in_val, ops_in_vals, ops_within, ops_within_all, simple_ops,
    simple_ops_all,
};
use crate::val::{fail, Comparator, RadeResult};

verus! {

/// The identifiers of the rules whose condition holds for the event, in rule order.
pub open spec fn matching_ids(rules: Seq<RuleView>, ev: EventView) -> Seq<Guid>
    decreases rules.len(),
{
    if rules.len() == 0 {
        Seq::empty()
    } else if eval(rules.last().condition, ev) {
        matching_ids(rules.drop_last(), ev).push(rules.last().id)
    } else {
        matching_ids(rules.drop_last(), ev)
    }
}

/// A list of matches with `(e, ids)` added when `ids` is not empty.
pub open spec fn with_match(
    m: Seq<(EventView, Seq<Guid>)>,
    e: EventView,
    ids: Seq<Guid>,
) -> Seq<(EventView, Seq<Guid>)> {
    if ids.len() > 0 {
        m.push((e, ids))
    } else {
        m
    }
}

/// Matches found event by event: for each event, the rules it meets.
pub open spec fn matches_by_event(rules: Seq<RuleView>, events: Seq<EventView>) -> Seq<
    (EventView, Seq<Guid>),
>
    decreases events.len(),
{
    if events.len() == 0 {
        Seq::empty()
    } else {
        with_match(
            matches_by_event(rules, events.drop_last()),
            events.last(),
            matching_ids(rules, events.last()),
        )
    }
}

/// The identifier of `r` when the event meets it, else nothing.
pub open spec fn rule_hit(r: RuleView, ev: EventView) -> Seq<Guid> {
    if eval(r.condition, ev) {
        seq![r.id]
    } else {
        Seq::empty()
    }
}

/// Matches of one rule, event by event.
pub open spec fn single_rule_matches(r: RuleView, events: Seq<EventView>) -> Seq<
    (EventView, Seq<Guid>),
>
    decreases events.len(),
{
    if events.len() == 0 {
        Seq::empty()
    } else {
        with_match(single_rule_matches(r, events.drop_last()), events.last(), rule_hit(r, events.last()))
    }
}

/// Whether a rule's condition holds for an event as `Rule::evaluate` finds it: evaluated
/// through a cache that starts empty (see `cached_eval`).
pub open spec fn rule_holds(r: RuleView, ev: EventView) -> bool {
    crate::cached::cached_eval(r.condition, ev, Map::empty()).0
}

/// The identifier of `r` when `Rule::evaluate` finds that the event meets it.
pub open spec fn rule_hit_cached(r: RuleView, ev: EventView) -> Seq<Guid> {
    if rule_holds(r, ev) {
        seq![r.id]
    } else {
        Seq::empty()
    }
}

/// Matches of one rule, event by event, as `Rule::evaluate` finds them.
pub open spec fn single_rule_matches_cached(r: RuleView, events: Seq<EventView>) -> Seq<
    (EventView, Seq<Guid>),
>
    decreases events.len(),
{
    if events.len() == 0 {
        Seq::empty()
    } else {
        with_match(
            single_rule_matches_cached(r, events.drop_last()),
            events.last(),
            rule_hit_cached(r, events.last()),
        )
    }
}

/// Matches rule by rule as `Rule::evaluate` finds them.
pub open spec fn matches_by_rule_cached(rules: Seq<RuleView>, events: Seq<EventView>) -> Seq<
    (EventView, Seq<Guid>),
>
    decreases rules.len(),
{
    if rules.len() == 0 {
        Seq::empty()
    } else {
        matches_by_rule_cached(rules.drop_last(), events) + single_rule_matches_cached(
            rules.last(),
            events,
        )
    }
}

/// Matches found rule by rule: for each rule, each event that meets it.
pub open spec fn matches_by_rule(rules: Seq<RuleView>, events: Seq<EventView>) -> Seq<
    (EventView, Seq<Guid>),
>
    decreases rules.len(),
{
    if rules.len() == 0 {
        Seq::empty()
    } else {
        matches_by_rule(rules.drop_last(), events) + single_rule_matches(rules.last(), events)
    }
}

/// The conditions of the rules, in order.
pub open spec fn conditions(rules: Seq<RuleView>) -> Seq<SOp> {
    rules.map_values(|r: RuleView| r.condition)
}

/// Each identifier is that of a rule whose condition holds for the event.
pub open spec fn ids_hold(ids: Seq<Guid>, rules: Seq<RuleView>, ev: EventView) -> bool {
    forall|k: int|
        0 <= k < ids.len() ==> exists|i: int|
            0 <= i < rules.len() && rules[i].id == #[trigger] ids[k] && eval(rules[i].condition, ev)
}

/// Every entry's identifiers are those of rules whose condition holds for its event.
pub open spec fn all_ids_hold(m: Seq<(EventView, Seq<Guid>)>, rules: Seq<RuleView>) -> bool {
    forall|k: int| 0 <= k < m.len() ==> #[trigger] ids_hold(m[k].1, rules, m[k].0)
}

/// Some entry of the matches pairs event `e` with rule identifier `id`.
pub open spec fn has_pair(m: Seq<(EventView, Seq<Guid>)>, e: EventView, id: Guid) -> bool {
    exists|j: int| 0 <= j < m.len() && m[j].0 == e && #[trigger] m[j].1.contains(id)
}

/// Some event of `events` is `e` and meets some rule of `rules` with identifier `id`.
pub open spec fn meets(rules: Seq<RuleView>, events: Seq<EventView>, e: EventView, id: Guid) -> bool {
    exists|ie: int, ir: int|
        0 <= ie < events.len() && 0 <= ir < rules.len() && #[trigger] events[ie] == e
            && #[trigger] rules[ir].id == id && eval(rules[ir].condition, e)
}

/// The rules that an event matched.
pub struct MatchedRules(pub Vec<Guid>);

impl MatchedRules {
    pub fn new() -> (r: MatchedRules)
        ensures
            r.0@.len() == 0,
    {
        MatchedRules(Vec::new())
    }

    pub fn add(&mut self, rule_id: Guid)
        ensures
            final(self).0@ == old(self).0@.push(rule_id),
    {
        self.0.push(rule_id);
    }
}

/// Events together with the rules each matched.
pub struct Matches(pub Vec<(Event, MatchedRules)>);

/// The model of matches: each event's model with the identifiers it matched.
pub open spec fn matches_view(v: Seq<(Event, MatchedRules)>) -> Seq<(EventView, Seq<Guid>)> {
    v.map_values(|p: (Event, MatchedRules)| (p.0@, p.1.0@))
}

impl Matches {
    pub fn new() -> (r: Matches)
        ensures
            matches_view(r.0@).len() == 0,
    {
        Matches(Vec::new())
    }

    /// Records the rules an event matched; an event that matched none is left out.
    pub fn add_match(&mut self, event: Event, matched_rules: MatchedRules)
        ensures
            matches_view(final(self).0@) == with_match(
                matches_view(old(self).0@),
                event@,
                matched_rules.0@,
            ),
    {
        if matched_rules.0.len() > 0 {
            let ghost before = self.0@;
            let ghost entry = (event@, matched_rules.0@);
            self.0.push((event, matched_rules));
            proof {
                assert(matches_view(self.0@) =~= matches_view(before).push(entry));
            }
        }
    }
}

/// Conditions by hash, in a hashbrown map.
#[verifier::external_body]
pub struct PredMap {
    map: hashbrown::HashMap<u64, OperandContainer>,
}

/// The hash-to-condition map that a `PredMap` holds, each condition by its model.
pub uninterp spec fn pred_map_contents(m: PredMap) -> Map<u64, SOp>;

/// The map without entries.
pub open spec fn no_preds() -> Map<u64, SOp> {
    Map::empty()
}

impl PredMap {
    /// `hashbrown::HashMap::new`: a map without entries.
    #[verifier::external_body]
    pub(crate) fn new() -> (r: PredMap)
        ensures
            pred_map_contents(r) == no_preds(),
    {
        PredMap { map: hashbrown::HashMap::new() }
    }

    /// `hashbrown::HashMap::insert`: afterwards `key` maps to `value`, other keys keep
    /// theirs.
    #[verifier::external_body]
    pub(crate) fn insert(&mut self, key: u64, value: OperandContainer)
        ensures
            pred_map_contents(*final(self)) == pred_map_contents(*old(self)).insert(key, value@),
    {
        self.map.insert(key, value);
    }

    /// `hashbrown::HashMap::values`: each value once, in the map's own order, which the
    /// contract leaves open.
    #[verifier::external_body]
    pub(crate) fn values(&self) -> (r: Vec<&OperandContainer>)
        ensures
            forall|i: int|
                #![trigger r@[i]]
                0 <= i < r@.len() ==> exists|k: u64|
                    #![trigger pred_map_contents(*self)[k]]
                    pred_map_contents(*self).contains_key(k) && pred_map_contents(*self)[k]
                        == r@[i]@,
            forall|k: u64|
                pred_map_contents(*self).contains_key(k) ==> exists|i: int|
                    0 <= i < r@.len() && #[trigger] r@[i]@ == pred_map_contents(*self)[k],
    {
        self.map.values().collect()
    }
}

/// The parts of rules' conditions keyed by hash: those evaluated on their own and the
/// conjunctions and disjunctions.
pub struct Predicates {
    simple_predicates: PredMap,
    complex_predicates: PredMap,
    sources: Ghost<Seq<SOp>>,
}

/// Every condition of the map is keyed by its hash and lies within the conditions `s`.
pub open spec fn keyed_within(m: Map<u64, SOp>, s: Set<SOp>) -> bool {
    forall|k: u64| #[trigger]
        m.contains_key(k) ==> op_hash(m[k]) == k && ops_within(m[k]).subset_of(s)
}

/// The simple parts (`true`) or the complex parts (`false`) of a rule condition, as
/// `Rule::operands` gives them.
pub open spec fn parts_of(simple: bool, o: SOp) -> Seq<SOp> {
    if simple { simple_ops(o) } else { complex_ops(o) }
}

/// Each condition of the map is keyed by its hash and is one of the chosen parts of one of
/// the first `n` conditions.
pub open spec fn keyed_vals(m: Map<u64, SOp>, conds: Seq<SOp>, simple: bool, n: int) -> bool {
    forall|h: u64| #[trigger]
        m.contains_key(h) ==> op_hash(m[h]) == h && exists|j: int, k: int|
            0 <= j < n && 0 <= k < parts_of(simple, conds[j]).len() && #[trigger] parts_of(
                simple,
                conds[j],
            )[k] == m[h]
}

/// Each of the chosen parts of the first `n` conditions has its hash as a key.
pub open spec fn keyed_cover(m: Map<u64, SOp>, conds: Seq<SOp>, simple: bool, n: int) -> bool {
    forall|j: int, k: int|
        0 <= j < n && 0 <= k < parts_of(simple, conds[j]).len() ==> m.contains_key(
            op_hash(#[trigger] parts_of(simple, conds[j])[k]),
        )
}

impl Predicates {
    /// The simple predicates by hash.
    pub closed spec fn simple_spec(&self) -> Map<u64, SOp> {
        pred_map_contents(self.simple_predicates)
    }

    /// The conjunctions and disjunctions by hash.
    pub closed spec fn complex_spec(&self) -> Map<u64, SOp> {
        pred_map_contents(self.complex_predicates)
    }

    #[verifier::type_invariant]
    spec fn covers_sources(&self) -> bool {
        let s = ops_within_all(self.sources@);
        &&& keyed_within(pred_map_contents(self.simple_predicates), s)
        &&& keyed_within(pred_map_contents(self.complex_predicates), s)
        &&& forall|i: int|
            0 <= i < self.sources@.len() ==> pred_map_contents(self.simple_predicates).contains_key(
                op_hash(#[trigger] self.sources@[i]),
            ) || pred_map_contents(self.complex_predicates).contains_key(op_hash(self.sources@[i]))
    }

    /// The rule conditions the predicates were compiled from.
    pub closed spec fn sources(&self) -> Seq<SOp> {
        self.sources@
    }

    /// Compiles the parts of each rule's condition, keyed by hash: the simple parts of
    /// every rule (`Rule::operands`' first list) in one map, the conjunctions and
    /// disjunctions (its second list) in the other, and nothing else.
    pub fn from_rules(rules: &Rules) -> (r: Predicates)
        ensures
            r.sources() == conditions(rules_view(rules.0@)),
            keyed_vals(r.simple_spec(), r.sources(), true, r.sources().len() as int),
            keyed_cover(r.simple_spec(), r.sources(), true, r.sources().len() as int),
            keyed_vals(r.complex_spec(), r.sources(), false, r.sources().len() as int),
            keyed_cover(r.complex_spec(), r.sources(), false, r.sources().len() as int),
    {
        let ghost conds = conditions(rules_view(rules.0@));
        let ghost s = ops_within_all(conds);
        let mut simple = PredMap::new();
        let mut complex = PredMap::new();
        let mut i: usize = 0;
        while i < rules.0.len()
            invariant
                i <= rules.0@.len(),
                conds == conditions(rules_view(rules.0@)),
                conds.len() == rules.0@.len(),
                s == ops_within_all(conds),
                keyed_within(pred_map_contents(simple), s),
                keyed_within(pred_map_contents(complex), s),
                forall|j: int|
                    0 <= j < i ==> pred_map_contents(simple).contains_key(op_hash(#[trigger] conds[j]))
                        || pred_map_contents(complex).contains_key(op_hash(conds[j])),
                keyed_vals(pred_map_contents(simple), conds, true, i as int),
                keyed_cover(pred_map_contents(simple), conds, true, i as int),
                keyed_vals(pred_map_contents(complex), conds, false, i as int),
                keyed_cover(pred_map_contents(complex), conds, false, i as int),
            decreases rules.0.len() - i,
        {
            let ghost cond = conds[i as int];
            proof {
                assert(cond == rules.0@[i as int]@.condition);
                lemma_ops_within_all_elem(conds, i as int);
            }
            let (simple_ops_v, complex_ops_v) = rules.0[i].operands();
            let ghost simple_before = pred_map_contents(simple);
            let ghost complex_before = pred_map_contents(complex);
            proof {
                lemma_containers_view(simple_ops_v@);
                lemma_containers_view(complex_ops_v@);
            }
            let mut k: usize = 0;
            while k < simple_ops_v.len()
                invariant
                    k <= simple_ops_v@.len(),
                    containers_view(simple_ops_v@) == simple_ops(cond),
                    forall|j: int| 0 <= j < simple_ops_v@.len() ==> #[trigger] simple_ops(cond)[j] == simple_ops_v@[j]@,
                    simple_ops(cond).len() == simple_ops_v@.len(),
                    ops_within(cond).subset_of(s),
                    keyed_within(pred_map_contents(simple), s),
                    forall|h: u64| simple_before.contains_key(h) ==> #[trigger] pred_map_contents(simple).contains_key(h),
                    forall|j: int| 0 <= j < k ==> pred_map_contents(simple).contains_key(op_hash(#[trigger] simple_ops(cond)[j])),
                    i < conds.len(),
                    cond == conds[i as int],
                    keyed_vals(pred_map_contents(simple), conds, true, i + 1),
                    keyed_cover(pred_map_contents(simple), conds, true, i as int),
                decreases simple_ops_v.len() - k,
            {
                let op = clone_container(&simple_ops_v[k]);
                let h = op.hash();
                proof {
                    lemma_simple_ops_within(cond, k as int);
                    lemma_within_closed(cond, op@);
                }
                let ghost before = pred_map_contents(simple);
                simple.insert(h, op);
                proof {
                    let after = pred_map_contents(simple);
                    assert(parts_of(true, conds[i as int])[k as int] == op@);
                    assert forall|h2: u64| #[trigger] after.contains_key(h2) implies op_hash(after[h2]) == h2
                        && exists|j: int, kk: int|
                        0 <= j < i + 1 && 0 <= kk < parts_of(true, conds[j]).len() && #[trigger] parts_of(
                            true,
                            conds[j],
                        )[kk] == after[h2] by {
                        if h2 == h {
                            assert(parts_of(true, conds[i as int])[k as int] == after[h2]);
                        } else {
                            assert(before.contains_key(h2));
                        }
                    }
                }
                k = k + 1;
            }
            let ghost simple_after = pred_map_contents(simple);
            let mut k: usize = 0;
            while k < complex_ops_v.len()
                invariant
                    k <= complex_ops_v@.len(),
                    containers_view(complex_ops_v@) == complex_ops(cond),
                    forall|j: int| 0 <= j < complex_ops_v@.len() ==> #[trigger] complex_ops(cond)[j] == complex_ops_v@[j]@,
                    complex_ops(cond).len() == complex_ops_v@.len(),
                    ops_within(cond).subset_of(s),
                    keyed_within(pred_map_contents(complex), s),
                    forall|h: u64| complex_before.contains_key(h) ==> #[trigger] pred_map_contents(complex).contains_key(h),
                    forall|j: int| 0 <= j < k ==> pred_map_contents(complex).contains_key(op_hash(#[trigger] complex_ops(cond)[j])),
                    i < conds.len(),
                    cond == conds[i as int],
                    keyed_vals(pred_map_contents(complex), conds, false, i + 1),
                    keyed_cover(pred_map_contents(complex), conds, false, i as int),
                    pred_map_contents(simple) == simple_after,
                decreases complex_ops_v.len() - k,
            {
                let op = clone_container(&complex_ops_v[k]);
                let h = op.hash();
                proof {
                    lemma_complex_ops_within(cond, k as int);
                    lemma_within_closed(cond, op@);
                }
                let ghost before = pred_map_contents(complex);
                complex.insert(h, op);
                proof {
                    let after = pred_map_contents(complex);
                    assert(parts_of(false, conds[i as int])[k as int] == op@);
                    assert forall|h2: u64| #[trigger] after.contains_key(h2) implies op_hash(after[h2]) == h2
                        && exists|j: int, kk: int|
                        0 <= j < i + 1 && 0 <= kk < parts_of(false, conds[j]).len() && #[trigger] parts_of(
                            false,
                            conds[j],
                        )[kk] == after[h2] by {
                        if h2 == h {
                            assert(parts_of(false, conds[i as int])[k as int] == after[h2]);
                        } else {
                            assert(before.contains_key(h2));
                        }
                    }
                }
                k = k + 1;
            }
            proof {
                assert forall|j: int, kk: int|
                    0 <= j < i + 1 && 0 <= kk < parts_of(true, conds[j]).len() implies pred_map_contents(
                    simple,
                ).contains_key(op_hash(#[trigger] parts_of(true, conds[j])[kk])) by {
                    if j == i {
                        assert(parts_of(true, conds[j]) == simple_ops(cond));
                    }
                }
                assert forall|j: int, kk: int|
                    0 <= j < i + 1 && 0 <= kk < parts_of(false, conds[j]).len() implies pred_map_contents(
                    complex,
                ).contains_key(op_hash(#[trigger] parts_of(false, conds[j])[kk])) by {
                    if j == i {
                        assert(parts_of(false, conds[j]) == complex_ops(cond));
                    }
                }
                lemma_root_among_parts(cond);
                assert forall|j: int|
                    0 <= j < i + 1 implies pred_map_contents(simple).contains_key(op_hash(#[trigger] conds[j]))
                        || pred_map_contents(complex).contains_key(op_hash(conds[j])) by {
                    if j < i {
                        assert(simple_before.contains_key(op_hash(conds[j])) || complex_before.contains_key(op_hash(conds[j])));
                    } else {
                        if simple_ops(cond).len() == 1 && simple_ops(cond)[0] == cond {
                            assert(pred_map_contents(simple).contains_key(op_hash(simple_ops(cond)[0])));
                        } else {
                            let last = complex_ops(cond).len() - 1;
                            assert(pred_map_contents(complex).contains_key(op_hash(complex_ops(cond)[last])));
                        }
                    }
                }
            }
            i = i + 1;
        }
        Predicates { simple_predicates: simple, complex_predicates: complex, sources: Ghost(conds) }
    }
}

/// The conditions nested in a condition include those nested in each of them.
pub proof fn lemma_within_closed(root: SOp, o: SOp)
    requires
        ops_within(root).contains(o),
    ensures
        ops_within(o).subset_of(ops_within(root)),
    decreases root,
{
    if o != root {
        match root {
            SOp::And(ops) => lemma_within_all_closed(ops, o),
            SOp::Or(ops) => lemma_within_all_closed(ops, o),
            SOp::Cmp(a, b, _, _) => {
                if ops_in_val(a).contains(o) {
                    lemma_in_val_closed(a, o);
                } else {
                    lemma_in_val_closed(b, o);
                }
            },
            SOp::Match(v, _, _) => lemma_in_val_closed(v, o),
            SOp::Val(v) => lemma_in_val_closed(v, o),
            SOp::Negate(x) => lemma_within_closed(*x, o),
        }
    }
}

pub proof fn lemma_within_all_closed(s: Seq<SOp>, o: SOp)
    requires
        ops_within_all(s).contains(o),
    ensures
        ops_within(o).subset_of(ops_within_all(s)),
    decreases s,
{
    if s.len() > 0 {
        if ops_within_all(s.drop_last()).contains(o) {
            lemma_within_all_closed(s.drop_last(), o);
        } else {
            lemma_within_closed(s.last(), o);
        }
    }
}

pub proof fn lemma_in_val_closed(v: crate::ast::SVal, o: SOp)
    requires
        ops_in_val(v).contains(o),
    ensures
        ops_within(o).subset_of(ops_in_val(v)),
    decreases v,
{
    match v {
        crate::ast::SVal::Expression(x) => lemma_within_closed(*x, o),
        crate::ast::SVal::FnCall(_, args) => lemma_in_vals_closed(args, o),
        crate::ast::SVal::MethodCall(r, _, args) => {
            if ops_in_val(*r).contains(o) {
                lemma_in_val_closed(*r, o);
            } else {
                lemma_in_vals_closed(args, o);
            }
        },
        _ => {},
    }
}

pub proof fn lemma_in_vals_closed(s: Seq<crate::ast::SVal>, o: SOp)
    requires
        ops_in_vals(s).contains(o),
    ensures
        ops_within(o).subset_of(ops_in_vals(s)),
    decreases s,
{
    if s.len() > 0 {
        if ops_in_vals(s.drop_last()).contains(o) {
            lemma_in_vals_closed(s.drop_last(), o);
        } else {
            lemma_in_val_closed(s.last(), o);
        }
    }
}

/// Each part evaluated on its own lies within the condition.
pub proof fn lemma_simple_ops_within(root: SOp, j: int)
    requires
        0 <= j < simple_ops(root).len(),
    ensures
        ops_within(root).contains(simple_ops(root)[j]),
    decreases root,
{
    match root {
        SOp::And(ops) => lemma_simple_all_within(ops, j),
        SOp::Or(ops) => lemma_simple_all_within(ops, j),
        _ => {},
    }
}

pub proof fn lemma_simple_all_within(s: Seq<SOp>, j: int)
    requires
        0 <= j < simple_ops_all(s).len(),
    ensures
        ops_within_all(s).contains(simple_ops_all(s)[j]),
    decreases s,
{
    if s.len() > 0 {
        let a = simple_ops_all(s.drop_last());
        if j < a.len() {
            lemma_simple_all_within(s.drop_last(), j);
        } else {
            lemma_simple_ops_within(s.last(), j - a.len());
        }
    }
}

/// Each conjunction and disjunction of a condition lies within it.
pub proof fn lemma_complex_ops_within(root: SOp, j: int)
    requires
        0 <= j < complex_ops(root).len(),
    ensures
        ops_within(root).contains(complex_ops(root)[j]),
    decreases root,
{
    match root {
        SOp::And(ops) => {
            if j < complex_ops_all(ops).len() {
                lemma_complex_all_within(ops, j);
            }
        },
        SOp::Or(ops) => {
            if j < complex_ops_all(ops).len() {
                lemma_complex_all_within(ops, j);
            }
        },
        _ => {},
    }
}

pub proof fn lemma_complex_all_within(s: Seq<SOp>, j: int)
    requires
        0 <= j < complex_ops_all(s).len(),
    ensures
        ops_within_all(s).contains(complex_ops_all(s)[j]),
    decreases s,
{
    if s.len() > 0 {
        let a = complex_ops_all(s.drop_last());
        if j < a.len() {
            lemma_complex_all_within(s.drop_last(), j);
        } else {
            lemma_complex_ops_within(s.last(), j - a.len());
        }
    }
}

/// A condition is its one part evaluated on its own, or its last conjunction or
/// disjunction.
pub proof fn lemma_root_among_parts(root: SOp)
    ensures
        (simple_ops(root).len() == 1 && simple_ops(root)[0] == root) || (complex_ops(root).len() > 0
            && complex_ops(root)[complex_ops(root).len() - 1] == root),
{
}

/// The engine: rules, and the predicates compiled from them once `compile_rules` ran.
pub struct RadeEngine {
    rules: Rules,
    predicates: Option<Predicates>,
}

impl Default for RadeEngine {
    /// An engine without rules and without predicates.
    fn default() -> (r: Self)
        ensures
            r.rules_spec().len() == 0,
            !r.has_predicates(),
    {
        RadeEngine { rules: Rules(Vec::new()), predicates: None }
    }
}

impl RadeEngine {
    /// The models of the engine's rules.
    pub closed spec fn rules_spec(&self) -> Seq<RuleView> {
        rules_view(self.rules.0@)
    }

    /// Whether predicates were compiled, from whatever rules the engine had then.
    pub closed spec fn has_predicates(&self) -> bool {
        self.predicates is Some
    }

    /// The rule conditions the engine's predicates were compiled from (meaningful when it
    /// has predicates).
    pub closed spec fn predicate_sources(&self) -> Seq<SOp> {
        self.predicates->0.sources()
    }

    /// Whether the predicates were compiled from the engine's current rules.
    pub closed spec fn compiled(&self) -> bool {
        self.predicates is Some && self.predicates->0.sources() == conditions(
            rules_view(self.rules.0@),
        )
    }

    pub fn from_rules(rules: Rules) -> (r: RadeEngine)
        ensures
            r.rules_spec() == rules_view(rules.0@),
            !r.has_predicates(),
    {
        RadeEngine { rules, predicates: None }
    }

    /// Replaces the rules; predicates compiled earlier are kept as they were.
    pub fn load_rules(&mut self, rules: Rules)
        ensures
            final(self).rules_spec() == rules_view(rules.0@),
            final(self).has_predicates() == old(self).has_predicates(),
    {
        self.rules = rules;
    }

    /// Compiles predicates from the current rules.
    pub fn compile_rules(&mut self)
        ensures
            final(self).rules_spec() == old(self).rules_spec(),
            final(self).has_predicates(),
            final(self).compiled(),
    {
        self.predicates = Some(Predicates::from_rules(&self.rules));
    }

    /// For each rule, then each event: the event with the rule's identifier when
    /// `Rule::evaluate` finds that the event meets the rule (`matches_by_rule_cached`, for
    /// any hashes). When no rule's condition holds two different conditions with the same
    /// hash, this is `matches_by_rule`.
    pub fn eval_iterative(&mut self, events: Events) -> (r: Matches)
        ensures
            *final(self) == *old(self),
            (forall|i: int|
                0 <= i < old(self).rules_spec().len() ==> hash_injective(
                    ops_within(#[trigger] old(self).rules_spec()[i].condition),
                )) ==> matches_view(r.0@) == matches_by_rule(
                old(self).rules_spec(),
                events_view(events.0@),
            ),
            matches_view(r.0@) == matches_by_rule_cached(old(self).rules_spec(), events_view(events.0@)),
    {
        let ghost rv = rules_view(self.rules.0@);
        let ghost evv = events_view(events.0@);
        let ghost hyp = forall|i: int|
            0 <= i < rv.len() ==> hash_injective(ops_within(#[trigger] rv[i].condition));
        let mut matches = Matches::new();
        let rules = self.rules.iter();
        let evs = events.iter();
        proof {
            assert(rv.take(0) =~= Seq::<RuleView>::empty());
            assert(matches_view(matches.0@) =~= matches_by_rule(rv.take(0), evv));
            assert(matches_view(matches.0@) =~= matches_by_rule_cached(rv.take(0), evv));
        }
        let mut i: usize = 0;
        while i < rules.len()
            invariant
                i <= rules@.len(),
                rules@ == self.rules.0@,
                evs@ == events.0@,
                rv == rules_view(rules@),
                evv == events_view(evs@),
                hyp == (forall|k: int|
                    0 <= k < rv.len() ==> hash_injective(ops_within(#[trigger] rv[k].condition))),
                hyp ==> matches_view(matches.0@) == matches_by_rule(rv.take(i as int), evv),
                matches_view(matches.0@) == matches_by_rule_cached(rv.take(i as int), evv),
            decreases rules.len() - i,
        {
            let ghost base = matches_view(matches.0@);
            proof {
                assert(evv.take(0) =~= Seq::<EventView>::empty());
                assert(base + single_rule_matches(rv[i as int], evv.take(0)) =~= base);
                assert(base + single_rule_matches_cached(rv[i as int], evv.take(0)) =~= base);
            }
            let mut j: usize = 0;
            while j < evs.len()
                invariant
                    i < rules@.len(),
                    j <= evs@.len(),
                    rules@ == self.rules.0@,
                    evs@ == events.0@,
                    rv == rules_view(rules@),
                    evv == events_view(evs@),
                    hyp == (forall|k: int|
                        0 <= k < rv.len() ==> hash_injective(ops_within(#[trigger] rv[k].condition))),
                    hyp ==> base == matches_by_rule(rv.take(i as int), evv),
                    hyp ==> matches_view(matches.0@) == base + single_rule_matches(rv[i as int], evv.take(j as int)),
                    base == matches_by_rule_cached(rv.take(i as int), evv),
                    matches_view(matches.0@) == base + single_rule_matches_cached(rv[i as int], evv.take(j as int)),
                decreases evs.len() - j,
            {
                let mut matched_rules = MatchedRules::new();
                let hit = rules[i].evaluate(&evs[j]);
                if hit {
                    matched_rules.add(*rules[i].id());
                }
                let e = evs[j].clone();
                let ghost prev = matches_view(matches.0@);
                proof {
                    assert(evv.take(j + 1).drop_last() =~= evv.take(j as int));
                    assert(rv[i as int] == rules@[i as int]@);
                    assert(evv[j as int] == evs@[j as int]@);
                    if hyp {
                        assert(hash_injective(ops_within(rv[i as int].condition)));
                        assert(matched_rules.0@ =~= rule_hit(rv[i as int], evv[j as int]));
                    }
                    assert(matched_rules.0@ =~= rule_hit_cached(rv[i as int], evv[j as int]));
                }
                matches.add_match(e, matched_rules);
                proof {
                    if hyp {
                        assert(with_match(prev, evv[j as int], rule_hit(rv[i as int], evv[j as int])) =~= base
                            + single_rule_matches(rv[i as int], evv.take(j + 1)));
                    }
                    assert(with_match(prev, evv[j as int], rule_hit_cached(rv[i as int], evv[j as int])) =~= base
                        + single_rule_matches_cached(rv[i as int], evv.take(j + 1)));
                }
                j = j + 1;
            }
            proof {
                assert(evv.take(evs@.len() as int) =~= evv);
                assert(rv.take(i + 1).drop_last() =~= rv.take(i as int));
            }
            i = i + 1;
        }
        proof {
            assert(rv.take(rules@.len() as int) =~= rv);
        }
        matches
    }

    /// For each event: the event with the identifiers of the rules it meets, found by
    /// evaluating the compiled predicates once into a shared cache. An error when no
    /// predicates were compiled. When they were compiled from the current rules and no two
    /// different conditions nested in the rules share a hash, the result is
    /// `matches_by_event`. When they were compiled from other rules, each reported rule
    /// still holds for its event (a rule whose condition no predicate computed is left
    /// out).
    pub fn eval_with_predicates(&mut self, events: Events) -> (r: RadeResult<Matches>)
        ensures
            *final(self) == *old(self),
            r is Err <==> !old(self).has_predicates(),
            r is Err ==> r->Err_0@ == "Predicates not compiled. Call compile_rules() before eval_with_predicates()."@,
            (old(self).compiled() && hash_injective(
                ops_within_all(conditions(old(self).rules_spec())),
            )) ==> matches_view(r->Ok_0.0@) == matches_by_event(
                old(self).rules_spec(),
                events_view(events.0@),
            ),
            (old(self).has_predicates() && hash_injective(
                ops_within_all(old(self).predicate_sources()).union(
                    ops_within_all(conditions(old(self).rules_spec())),
                ),
            )) ==> all_ids_hold(matches_view(r->Ok_0.0@), old(self).rules_spec()),
    {
        let mut matches = Matches::new();
        match &self.predicates {
            None => Err("Predicates not compiled. Call compile_rules() before eval_with_predicates().".to_owned()),
            Some(predicates) => {
                let ghost rv = rules_view(self.rules.0@);
                let ghost hyp = predicates.sources() == conditions(rv) && hash_injective(
                    ops_within_all(predicates.sources()),
                );
                let evs = events.get();
                let ghost evv = events_view(evs@);
                proof {
                    assert(evv.take(0) =~= Seq::<EventView>::empty());
                    assert(matches_view(matches.0@) =~= matches_by_event(rv, evv.take(0)));
                }
                let mut i: usize = 0;
                while i < evs.len()
                    invariant
                        i <= evs@.len(),
                        evv == events_view(evs@),
                        rv == rules_view(self.rules.0@),
                        hyp == (predicates.sources() == conditions(rv) && hash_injective(
                            ops_within_all(predicates.sources()),
                        )),
                        hyp ==> matches_view(matches.0@) == matches_by_event(rv, evv.take(i as int)),
                        hash_injective(ops_within_all(predicates.sources()).union(ops_within_all(conditions(rv))))
                            ==> all_ids_hold(matches_view(matches.0@), rv),
                    decreases evs.len() - i,
                {
                    let matched = self.eval_one_event(&evs[i], predicates);
                    let e = evs[i].clone();
                    proof {
                        assert(evv.take(i + 1).drop_last() =~= evv.take(i as int));
                        assert(evv[i as int] == evs@[i as int]@);
                    }
                    let ghost before = matches_view(matches.0@);
                    matches.add_match(e, matched);
                    proof {
                        let after = matches_view(matches.0@);
                        if matched.0@.len() > 0 && hash_injective(
                            ops_within_all(predicates.sources()).union(ops_within_all(conditions(rv))),
                        ) {
                            assert(ids_hold(matched.0@, rv, evs@[i as int]@));
                            assert(e@ == evs@[i as int]@);
                            assert(after == before.push((e@, matched.0@)));
                            assert forall|k: int| 0 <= k < after.len() implies #[trigger] ids_hold(
                                after[k].1,
                                rv,
                                after[k].0,
                            ) by {
                                if k < before.len() {
                                    assert(after[k] == before[k]);
                                }
                            }
                        }
                    }
                    i = i + 1;
                }
                proof {
                    assert(evv.take(evs@.len() as int) =~= evv);
                }
                Ok(matches)
            },
        }
    }

    /// The identifiers of the rules whose condition's hash the predicates' results mark
    /// true, in rule order.
    fn eval_one_event(&self, event: &Event, predicates: &Predicates) -> (r: MatchedRules)
        ensures
            (predicates.sources() == conditions(rules_view(self.rules.0@)) && hash_injective(
                ops_within_all(predicates.sources()),
            )) ==> r.0@ == matching_ids(rules_view(self.rules.0@), event@),
            hash_injective(ops_within_all(predicates.sources()).union(ops_within_all(conditions(rules_view(self.rules.0@))))) ==>
                ids_hold(r.0@, rules_view(self.rules.0@), event@),
    {
        proof {
            use_type_invariant(predicates);
        }
        let ghost s = ops_within_all(predicates.sources@);
        let ghost ev = event@;
        let ghost hyp = hash_injective(s);
        let ghost sm = pred_map_contents(predicates.simple_predicates);
        let ghost cm = pred_map_contents(predicates.complex_predicates);
        let mut results = ResultMap::new();
        let simple = predicates.simple_predicates.values();
        proof {
            assert forall|j: int| 0 <= j < simple@.len() implies ops_within(
                #[trigger] simple@[j]@,
            ).subset_of(s) by {
                let k = choose|k: u64| #![trigger sm[k]] sm.contains_key(k) && sm[k] == simple@[j]@;
            }
        }
        let mut i: usize = 0;
        while i < simple.len()
            invariant
                i <= simple@.len(),
                forall|j: int| 0 <= j < simple@.len() ==> ops_within(#[trigger] simple@[j]@).subset_of(s),
                hyp == hash_injective(s),
                ev == event@,
                hyp ==> cache_sound(result_map_contents(results), ev, s),
                forall|j: int| 0 <= j < i ==> result_map_contents(results).contains_key(op_hash(#[trigger] simple@[j]@)),
                crate::evaluate::keys_from(crate::evaluate::no_results(), result_map_contents(results), s),
            decreases simple.len() - i,
        {
            simple[i].eval_cached(event, &mut results, Ghost(s));
            i = i + 1;
        }
        let complex = predicates.complex_predicates.values();
        proof {
            assert forall|j: int| 0 <= j < complex@.len() implies ops_within(
                #[trigger] complex@[j]@,
            ).subset_of(s) by {
                let k = choose|k: u64| #![trigger cm[k]] cm.contains_key(k) && cm[k] == complex@[j]@;
            }
        }
        let mut i: usize = 0;
        while i < complex.len()
            invariant
                i <= complex@.len(),
                forall|j: int| 0 <= j < complex@.len() ==> ops_within(#[trigger] complex@[j]@).subset_of(s),
                hyp == hash_injective(s),
                ev == event@,
                hyp ==> cache_sound(result_map_contents(results), ev, s),
                forall|j: int| 0 <= j < simple@.len() ==> result_map_contents(results).contains_key(op_hash(#[trigger] simple@[j]@)),
                forall|j: int| 0 <= j < i ==> result_map_contents(results).contains_key(op_hash(#[trigger] complex@[j]@)),
                crate::evaluate::keys_from(crate::evaluate::no_results(), result_map_contents(results), s),
            decreases complex.len() - i,
        {
            complex[i].eval_cached(event, &mut results, Ghost(s));
            i = i + 1;
        }
        let ghost res = result_map_contents(results);
        proof {
            assert forall|k: u64| sm.contains_key(k) implies #[trigger] res.contains_key(k) by {
                let j = choose|j: int| 0 <= j < simple@.len() && #[trigger] simple@[j]@ == sm[k];
                assert(res.contains_key(op_hash(simple@[j]@)));
            }
            assert forall|k: u64| cm.contains_key(k) implies #[trigger] res.contains_key(k) by {
                let j = choose|j: int| 0 <= j < complex@.len() && #[trigger] complex@[j]@ == cm[k];
                assert(res.contains_key(op_hash(complex@[j]@)));
            }
        }
        let ghost rv = rules_view(self.rules.0@);
        let ghost all_hyp = predicates.sources() == conditions(rv) && hash_injective(s);
        let rules = self.rules.iter();
        let mut matched = MatchedRules::new();
        proof {
            assert(rv.take(0) =~= Seq::<RuleView>::empty());
        }
        let mut j: usize = 0;
        while j < rules.len()
            invariant
                j <= rules@.len(),
                rules@ == self.rules.0@,
                rv == rules_view(rules@),
                res == result_map_contents(results),
                all_hyp == (predicates.sources() == conditions(rv) && hash_injective(s)),
                all_hyp ==> cache_sound(res, ev, s),
                hyp ==> cache_sound(res, ev, s),
                hyp == hash_injective(s),
                ev == event@,
                s == ops_within_all(predicates.sources@),
                forall|k: u64| sm.contains_key(k) ==> #[trigger] res.contains_key(k),
                forall|k: u64| cm.contains_key(k) ==> #[trigger] res.contains_key(k),
                forall|i: int|
                    0 <= i < predicates.sources@.len() ==> sm.contains_key(op_hash(#[trigger] predicates.sources@[i]))
                        || cm.contains_key(op_hash(predicates.sources@[i])),
                all_hyp ==> matched.0@ == matching_ids(rv.take(j as int), ev),
                crate::evaluate::keys_from(crate::evaluate::no_results(), res, s),
                hash_injective(s.union(ops_within_all(conditions(rv)))) ==> ids_hold(matched.0@, rv, ev),
            decreases rules.len() - j,
        {
            let h = rules[j].condition_hash();
            let got = results.get(h);
            proof {
                assert(rv.take(j + 1).drop_last() =~= rv.take(j as int));
                assert(rv[j as int] == rules@[j as int]@);
                if all_hyp {
                    let cond = rv[j as int].condition;
                    assert(predicates.sources@[j as int] == cond);
                    lemma_ops_within_all_elem(predicates.sources@, j as int);
                    lemma_ops_within_self(cond);
                    assert(s.contains(cond));
                    assert(res.contains_key(op_hash(cond)));
                }
            }
            match got {
                Some(true) => {
                    let ghost before = matched.0@;
                    matched.add(*rules[j].id());
                    proof {
                        if hash_injective(s.union(ops_within_all(conditions(rv)))) {
                            let cond = rv[j as int].condition;
                            assert(conditions(rv)[j as int] == cond);
                            lemma_ops_within_all_elem(conditions(rv), j as int);
                            lemma_ops_within_self(cond);
                            assert(ops_within_all(conditions(rv)).contains(cond));
                            assert(res.contains_key(op_hash(cond)));
                            assert(!crate::evaluate::no_results().contains_key(op_hash(cond)));
                            let o = choose|o: SOp| #[trigger] s.contains(o) && op_hash(o) == op_hash(cond);
                            assert(s.union(ops_within_all(conditions(rv))).contains(o));
                            assert(s.union(ops_within_all(conditions(rv))).contains(cond));
                            assert(o == cond);
                            lemma_injective_subset(s.union(ops_within_all(conditions(rv))), s);
                            assert(res[op_hash(o)] == eval(o, ev));
                            assert(eval(cond, ev));
                            assert forall|k: int| 0 <= k < matched.0@.len() implies exists|i: int|
                                0 <= i < rv.len() && rv[i].id == #[trigger] matched.0@[k] && eval(
                                    rv[i].condition,
                                    ev,
                                ) by {
                                if k < before.len() {
                                    assert(matched.0@[k] == before[k]);
                                } else {
                                    assert(rv[j as int].id == matched.0@[k]);
                                }
                            }
                        }
                    }
                },
                _ => {},
            }
            j = j + 1;
        }
        proof {
            assert(rv.take(rules@.len() as int) =~= rv);
        }
        matched
    }
}

proof fn lemma_has_pair_with_match(
    m: Seq<(EventView, Seq<Guid>)>,
    e2: EventView,
    ids: Seq<Guid>,
    e: EventView,
    id: Guid,
)
    ensures
        has_pair(with_match(m, e2, ids), e, id) == (has_pair(m, e, id) || (e2 == e && ids.contains(
            id,
        ))),
{
    if ids.len() > 0 {
        let m2 = m.push((e2, ids));
        if has_pair(m2, e, id) {
            let j = choose|j: int| 0 <= j < m2.len() && m2[j].0 == e && #[trigger] m2[j].1.contains(id);
            if j < m.len() {
                assert(m2[j] == m[j]);
                assert(m[j].1.contains(id));
            }
        }
        if has_pair(m, e, id) {
            let j = choose|j: int| 0 <= j < m.len() && m[j].0 == e && #[trigger] m[j].1.contains(id);
            assert(m2[j] == m[j]);
            assert(m2[j].1.contains(id));
        }
        if e2 == e && ids.contains(id) {
            assert(m2[m.len() as int].1.contains(id));
        }
    } else {
        if ids.contains(id) {
            let k = choose|k: int| 0 <= k < ids.len() && ids[k] == id;
        }
    }
}

proof fn lemma_has_pair_concat(a: Seq<(EventView, Seq<Guid>)>, b: Seq<(EventView, Seq<Guid>)>, e: EventView, id: Guid)
    ensures
        has_pair(a + b, e, id) == (has_pair(a, e, id) || has_pair(b, e, id)),
{
    let c = a + b;
    if has_pair(c, e, id) {
        let j = choose|j: int| 0 <= j < c.len() && c[j].0 == e && #[trigger] c[j].1.contains(id);
        if j < a.len() {
            assert(c[j] == a[j]);
            assert(a[j].1.contains(id));
        } else {
            assert(c[j] == b[j - a.len()]);
            assert(b[j - a.len()].1.contains(id));
        }
    }
    if has_pair(a, e, id) {
        let j = choose|j: int| 0 <= j < a.len() && a[j].0 == e && #[trigger] a[j].1.contains(id);
        assert(c[j] == a[j]);
        assert(c[j].1.contains(id));
    }
    if has_pair(b, e, id) {
        let j = choose|j: int| 0 <= j < b.len() && b[j].0 == e && #[trigger] b[j].1.contains(id);
        assert(c[j + a.len()] == b[j]);
        assert(c[j + a.len()].1.contains(id));
    }
}

/// Some rule of `rules` has identifier `id` and its condition holds for the event.
pub open spec fn some_rule_hits(rules: Seq<RuleView>, ev: EventView, id: Guid) -> bool {
    exists|ir: int| 0 <= ir < rules.len() && #[trigger] rules[ir].id == id && eval(rules[ir].condition, ev)
}

proof fn lemma_matching_ids_contains(rules: Seq<RuleView>, ev: EventView, id: Guid)
    ensures
        matching_ids(rules, ev).contains(id) == some_rule_hits(rules, ev, id),
    decreases rules.len(),
{
    if rules.len() > 0 {
        let init = rules.drop_last();
        lemma_matching_ids_contains(init, ev, id);
        let prev = matching_ids(init, ev);
        if some_rule_hits(rules, ev, id) {
            let ir = choose|ir: int| 0 <= ir < rules.len() && #[trigger] rules[ir].id == id && eval(rules[ir].condition, ev);
            if ir < rules.len() - 1 {
                assert(init[ir] == rules[ir]);
                assert(some_rule_hits(init, ev, id));
                let k = choose|k: int| 0 <= k < prev.len() && prev[k] == id;
                if eval(rules.last().condition, ev) {
                    assert(prev.push(rules.last().id)[k] == id);
                }
            } else {
                assert(prev.push(rules.last().id)[prev.len() as int] == id);
            }
        }
        if matching_ids(rules, ev).contains(id) {
            let m = matching_ids(rules, ev);
            let k = choose|k: int| 0 <= k < m.len() && m[k] == id;
            if eval(rules.last().condition, ev) && k == prev.len() {
                assert(rules[rules.len() - 1].id == id);
            } else {
                if eval(rules.last().condition, ev) {
                    assert(m[k] == prev[k]);
                }
                assert(prev.contains(id));
                let ir = choose|ir: int| 0 <= ir < init.len() && #[trigger] init[ir].id == id && eval(init[ir].condition, ev);
                assert(init[ir] == rules[ir]);
            }
        }
    }
}

proof fn lemma_by_event_pairs(rules: Seq<RuleView>, events: Seq<EventView>, e: EventView, id: Guid)
    ensures
        has_pair(matches_by_event(rules, events), e, id) == meets(rules, events, e, id),
    decreases events.len(),
{
    if events.len() == 0 {
    } else {
        let init = events.drop_last();
        let last = events.last();
        lemma_by_event_pairs(rules, init, e, id);
        lemma_has_pair_with_match(matches_by_event(rules, init), last, matching_ids(rules, last), e, id);
        lemma_matching_ids_contains(rules, last, id);
        if meets(rules, events, e, id) {
            let (ie, ir) = choose|ie: int, ir: int|
                0 <= ie < events.len() && 0 <= ir < rules.len() && #[trigger] events[ie] == e
                    && #[trigger] rules[ir].id == id && eval(rules[ir].condition, e);
            if ie < events.len() - 1 {
                assert(init[ie] == events[ie]);
                assert(meets(rules, init, e, id));
            } else {
                assert(some_rule_hits(rules, last, id));
            }
        }
        if meets(rules, init, e, id) {
            let (ie, ir) = choose|ie: int, ir: int|
                0 <= ie < init.len() && 0 <= ir < rules.len() && #[trigger] init[ie] == e
                    && #[trigger] rules[ir].id == id && eval(rules[ir].condition, e);
            assert(events[ie] == init[ie]);
        }
        if last == e && some_rule_hits(rules, last, id) {
            let ir = choose|ir: int| 0 <= ir < rules.len() && #[trigger] rules[ir].id == id && eval(rules[ir].condition, last);
            assert(events[events.len() - 1] == e);
        }
    }
}

proof fn lemma_single_rule_pairs(r: RuleView, events: Seq<EventView>, e: EventView, id: Guid)
    ensures
        has_pair(single_rule_matches(r, events), e, id) == (exists|ie: int|
            0 <= ie < events.len() && #[trigger] events[ie] == e && r.id == id && eval(r.condition, e)),
    decreases events.len(),
{
    if events.len() > 0 {
        let init = events.drop_last();
        let last = events.last();
        lemma_single_rule_pairs(r, init, e, id);
        lemma_has_pair_with_match(single_rule_matches(r, init), last, rule_hit(r, last), e, id);
        if rule_hit(r, last).contains(id) {
            let k = choose|k: int| 0 <= k < rule_hit(r, last).len() && rule_hit(r, last)[k] == id;
        }
        if eval(r.condition, last) && r.id == id {
            assert(rule_hit(r, last)[0] == id);
        }
        if exists|ie: int| 0 <= ie < events.len() && #[trigger] events[ie] == e && r.id == id && eval(r.condition, e) {
            let ie = choose|ie: int| 0 <= ie < events.len() && #[trigger] events[ie] == e && r.id == id && eval(r.condition, e);
            if ie < events.len() - 1 {
                assert(init[ie] == events[ie]);
            }
        }
        if exists|ie: int| 0 <= ie < init.len() && #[trigger] init[ie] == e && r.id == id && eval(r.condition, e) {
            let ie = choose|ie: int| 0 <= ie < init.len() && #[trigger] init[ie] == e && r.id == id && eval(r.condition, e);
            assert(events[ie] == init[ie]);
        }
        if last == e && eval(r.condition, e) && r.id == id {
            assert(events[events.len() - 1] == e);
        }
    }
}

proof fn lemma_by_rule_pairs(rules: Seq<RuleView>, events: Seq<EventView>, e: EventView, id: Guid)
    ensures
        has_pair(matches_by_rule(rules, events), e, id) == meets(rules, events, e, id),
    decreases rules.len(),
{
    if rules.len() > 0 {
        let init = rules.drop_last();
        let last = rules.last();
        lemma_by_rule_pairs(init, events, e, id);
        lemma_has_pair_concat(matches_by_rule(init, events), single_rule_matches(last, events), e, id);
        lemma_single_rule_pairs(last, events, e, id);
        if meets(rules, events, e, id) {
            let (ie, ir) = choose|ie: int, ir: int|
                0 <= ie < events.len() && 0 <= ir < rules.len() && #[trigger] events[ie] == e
                    && #[trigger] rules[ir].id == id && eval(rules[ir].condition, e);
            if ir < rules.len() - 1 {
                assert(init[ir] == rules[ir]);
                assert(meets(init, events, e, id));
            } else {
                assert(events[ie] == e && last.id == id && eval(last.condition, e));
            }
        }
        if meets(init, events, e, id) {
            let (ie, ir) = choose|ie: int, ir: int|
                0 <= ie < events.len() && 0 <= ir < init.len() && #[trigger] events[ie] == e
                    && #[trigger] init[ir].id == id && eval(init[ir].condition, e);
            assert(rules[ir] == init[ir]);
        }
        if exists|ie: int| 0 <= ie < events.len() && #[trigger] events[ie] == e && last.id == id && eval(last.condition, e) {
            let ie = choose|ie: int| 0 <= ie < events.len() && #[trigger] events[ie] == e && last.id == id && eval(last.condition, e);
            assert(rules[rules.len() - 1].id == id);
        }
    }
}

/// Evaluating event by event through the compiled predicates finds the same (event, rule)
/// matches as evaluating rule by rule: an event is paired with a rule identifier in one
/// exactly when it is in the other, which is when the event is among the events and meets
/// a rule with that identifier.
pub proof fn law_predicates_find_iterative_matches(
    rules: Seq<RuleView>,
    events: Seq<EventView>,
    e: EventView,
    id: Guid,
)
    ensures
        has_pair(matches_by_event(rules, events), e, id) == has_pair(matches_by_rule(rules, events), e, id),
        has_pair(matches_by_event(rules, events), e, id) == meets(rules, events, e, id),
{
    lemma_by_event_pairs(rules, events, e, id);
    lemma_by_rule_pairs(rules, events, e, id);
}

/// Two rules whose conditions compare the same plain operands (ones that hold no nested
/// condition) with different comparators, such as `user == 'root'` and `user != 'root'`,
/// give their conditions different hashes: the engine's compiled predicates then answer
/// each rule for itself, as evaluating rule by rule does.
pub proof fn law_comparators_keep_rules_apart(
    rules: Seq<RuleView>,
    a: SVal,
    b: SVal,
    c1: Comparator,
    c2: Comparator,
    f: Option<InsensitiveFlag>,
)
    requires
        rules.len() == 2,
        rules[0].condition == SOp::Cmp(a, b, c1, f),
        rules[1].condition == SOp::Cmp(a, b, c2, f),
        c1 != c2,
        ops_in_val(a) == Set::<SOp>::empty(),
        ops_in_val(b) == Set::<SOp>::empty(),
    ensures
        hash_injective(ops_within_all(conditions(rules))),
{
    let o1 = SOp::Cmp(a, b, c1, f);
    let o2 = SOp::Cmp(a, b, c2, f);
    let conds = conditions(rules);
    assert(conds =~= seq![o1, o2]);
    assert(ops_within(o1) =~= set![o1]);
    assert(ops_within(o2) =~= set![o2]);
    assert(conds.drop_last() =~= seq![o1]);
    let one = seq![o1];
    assert(one.drop_last() =~= Seq::<SOp>::empty());
    assert(one.last() == o1);
    assert(ops_within_all(Seq::<SOp>::empty()) == Set::<SOp>::empty());
    assert(ops_within_all(one) =~= Set::<SOp>::empty().union(set![o1]));
    assert(ops_within_all(one) =~= set![o1]);
    assert(conds.last() == o2);
    assert(ops_within_all(conds) =~= set![o1, o2]);
    law_comparator_changes_hash(a, b, c1, c2, f);
}

} // verus!
