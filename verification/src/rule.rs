//! Rules: what happens when an event arrives. A rule names the event that
//! triggers it, the conditions under which it fires, the changes it makes to
//! the facts and the events it emits.

use vstd::prelude::*;
use crate::database::{bool_at, int_at, wrapped_sum, FactReader};
use crate::event::{FactEvent, FactEventId};
use crate::layered::LayeredFactDatabase;
use crate::value::{same_value, texts, FactData, FactValue};

verus! {

/// How long a rule lives.
#[derive(Debug, Clone, Copy, PartialEq, Eq, Structural, Hash)]
pub enum RuleScope {
    /// For the whole life of the application.
    Global,
    /// For the current scene; cleared when the scene is left.
    Local,
    /// For one view; cleared when the view is released.
    View,
}

impl Default for RuleScope {
    fn default() -> (r: RuleScope)
        ensures
            r == RuleScope::Local,
    {
        RuleScope::Local
    }
}

/// A structured condition on the facts.
#[derive(Debug)]
pub enum RuleCondition {
    /// The fact is there and equals the value.
    Equals(String, FactValue),
    /// The fact is an integer greater than the number.
    GreaterThan(String, i64),
    /// The fact is an integer less than the number.
    LessThan(String, i64),
    /// The fact is an integer greater than or equal to the number.
    GreaterOrEqual(String, i64),
    /// The fact is an integer less than or equal to the number.
    LessOrEqual(String, i64),
    /// The fact is there.
    Exists(String),
    /// The fact is not there.
    NotExists(String),
    /// The fact is the boolean `true`.
    IsTrue(String),
    /// The fact is the boolean `false`.
    IsFalse(String),
    /// Every condition of the list holds.
    And(Vec<RuleCondition>),
    /// Some condition of the list holds.
    Or(Vec<RuleCondition>),
    /// The condition does not hold.
    Not(Box<RuleCondition>),
    /// Holds always.
    Always,
}

/// What a condition is, as mathematics.
pub enum ConditionData {
    Equals(Seq<char>, FactData),
    GreaterThan(Seq<char>, i64),
    LessThan(Seq<char>, i64),
    GreaterOrEqual(Seq<char>, i64),
    LessOrEqual(Seq<char>, i64),
    Exists(Seq<char>),
    NotExists(Seq<char>),
    IsTrue(Seq<char>),
    IsFalse(Seq<char>),
    And(Seq<ConditionData>),
    Or(Seq<ConditionData>),
    Not(Box<ConditionData>),
    Always,
}

impl ConditionData {
    /// Whether the condition holds of the facts that a read sees. A
    /// comparison with a number holds only of an integer fact; a missing
    /// fact is neither true nor false.
    pub open spec fn holds(self, facts: Map<Seq<char>, FactData>) -> bool
        decreases self,
    {
        match self {
            ConditionData::Equals(key, value) => facts.contains_key(key) && same_value(
                facts[key],
                value,
            ),
            ConditionData::GreaterThan(key, bound) => match int_at(facts, key) {
                Some(v) => v > bound,
                None => false,
            },
            ConditionData::LessThan(key, bound) => match int_at(facts, key) {
                Some(v) => v < bound,
                None => false,
            },
            ConditionData::GreaterOrEqual(key, bound) => match int_at(facts, key) {
                Some(v) => v >= bound,
                None => false,
            },
            ConditionData::LessOrEqual(key, bound) => match int_at(facts, key) {
                Some(v) => v <= bound,
                None => false,
            },
            ConditionData::Exists(key) => facts.contains_key(key),
            ConditionData::NotExists(key) => !facts.contains_key(key),
            ConditionData::IsTrue(key) => bool_at(facts, key) == Some(true),
            ConditionData::IsFalse(key) => bool_at(facts, key) == Some(false),
            ConditionData::And(list) => forall|i: int|
                0 <= i < list.len() ==> (#[trigger] list[i]).holds(facts),
            ConditionData::Or(list) => exists|i: int|
                0 <= i < list.len() && (#[trigger] list[i]).holds(facts),
            ConditionData::Not(inner) => !inner.holds(facts),
            ConditionData::Always => true,
        }
    }
}

/// A conjunction holds exactly when every member holds, and a disjunction
/// exactly when some member holds.
pub proof fn lemma_holds_of_lists(list: Seq<ConditionData>, facts: Map<Seq<char>, FactData>)
    ensures
        ConditionData::And(list).holds(facts) == (forall|i: int|
            0 <= i < list.len() ==> (#[trigger] list[i]).holds(facts)),
        ConditionData::Or(list).holds(facts) == (exists|i: int|
            0 <= i < list.len() && (#[trigger] list[i]).holds(facts)),
{
    assert forall|i: int| 0 <= i < list.len() implies decreases_to!(list => #[trigger] list[i]) by {}
    assert(ConditionData::And(list)->And_0 == list);
    assert(ConditionData::Or(list)->Or_0 == list);
}

/// The conditions of a list, as mathematics.
pub open spec fn condition_views(list: Seq<RuleCondition>) -> Seq<ConditionData>
    decreases list,
{
    Seq::new(
        list.len(),
        |i: int|
            if 0 <= i < list.len() {
                list[i].data()
            } else {
                ConditionData::Always
            },
    )
}

impl RuleCondition {
    /// The condition, as mathematics.
    pub open spec fn data(&self) -> ConditionData
        decreases self,
    {
        match self {
            RuleCondition::Equals(key, value) => ConditionData::Equals(key@, value@),
            RuleCondition::GreaterThan(key, bound) => ConditionData::GreaterThan(key@, *bound),
            RuleCondition::LessThan(key, bound) => ConditionData::LessThan(key@, *bound),
            RuleCondition::GreaterOrEqual(key, bound) => ConditionData::GreaterOrEqual(
                key@,
                *bound,
            ),
            RuleCondition::LessOrEqual(key, bound) => ConditionData::LessOrEqual(key@, *bound),
            RuleCondition::Exists(key) => ConditionData::Exists(key@),
            RuleCondition::NotExists(key) => ConditionData::NotExists(key@),
            RuleCondition::IsTrue(key) => ConditionData::IsTrue(key@),
            RuleCondition::IsFalse(key) => ConditionData::IsFalse(key@),
            RuleCondition::And(list) => ConditionData::And(condition_views(list@)),
            RuleCondition::Or(list) => ConditionData::Or(condition_views(list@)),
            RuleCondition::Not(inner) => ConditionData::Not(Box::new(inner.data())),
            RuleCondition::Always => ConditionData::Always,
        }
    }

    /// Whether the condition holds of what `db` gives to reads.
    pub fn evaluate<R: FactReader>(&self, db: &R) -> (r: bool)
        ensures
            r == self@.holds(db.reading()),
        decreases self,
    {
        match self {
            RuleCondition::Equals(key, value) => match db.get_by_str(key.as_str()) {
                Some(v) => v.same_as(value),
                None => false,
            },
            RuleCondition::GreaterThan(key, bound) => match db.get_int(key.as_str()) {
                Some(v) => v > *bound,
                None => false,
            },
            RuleCondition::LessThan(key, bound) => match db.get_int(key.as_str()) {
                Some(v) => v < *bound,
                None => false,
            },
            RuleCondition::GreaterOrEqual(key, bound) => match db.get_int(key.as_str()) {
                Some(v) => v >= *bound,
                None => false,
            },
            RuleCondition::LessOrEqual(key, bound) => match db.get_int(key.as_str()) {
                Some(v) => v <= *bound,
                None => false,
            },
            RuleCondition::Exists(key) => db.contains(key.as_str()),
            RuleCondition::NotExists(key) => !db.contains(key.as_str()),
            RuleCondition::IsTrue(key) => match db.get_bool(key.as_str()) {
                Some(v) => v,
                None => false,
            },
            RuleCondition::IsFalse(key) => match db.get_bool(key.as_str()) {
                Some(v) => !v,
                None => false,
            },
            RuleCondition::And(list) => {
                let ghost all = condition_views(list@);
                let mut i: usize = 0;
                while i < list.len()
                    invariant
                        i <= list.len(),
                        self == RuleCondition::And(*list),
                        self@ == ConditionData::And(all),
                        all == condition_views(list@),
                        forall|j: int| 0 <= j < i ==> (#[trigger] all[j]).holds(db.reading()),
                    decreases list.len() - i,
                {
                    assert(decreases_to!(self => self->And_0));
                    assert(decreases_to!(*list => list[i as int]));
                    assert(all[i as int] == list[i as int]@);
                    if !list[i].evaluate(db) {
                        proof {
                            let facts = db.reading();
                            assert(0 <= i < all.len() && !all[i as int].holds(facts));
                            lemma_holds_of_lists(all, facts);
                        }
                        return false;
                    }
                    i += 1;
                }
                proof {
                    lemma_holds_of_lists(all, db.reading());
                }
                true
            },
            RuleCondition::Or(list) => {
                let ghost all = condition_views(list@);
                let mut i: usize = 0;
                while i < list.len()
                    invariant
                        i <= list.len(),
                        self == RuleCondition::Or(*list),
                        self@ == ConditionData::Or(all),
                        all == condition_views(list@),
                        forall|j: int| 0 <= j < i ==> !(#[trigger] all[j]).holds(db.reading()),
                    decreases list.len() - i,
                {
                    assert(decreases_to!(self => self->Or_0));
                    assert(decreases_to!(*list => list[i as int]));
                    assert(all[i as int] == list[i as int]@);
                    if list[i].evaluate(db) {
                        proof {
                            let facts = db.reading();
                            assert(0 <= i < all.len() && all[i as int].holds(facts));
                            lemma_holds_of_lists(all, facts);
                        }
                        return true;
                    }
                    i += 1;
                }
                proof {
                    lemma_holds_of_lists(all, db.reading());
                }
                false
            },
            RuleCondition::Not(inner) => !inner.evaluate(db),
            RuleCondition::Always => true,
        }
    }
}

impl View for RuleCondition {
    type V = ConditionData;

    open spec fn view(&self) -> ConditionData {
        self.data()
    }
}

impl Clone for RuleCondition {
    fn clone(&self) -> (r: RuleCondition)
        ensures
            r@ == self@,
        decreases self,
    {
        match self {
            RuleCondition::Equals(key, value) => RuleCondition::Equals(key.clone(), value.clone()),
            RuleCondition::GreaterThan(key, bound) => RuleCondition::GreaterThan(
                key.clone(),
                *bound,
            ),
            RuleCondition::LessThan(key, bound) => RuleCondition::LessThan(key.clone(), *bound),
            RuleCondition::GreaterOrEqual(key, bound) => RuleCondition::GreaterOrEqual(
                key.clone(),
                *bound,
            ),
            RuleCondition::LessOrEqual(key, bound) => RuleCondition::LessOrEqual(
                key.clone(),
                *bound,
            ),
            RuleCondition::Exists(key) => RuleCondition::Exists(key.clone()),
            RuleCondition::NotExists(key) => RuleCondition::NotExists(key.clone()),
            RuleCondition::IsTrue(key) => RuleCondition::IsTrue(key.clone()),
            RuleCondition::IsFalse(key) => RuleCondition::IsFalse(key.clone()),
            RuleCondition::And(list) => RuleCondition::And(clone_conditions(list)),
            RuleCondition::Or(list) => RuleCondition::Or(clone_conditions(list)),
            RuleCondition::Not(inner) => RuleCondition::Not(Box::new((**inner).clone())),
            RuleCondition::Always => RuleCondition::Always,
        }
    }
}

/// A copy of a list of conditions.
pub fn clone_conditions(list: &Vec<RuleCondition>) -> (r: Vec<RuleCondition>)
    ensures
        condition_views(r@) == condition_views(list@),
    decreases list,
{
    let mut out: Vec<RuleCondition> = Vec::new();
    let mut i: usize = 0;
    while i < list.len()
        invariant
            i <= list.len(),
            out.len() == i,
            forall|j: int| 0 <= j < i ==> out[j]@ == list[j]@,
        decreases list.len() - i,
    {
        assert(decreases_to!(*list => list[i as int]));
        out.push(list[i].clone());
        i += 1;
    }
    assert(condition_views(out@) =~= condition_views(list@));
    out
}

} // verus!

verus! {

/// What a modification is, as mathematics.
pub enum ModData {
    Assign(Seq<char>, FactData),
    Increment(Seq<char>, i64),
    Remove(Seq<char>),
    Toggle(Seq<char>),
}

impl ModData {
    /// The local layer after the modification, given both layers before it.
    /// Reads go through both layers; the write goes to the local one.
    pub open spec fn applied(
        self,
        local: Map<Seq<char>, FactData>,
        global: Map<Seq<char>, FactData>,
    ) -> Map<Seq<char>, FactData> {
        let seen = global.union_prefer_right(local);
        match self {
            ModData::Assign(key, value) => local.insert(key, value),
            ModData::Increment(key, amount) => local.insert(
                key,
                FactData::Int(wrapped_sum(int_at(seen, key).unwrap_or(0), amount)),
            ),
            ModData::Remove(key) => local.remove(key),
            ModData::Toggle(key) => local.insert(
                key,
                FactData::Bool(!bool_at(seen, key).unwrap_or(false)),
            ),
        }
    }
}

/// The local layer after a list of modifications, applied in order.
pub open spec fn apply_all(
    list: Seq<ModData>,
    local: Map<Seq<char>, FactData>,
    global: Map<Seq<char>, FactData>,
) -> Map<Seq<char>, FactData>
    decreases list.len(),
{
    if list.len() == 0 {
        local
    } else {
        list.last().applied(apply_all(list.drop_last(), local, global), global)
    }
}

/// A change that a rule makes to the facts when it fires. Every change goes
/// to the local layer.
#[derive(Debug, Clone)]
pub enum FactModification {
    /// Store the value under the key.
    Assign(String, FactValue),
    /// Add the amount to the integer under the key (0 where there is none).
    Increment(String, i64),
    /// Take the fact out of the local layer.
    Remove(String),
    /// Flip the boolean under the key (`false` where there is none).
    Toggle(String),
}

impl View for FactModification {
    type V = ModData;

    open spec fn view(&self) -> ModData {
        match self {
            FactModification::Assign(key, value) => ModData::Assign(key@, value@),
            FactModification::Increment(key, amount) => ModData::Increment(key@, *amount),
            FactModification::Remove(key) => ModData::Remove(key@),
            FactModification::Toggle(key) => ModData::Toggle(key@),
        }
    }
}

impl FactModification {
    /// Makes the change to the local layer of `db`.
    pub fn apply(&self, db: &mut LayeredFactDatabase)
        ensures
            final(db).local_view() == self@.applied(old(db).local_view(), old(db).global_view()),
            final(db).global_view() == old(db).global_view(),
    {
        match self {
            FactModification::Assign(key, value) => {
                db.set_local(key.as_str(), value.clone());
            },
            FactModification::Increment(key, amount) => {
                db.increment(key.as_str(), *amount);
            },
            FactModification::Remove(key) => {
                let _ = db.remove(key.as_str());
            },
            FactModification::Toggle(key) => {
                let current = db.get_bool(key.as_str()).unwrap_or(false);
                db.set_local(key.as_str(), FactValue::Bool(!current));
            },
        }
    }
}

/// The modifications of a list, as mathematics.
pub open spec fn mod_views(list: Seq<FactModification>) -> Seq<ModData> {
    Seq::new(list.len(), |i: int| list[i]@)
}

/// The names of a list of event identifiers.
pub open spec fn id_views(list: Seq<FactEventId>) -> Seq<Seq<char>> {
    Seq::new(list.len(), |i: int| list[i]@)
}

/// What a rule is, as mathematics.
pub struct RuleData {
    pub id: Seq<char>,
    pub scope: RuleScope,
    pub trigger: Seq<char>,
    pub condition: ConditionData,
    pub condition_expressions: Seq<Seq<char>>,
    pub modifications: Seq<ModData>,
    pub outputs: Seq<Seq<char>>,
    pub enabled: bool,
    pub priority: i32,
    pub consume_event: bool,
}

impl RuleData {
    /// Whether the rule is a candidate for an event with this identifier:
    /// it is enabled and the event is its trigger.
    pub open spec fn matches(self, event_id: Seq<char>) -> bool {
        self.enabled && self.trigger == event_id
    }
}

/// A rule: the event that triggers it, its conditions, and what it does
/// when it fires.
#[derive(Debug, Clone)]
pub struct Rule {
    /// The rule's name; a registry holds one rule by each name.
    pub id: String,
    /// How long the rule lives.
    pub scope: RuleScope,
    /// The event that the rule listens for.
    pub trigger: FactEventId,
    /// A structured condition on the facts.
    pub condition: RuleCondition,
    /// Condition expressions; all must hold for the rule to fire, and an
    /// empty list holds always.
    pub condition_expressions: Vec<String>,
    /// The changes to make to the facts, in order.
    pub modifications: Vec<FactModification>,
    /// The events to emit after firing, in order.
    pub outputs: Vec<FactEventId>,
    /// A disabled rule matches no event.
    pub enabled: bool,
    /// Rules of higher priority are tried first.
    pub priority: i32,
    /// Whether firing ends the handling of the event.
    pub consume_event: bool,
}

impl View for Rule {
    type V = RuleData;

    open spec fn view(&self) -> RuleData {
        RuleData {
            id: self.id@,
            scope: self.scope,
            trigger: self.trigger@,
            condition: self.condition@,
            condition_expressions: texts(self.condition_expressions@),
            modifications: mod_views(self.modifications@),
            outputs: id_views(self.outputs@),
            enabled: self.enabled,
            priority: self.priority,
            consume_event: self.consume_event,
        }
    }
}

impl Rule {
    /// Starts a rule with this name and trigger.
    pub fn builder(id: &str, trigger: &str) -> (r: RuleBuilder)
        ensures
            r@ == fresh_rule(id@, trigger@),
    {
        RuleBuilder::new(id, trigger)
    }

    /// Whether the rule is a candidate for the event: it is enabled and the
    /// event is its trigger.
    pub fn matches_event(&self, event: &FactEvent) -> (r: bool)
        ensures
            r == self@.matches(event.id@),
    {
        self.enabled && self.trigger.0 == event.id.0
    }

    /// Whether the rule's structured condition holds of what `db` gives to
    /// reads.
    pub fn check_condition<R: FactReader>(&self, db: &R) -> (r: bool)
        ensures
            r == self@.condition.holds(db.reading()),
    {
        self.condition.evaluate(db)
    }
}

/// The rule that a builder starts from: local scope, no conditions, no
/// changes, no outputs, enabled, priority 0, consuming its event.
pub open spec fn fresh_rule(id: Seq<char>, trigger: Seq<char>) -> RuleData {
    RuleData {
        id,
        scope: RuleScope::Local,
        trigger,
        condition: ConditionData::Always,
        condition_expressions: Seq::empty(),
        modifications: Seq::empty(),
        outputs: Seq::empty(),
        enabled: true,
        priority: 0,
        consume_event: true,
    }
}

/// Builds a rule step by step.
pub struct RuleBuilder {
    rule: Rule,
}

impl View for RuleBuilder {
    type V = RuleData;

    /// The rule as it would be built now.
    closed spec fn view(&self) -> RuleData {
        self.rule@
    }
}

impl RuleBuilder {
    /// Starts a rule with this name and trigger.
    pub fn new(id: &str, trigger: &str) -> (r: RuleBuilder)
        ensures
            r@ == fresh_rule(id@, trigger@),
    {
        let rule = Rule {
            id: id.to_owned(),
            scope: RuleScope::Local,
            trigger: FactEventId::new(trigger),
            condition: RuleCondition::Always,
            condition_expressions: Vec::new(),
            modifications: Vec::new(),
            outputs: Vec::new(),
            enabled: true,
            priority: 0,
            consume_event: true,
        };
        assert(rule@.condition_expressions =~= Seq::empty());
        assert(rule@.modifications =~= Seq::empty());
        assert(rule@.outputs =~= Seq::empty());
        RuleBuilder { rule }
    }

    /// Sets the scope.
    pub fn scope(self, scope: RuleScope) -> (r: RuleBuilder)
        ensures
            r@ == (RuleData { scope, ..self@ }),
    {
        let mut out = self;
        out.rule.scope = scope;
        out
    }

    /// Sets the structured condition.
    pub fn condition(self, condition: RuleCondition) -> (r: RuleBuilder)
        ensures
            r@ == (RuleData { condition: condition@, ..self@ }),
    {
        let mut out = self;
        out.rule.condition = condition;
        out
    }

    /// Adds a condition expression after those already there.
    pub fn condition_expr(self, expr: &str) -> (r: RuleBuilder)
        ensures
            r@ == (RuleData {
                condition_expressions: self@.condition_expressions.push(expr@),
                ..self@
            }),
    {
        let mut out = self;
        out.rule.condition_expressions.push(expr.to_owned());
        assert(out@.condition_expressions =~= self@.condition_expressions.push(expr@));
        out
    }

    /// Adds a modification after those already there.
    pub fn modify(self, modification: FactModification) -> (r: RuleBuilder)
        ensures
            r@ == (RuleData { modifications: self@.modifications.push(modification@), ..self@ }),
    {
        let mut out = self;
        out.rule.modifications.push(modification);
        assert(out@.modifications =~= self@.modifications.push(modification@));
        out
    }

    /// Adds an output event after those already there.
    pub fn output(self, event_id: &str) -> (r: RuleBuilder)
        ensures
            r@ == (RuleData { outputs: self@.outputs.push(event_id@), ..self@ }),
    {
        let mut out = self;
        out.rule.outputs.push(FactEventId::new(event_id));
        assert(out@.outputs =~= self@.outputs.push(event_id@));
        out
    }

    /// Sets the priority.
    pub fn priority(self, priority: i32) -> (r: RuleBuilder)
        ensures
            r@ == (RuleData { priority, ..self@ }),
    {
        let mut out = self;
        out.rule.priority = priority;
        out
    }

    /// Sets whether the rule is enabled.
    pub fn enabled(self, enabled: bool) -> (r: RuleBuilder)
        ensures
            r@ == (RuleData { enabled, ..self@ }),
    {
        let mut out = self;
        out.rule.enabled = enabled;
        out
    }

    /// Sets whether the rule consumes its event.
    pub fn consume_event(self, consume: bool) -> (r: RuleBuilder)
        ensures
            r@ == (RuleData { consume_event: consume, ..self@ }),
    {
        let mut out = self;
        out.rule.consume_event = consume;
        out
    }

    /// The rule.
    pub fn build(self) -> (r: Rule)
        ensures
            r@ == self@,
    {
        self.rule
    }
}

} // verus!
