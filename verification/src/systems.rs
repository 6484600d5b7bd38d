//! The processing loop: for each event of a tick, the rules that answer it
//! are tried in order; a rule whose conditions hold changes the facts and
//! stages its output events for the next tick.

use vstd::prelude::*;
use crate::event::{plain_event, EventData, FactEvent};
use crate::layered::LayeredFactDatabase;
use crate::matching::{matching_rules, ref_views};
use crate::rule::{apply_all, ModData, Rule, RuleData};
use crate::scoped::LayeredRuleRegistry;
use crate::value::{texts, FactData};

verus! {

/// The staged events and the record of who staged what, as mathematics.
pub struct PendingData {
    /// The events staged for the next tick, oldest first.
    pub events: Seq<EventData>,
    /// The pairs of rule name and event identifier that were staged since
    /// the record was last cleared.
    pub emitted: Set<(Seq<char>, Seq<char>)>,
}

impl PendingData {
    /// Whether staging this event for this rule adds it: it does unless the
    /// rule has staged an event with this identifier before.
    pub open spec fn admits(self, rule_id: Seq<char>, event_id: Seq<char>) -> bool {
        !self.emitted.contains((rule_id, event_id))
    }

    /// The staged events after this rule stages this event.
    pub open spec fn staged(self, rule_id: Seq<char>, event: EventData) -> PendingData {
        if self.admits(rule_id, event.id) {
            PendingData {
                events: self.events.push(event),
                emitted: self.emitted.insert((rule_id, event.id)),
            }
        } else {
            self
        }
    }

    /// The staged events after a rule stages its outputs, in order.
    pub open spec fn staged_all(self, rule_id: Seq<char>, outputs: Seq<Seq<char>>) -> PendingData
        decreases outputs.len(),
    {
        if outputs.len() == 0 {
            self
        } else {
            self.staged_all(rule_id, outputs.drop_last()).staged(
                rule_id,
                plain_event(outputs.last()),
            )
        }
    }
}

/// The events of a list, as mathematics.
pub open spec fn event_views(list: Seq<FactEvent>) -> Seq<EventData> {
    Seq::new(list.len(), |i: int| list[i]@)
}

/// The pairs of a list, as a set of pairs of texts.
pub open spec fn pair_set(list: Seq<(String, String)>) -> Set<(Seq<char>, Seq<char>)> {
    Set::new(
        |p: (Seq<char>, Seq<char>)|
            exists|i: int| 0 <= i < list.len() && list[i].0@ == p.0 && list[i].1@ == p.1,
    )
}

/// The events that rules have emitted and that wait for the next tick. One
/// rule stages one event identifier once between two clearings of the
/// record.
#[derive(Debug)]
pub struct PendingFactEvents {
    /// The staged events, oldest first.
    pub events: Vec<FactEvent>,
    emitted_by_rule: Vec<(String, String)>,
}

impl View for PendingFactEvents {
    type V = PendingData;

    closed spec fn view(&self) -> PendingData {
        PendingData {
            events: event_views(self.events@),
            emitted: pair_set(self.emitted_by_rule@),
        }
    }
}

impl PendingFactEvents {
    /// No staged events and an empty record.
    pub fn new() -> (r: PendingFactEvents)
        ensures
            r@.events == Seq::<EventData>::empty(),
            r@.emitted == Set::<(Seq<char>, Seq<char>)>::empty(),
    {
        let r = PendingFactEvents { events: Vec::new(), emitted_by_rule: Vec::new() };
        assert(r@.events =~= Seq::<EventData>::empty());
        assert(r@.emitted =~= Set::<(Seq<char>, Seq<char>)>::empty());
        r
    }

    /// Whether the rule has staged an event with this identifier.
    fn has_emitted(&self, rule_id: &str, event_id: &str) -> (r: bool)
        ensures
            r == self@.emitted.contains((rule_id@, event_id@)),
    {
        let mut i: usize = 0;
        while i < self.emitted_by_rule.len()
            invariant
                i <= self.emitted_by_rule.len(),
                forall|j: int|
                    0 <= j < i ==> !(self.emitted_by_rule[j].0@ == rule_id@
                        && self.emitted_by_rule[j].1@ == event_id@),
            decreases self.emitted_by_rule.len() - i,
        {
            if *self.emitted_by_rule[i].0.as_str() == *rule_id
                && *self.emitted_by_rule[i].1.as_str() == *event_id {
                return true;
            }
            i += 1;
        }
        false
    }

    /// Stages an event that a rule emits. Returns whether it was staged: it
    /// is not where the rule has staged an event with this identifier since
    /// the record was last cleared.
    pub fn queue_output(&mut self, rule_id: &str, event: FactEvent) -> (r: bool)
        ensures
            r == old(self)@.admits(rule_id@, event.id@),
            final(self)@ == old(self)@.staged(rule_id@, event@),
    {
        if self.has_emitted(rule_id, event.id.0.as_str()) {
            return false;
        }
        let ghost before = self.emitted_by_rule@;
        self.emitted_by_rule.push((rule_id.to_owned(), event.id.0.clone()));
        self.events.push(event);
        proof {
            let after = self.emitted_by_rule@;
            assert(after[before.len() as int].0@ == rule_id@);
            assert forall|p: (Seq<char>, Seq<char>)|
                pair_set(after).contains(p) == pair_set(before).insert(
                    (rule_id@, event.id@),
                ).contains(p) by {
                if pair_set(before).contains(p) {
                    let i = choose|i: int|
                        0 <= i < before.len() && before[i].0@ == p.0 && before[i].1@ == p.1;
                    assert(after[i] == before[i]);
                }
                if pair_set(after).contains(p) {
                    let i = choose|i: int|
                        0 <= i < after.len() && after[i].0@ == p.0 && after[i].1@ == p.1;
                    if i < before.len() {
                        assert(after[i] == before[i]);
                    }
                }
                if p == (rule_id@, event.id@) {
                    assert(after[before.len() as int].0@ == p.0);
                }
            }
            assert(self@.emitted =~= old(self)@.emitted.insert((rule_id@, event.id@)));
            assert(self@.events =~= old(self)@.events.push(event@));
        }
        true
    }

    /// Clears the record of who staged what; the staged events stay.
    pub fn clear_tracking(&mut self)
        ensures
            final(self)@.events == old(self)@.events,
            final(self)@.emitted == Set::<(Seq<char>, Seq<char>)>::empty(),
    {
        self.emitted_by_rule = Vec::new();
        assert(self@.emitted =~= Set::<(Seq<char>, Seq<char>)>::empty());
    }
}

impl Default for PendingFactEvents {
    fn default() -> (r: PendingFactEvents)
        ensures
            r@.events == Seq::<EventData>::empty(),
            r@.emitted == Set::<(Seq<char>, Seq<char>)>::empty(),
    {
        PendingFactEvents::new()
    }
}

/// Decides whether the condition expressions of a rule hold. This is the
/// place where an application plugs in its own language of conditions.
pub trait ConditionEvaluatorTrait {
    /// Whether the expressions hold of the facts.
    fn evaluate(&self, conditions: &[String], facts: &LayeredFactDatabase) -> bool;
}

/// The evaluator that lets every rule fire.
pub struct DefaultConditionEvaluator;

impl ConditionEvaluatorTrait for DefaultConditionEvaluator {
    fn evaluate(&self, conditions: &[String], facts: &LayeredFactDatabase) -> (r: bool)
        ensures
            r,
    {
        true
    }
}

/// The condition check of the processing loop: a rule without condition
/// expressions fires always; for one with expressions the evaluator decides.
pub struct ConditionEvaluator<E: ConditionEvaluatorTrait> {
    evaluator: E,
}

impl<E: ConditionEvaluatorTrait> ConditionEvaluator<E> {
    /// The evaluator that decides for rules with expressions.
    pub closed spec fn inner(&self) -> E {
        self.evaluator
    }

    /// Whether `fired` is what this check decides for a rule with these
    /// condition expressions on these facts: a rule without expressions
    /// fires; for any other rule it is what the evaluator answers when it is
    /// asked with the rule's expressions and these two layers of facts.
    pub open spec fn decides(
        &self,
        conditions: Seq<Seq<char>>,
        local: Map<Seq<char>, FactData>,
        global: Map<Seq<char>, FactData>,
        fired: bool,
    ) -> bool {
        if conditions.len() == 0 {
            fired
        } else {
            exists|asked: &[String], facts: &LayeredFactDatabase|
                texts(asked@) == conditions && facts.local_view() == local && facts.global_view()
                    == global && #[trigger] call_ensures(
                    E::evaluate,
                    (&self.inner(), asked, facts),
                    fired,
                )
        }
    }

    /// A condition check with this evaluator.
    pub fn new(evaluator: E) -> (r: Self)
        ensures
            r.inner() == evaluator,
    {
        ConditionEvaluator { evaluator }
    }

    /// Whether the rule fires on these facts. A rule without condition
    /// expressions does; for any other rule the evaluator is asked, with
    /// the rule's expressions and these facts.
    pub fn evaluate(&self, rule: &Rule, facts: &LayeredFactDatabase) -> (r: bool)
        ensures
            self.decides(rule@.condition_expressions, facts.local_view(), facts.global_view(), r),
    {
        if rule.condition_expressions.len() == 0 {
            return true;
        }
        let conditions = rule.condition_expressions.as_slice();
        let r = self.evaluator.evaluate(conditions, facts);
        assert(texts(conditions@) == rule@.condition_expressions && facts.local_view()
            == facts.local_view() && call_ensures(
            E::evaluate,
            (&self.inner(), conditions, facts),
            r,
        ));
        r
    }
}

impl Default for ConditionEvaluator<DefaultConditionEvaluator> {
    fn default() -> (r: Self)
        ensures
            r.inner() == DefaultConditionEvaluator,
    {
        ConditionEvaluator { evaluator: DefaultConditionEvaluator }
    }
}

} // verus!

verus! {

/// What a tick changes: the local layer of facts and the staged events.
pub struct TickState {
    pub local: Map<Seq<char>, FactData>,
    pub pending: PendingData,
}

/// The state after a rule fires: its modifications are applied in order to
/// the local layer, then its outputs are staged in order.
pub open spec fn fired(
    rule: RuleData,
    state: TickState,
    global: Map<Seq<char>, FactData>,
) -> TickState {
    TickState {
        local: apply_all(rule.modifications, state.local, global),
        pending: state.pending.staged_all(rule.id, rule.outputs),
    }
}

/// What became of one rule that was tried, as mathematics.
pub struct VerdictData {
    pub rule_id: Seq<char>,
    pub fired: bool,
}

/// What became of one rule that was tried for an event: whether its
/// conditions passed, so that it fired.
#[derive(Debug, Clone, PartialEq, Eq)]
pub struct Verdict {
    /// The name of the rule.
    pub rule_id: String,
    /// Whether the rule fired.
    pub fired: bool,
}

impl View for Verdict {
    type V = VerdictData;

    open spec fn view(&self) -> VerdictData {
        VerdictData { rule_id: self.rule_id@, fired: self.fired }
    }
}

/// The verdicts of a list, as mathematics.
pub open spec fn verdict_views(list: Seq<Verdict>) -> Seq<VerdictData> {
    Seq::new(list.len(), |i: int| list[i]@)
}

/// The verdicts of the events of a tick, as mathematics.
pub open spec fn tick_views(list: Seq<Vec<Verdict>>) -> Seq<Seq<VerdictData>> {
    Seq::new(list.len(), |i: int| verdict_views(list[i]@))
}

/// Whether the verdicts are those of the rules, tried in order from the
/// first: each verdict names its rule, a rule without condition expressions
/// fires, and no rule is tried behind one that fired and consumes the
/// event.
pub open spec fn tried_in_order(rules: Seq<RuleData>, verdicts: Seq<VerdictData>) -> bool {
    &&& verdicts.len() <= rules.len()
    &&& forall|k: int|
        0 <= k < verdicts.len() ==> (#[trigger] verdicts[k]).rule_id == rules[k].id
    &&& forall|k: int|
        0 <= k < verdicts.len() && rules[k].condition_expressions.len() == 0
            ==> (#[trigger] verdicts[k]).fired
    &&& forall|k: int|
        0 <= k < verdicts.len() - 1 ==> !((#[trigger] verdicts[k]).fired
            && rules[k].consume_event)
}

/// Whether the trying went as far as it goes: to the last rule, or to a
/// rule that fired and consumes the event.
pub open spec fn tried_to_the_end(rules: Seq<RuleData>, verdicts: Seq<VerdictData>) -> bool {
    verdicts.len() == rules.len() || (0 < verdicts.len() <= rules.len()
        && verdicts.last().fired && rules[verdicts.len() - 1].consume_event)
}

/// The state after the rules were tried with these verdicts: each rule
/// that fired has changed the state, in order, on the state as the rules
/// before it left it.
pub open spec fn outcome(
    rules: Seq<RuleData>,
    state: TickState,
    global: Map<Seq<char>, FactData>,
    verdicts: Seq<VerdictData>,
) -> TickState
    decreases verdicts.len(),
{
    if verdicts.len() == 0 {
        state
    } else {
        let before = outcome(rules, state, global, verdicts.drop_last());
        if verdicts.len() <= rules.len() && verdicts.last().fired {
            fired(rules[verdicts.len() - 1], before, global)
        } else {
            before
        }
    }
}

/// Whether each verdict is what the condition check decides for its rule
/// on the facts as the rules tried before it left them.
pub open spec fn decided_in_turn<E: ConditionEvaluatorTrait>(
    check: ConditionEvaluator<E>,
    rules: Seq<RuleData>,
    state: TickState,
    global: Map<Seq<char>, FactData>,
    verdicts: Seq<VerdictData>,
) -> bool {
    forall|k: int|
        0 <= k < verdicts.len() && k < rules.len() ==> check.decides(
            rules[k].condition_expressions,
            outcome(rules, state, global, verdicts.take(k)).local,
            global,
            (#[trigger] verdicts[k]).fired,
        )
}

/// The state after the events of a tick were handled, first in, first out,
/// each by the rules that answer it, with these verdicts.
pub open spec fn tick_outcome(
    rules: Seq<RuleData>,
    events: Seq<EventData>,
    state: TickState,
    global: Map<Seq<char>, FactData>,
    verdicts: Seq<Seq<VerdictData>>,
) -> TickState
    decreases events.len(),
{
    if events.len() == 0 || verdicts.len() != events.len() {
        state
    } else {
        outcome(
            matching_rules(rules, events.last().id),
            tick_outcome(rules, events.drop_last(), state, global, verdicts.drop_last()),
            global,
            verdicts.last(),
        )
    }
}

/// Whether the verdicts of a tick are one list for each event, each the
/// verdicts of the rules that answer the event, tried in order to the end
/// and decided in turn on the state as the events before left it.
pub open spec fn tick_tried<E: ConditionEvaluatorTrait>(
    check: ConditionEvaluator<E>,
    rules: Seq<RuleData>,
    events: Seq<EventData>,
    state: TickState,
    global: Map<Seq<char>, FactData>,
    verdicts: Seq<Seq<VerdictData>>,
) -> bool {
    &&& verdicts.len() == events.len()
    &&& forall|i: int|
        0 <= i < events.len() ==> tried_in_order(
            matching_rules(rules, events[i].id),
            #[trigger] verdicts[i],
        ) && tried_to_the_end(matching_rules(rules, events[i].id), verdicts[i])
            && decided_in_turn(
            check,
            matching_rules(rules, events[i].id),
            tick_outcome(rules, events.take(i), state, global, verdicts.take(i)),
            global,
            verdicts[i],
        )
}

/// Fires a rule: applies its modifications to the local layer, in order,
/// then stages its outputs, in order.
pub fn fire_rule(rule: &Rule, db: &mut LayeredFactDatabase, pending: &mut PendingFactEvents)
    ensures
        final(db).global_view() == old(db).global_view(),
        (TickState { local: final(db).local_view(), pending: final(pending)@ }) == fired(
            rule@,
            TickState { local: old(db).local_view(), pending: old(pending)@ },
            old(db).global_view(),
        ),
{
    let ghost global = db.global_view();
    let ghost local = db.local_view();
    let ghost mods = rule@.modifications;
    let mut i: usize = 0;
    assert(mods.take(0) =~= Seq::<ModData>::empty());
    while i < rule.modifications.len()
        invariant
            i <= rule.modifications.len(),
            mods == rule@.modifications,
            db.global_view() == global,
            db.local_view() == apply_all(mods.take(i as int), local, global),
        decreases rule.modifications.len() - i,
    {
        assert(mods.take(i + 1).drop_last() =~= mods.take(i as int));
        assert(mods.take(i + 1).last() == rule.modifications[i as int]@);
        rule.modifications[i].apply(db);
        i += 1;
    }
    assert(mods.take(i as int) =~= mods);
    let ghost outputs = rule@.outputs;
    let ghost start = pending@;
    let mut j: usize = 0;
    assert(outputs.take(0) =~= Seq::<Seq<char>>::empty());
    while j < rule.outputs.len()
        invariant
            j <= rule.outputs.len(),
            outputs == rule@.outputs,
            pending@ == start.staged_all(rule@.id, outputs.take(j as int)),
        decreases rule.outputs.len() - j,
    {
        assert(outputs.take(j + 1).drop_last() =~= outputs.take(j as int));
        assert(outputs.take(j + 1).last() == rule.outputs[j as int]@);
        let _ = pending.queue_output(rule.id.as_str(), FactEvent::new(rule.outputs[j].0.as_str()));
        j += 1;
    }
    assert(outputs.take(j as int) =~= outputs);
}

/// Acts on the verdict for one rule: a rule whose conditions passed fires,
/// any other changes nothing. Returns whether the event is consumed: it is
/// if the rule fired and consumes its event.
pub fn apply_verdict(
    rule: &Rule,
    passed: bool,
    db: &mut LayeredFactDatabase,
    pending: &mut PendingFactEvents,
) -> (consumed: bool)
    ensures
        consumed == (passed && rule@.consume_event),
        final(db).global_view() == old(db).global_view(),
        (TickState { local: final(db).local_view(), pending: final(pending)@ }) == if passed {
            fired(
                rule@,
                TickState { local: old(db).local_view(), pending: old(pending)@ },
                old(db).global_view(),
            )
        } else {
            TickState { local: old(db).local_view(), pending: old(pending)@ }
        },
{
    if passed {
        fire_rule(rule, db, pending);
        rule.consume_event
    } else {
        false
    }
}

/// Handles one event: the rules of every scope that answer it are tried in
/// order, the highest priority first. A rule without condition expressions
/// fires; for any other the evaluator decides. After a rule that fired and
/// consumes the event no further rule is tried. Returns the verdicts, one
/// for each rule tried, in order.
pub fn process_event<E: ConditionEvaluatorTrait>(
    event: &FactEvent,
    db: &mut LayeredFactDatabase,
    registry: &LayeredRuleRegistry,
    pending: &mut PendingFactEvents,
    check: &ConditionEvaluator<E>,
) -> (verdicts: Vec<Verdict>)
    ensures
        final(db).global_view() == old(db).global_view(),
        tried_in_order(
            matching_rules(registry@.all_rules(), event.id@),
            verdict_views(verdicts@),
        ),
        tried_to_the_end(
            matching_rules(registry@.all_rules(), event.id@),
            verdict_views(verdicts@),
        ),
        decided_in_turn(
            *check,
            matching_rules(registry@.all_rules(), event.id@),
            TickState { local: old(db).local_view(), pending: old(pending)@ },
            old(db).global_view(),
            verdict_views(verdicts@),
        ),
        (TickState { local: final(db).local_view(), pending: final(pending)@ }) == outcome(
            matching_rules(registry@.all_rules(), event.id@),
            TickState { local: old(db).local_view(), pending: old(pending)@ },
            old(db).global_view(),
            verdict_views(verdicts@),
        ),
{
    let rules = registry.get_matching_rules(event);
    let ghost all = ref_views(rules@);
    let ghost global = db.global_view();
    let ghost start = TickState { local: db.local_view(), pending: pending@ };
    let mut verdicts: Vec<Verdict> = Vec::new();
    let mut consumed = false;
    let mut k: usize = 0;
    assert(verdict_views(verdicts@) =~= Seq::<VerdictData>::empty());
    while k < rules.len() && !consumed
        invariant
            k <= rules.len(),
            verdicts.len() == k,
            all == ref_views(rules@),
            db.global_view() == global,
            tried_in_order(all, verdict_views(verdicts@)),
            decided_in_turn(*check, all, start, global, verdict_views(verdicts@)),
            consumed ==> k > 0 && verdicts[k - 1].fired && all[k - 1].consume_event,
            !consumed ==> forall|j: int|
                0 <= j < k ==> !((#[trigger] verdict_views(verdicts@)[j]).fired
                    && all[j].consume_event),
            (TickState { local: db.local_view(), pending: pending@ }) == outcome(
                all,
                start,
                global,
                verdict_views(verdicts@),
            ),
        decreases rules.len() - k,
    {
        let rule: &Rule = rules[k];
        assert(all[k as int] == rule@);
        let ghost before = verdict_views(verdicts@);
        let passed = check.evaluate(rule, db);
        consumed = apply_verdict(rule, passed, db, pending);
        verdicts.push(Verdict { rule_id: rule.id.clone(), fired: passed });
        proof {
            let after = verdict_views(verdicts@);
            assert(after =~= before.push(VerdictData { rule_id: rule@.id, fired: passed }));
            assert(after.drop_last() =~= before);
            assert forall|j: int| 0 <= j < after.len() && j < all.len() implies check.decides(
                all[j].condition_expressions,
                outcome(all, start, global, after.take(j)).local,
                global,
                (#[trigger] after[j]).fired,
            ) by {
                if j < before.len() {
                    assert(after[j] == before[j]);
                    assert(after.take(j) =~= before.take(j));
                } else {
                    assert(after.take(j) =~= before);
                }
            }
            assert forall|j: int| 0 <= j < after.len() implies (#[trigger] after[j]).rule_id
                == all[j].id by {
                if j < before.len() {
                    assert(after[j] == before[j]);
                }
            }
            assert forall|j: int|
                0 <= j < after.len() && all[j].condition_expressions.len() == 0 implies (
            #[trigger] after[j]).fired by {
                if j < before.len() {
                    assert(after[j] == before[j]);
                }
            }
            assert forall|j: int| 0 <= j < after.len() - 1 implies !((#[trigger] after[j]).fired
                && all[j].consume_event) by {
                assert(after[j] == before[j]);
            }
            if !consumed {
                assert forall|j: int| 0 <= j < after.len() implies !((#[trigger] after[j]).fired
                    && all[j].consume_event) by {
                    if j < before.len() {
                        assert(after[j] == before[j]);
                    }
                }
            }
        }
        k += 1;
    }
    verdicts
}

/// Handles the events of one tick, first in, first out. Changes that a rule
/// makes to the facts are seen by every rule tried after it. Returns the
/// verdicts of each event.
pub fn process_rules_system<E: ConditionEvaluatorTrait>(
    events: &Vec<FactEvent>,
    db: &mut LayeredFactDatabase,
    registry: &LayeredRuleRegistry,
    pending: &mut PendingFactEvents,
    check: &ConditionEvaluator<E>,
) -> (verdicts: Vec<Vec<Verdict>>)
    ensures
        final(db).global_view() == old(db).global_view(),
        tick_tried(
            *check,
            registry@.all_rules(),
            event_views(events@),
            TickState { local: old(db).local_view(), pending: old(pending)@ },
            old(db).global_view(),
            tick_views(verdicts@),
        ),
        (TickState { local: final(db).local_view(), pending: final(pending)@ }) == tick_outcome(
            registry@.all_rules(),
            event_views(events@),
            TickState { local: old(db).local_view(), pending: old(pending)@ },
            old(db).global_view(),
            tick_views(verdicts@),
        ),
{
    let ghost global = db.global_view();
    let ghost start = TickState { local: db.local_view(), pending: pending@ };
    let ghost all = event_views(events@);
    let ghost rules = registry@.all_rules();
    let mut verdicts: Vec<Vec<Verdict>> = Vec::new();
    let mut i: usize = 0;
    assert(all.take(0) =~= Seq::<EventData>::empty());
    assert(tick_views(verdicts@) =~= Seq::<Seq<VerdictData>>::empty());
    while i < events.len()
        invariant
            i <= events.len(),
            verdicts.len() == i,
            all == event_views(events@),
            rules == registry@.all_rules(),
            db.global_view() == global,
            tick_tried(*check, rules, all.take(i as int), start, global, tick_views(verdicts@)),
            (TickState { local: db.local_view(), pending: pending@ }) == tick_outcome(
                rules,
                all.take(i as int),
                start,
                global,
                tick_views(verdicts@),
            ),
        decreases events.len() - i,
    {
        let ghost before = tick_views(verdicts@);
        let one = process_event(&events[i], db, registry, pending, check);
        let ghost added = verdict_views(one@);
        verdicts.push(one);
        proof {
            let after = tick_views(verdicts@);
            let next = all.take(i + 1);
            assert(after =~= before.push(added));
            assert(after.drop_last() =~= before);
            assert(next.drop_last() =~= all.take(i as int));
            assert(next.last() == events[i as int]@);
            assert forall|j: int| 0 <= j < next.len() implies tried_in_order(
                matching_rules(rules, next[j].id),
                #[trigger] after[j],
            ) && tried_to_the_end(matching_rules(rules, next[j].id), after[j])
                && decided_in_turn(
                *check,
                matching_rules(rules, next[j].id),
                tick_outcome(rules, next.take(j), start, global, after.take(j)),
                global,
                after[j],
            ) by {
                if j < i {
                    assert(after[j] == before[j]);
                    assert(next[j] == all.take(i as int)[j]);
                    assert(next.take(j) =~= all.take(i as int).take(j));
                    assert(after.take(j) =~= before.take(j));
                } else {
                    assert(next.take(j) =~= all.take(i as int));
                    assert(after.take(j) =~= before);
                }
            }
        }
        i += 1;
    }
    assert(all.take(i as int) =~= all);
    verdicts
}

/// Hands out the events that were staged in the last tick, oldest first,
/// and clears the record of who staged what. They are the next tick's
/// input.
pub fn emit_pending_events_system(pending: &mut PendingFactEvents) -> (r: Vec<FactEvent>)
    ensures
        event_views(r@) == old(pending)@.events,
        final(pending)@.events == Seq::<EventData>::empty(),
        final(pending)@.emitted == Set::<(Seq<char>, Seq<char>)>::empty(),
{
    let mut out: Vec<FactEvent> = Vec::new();
    core::mem::swap(&mut pending.events, &mut out);
    pending.clear_tracking();
    assert(pending@.events =~= Seq::<EventData>::empty());
    out
}

/// Whether there are events to handle.
pub fn has_fact_events(events: &Vec<FactEvent>) -> (r: bool)
    ensures
        r == (events@.len() > 0),
{
    events.len() > 0
}

/// A rule that fires and consumes its event ends the handling of the
/// event: no rule that stands behind it, in its own group or in a group of
/// lower priority, is tried.
pub proof fn law_consuming_rule_ends_event(
    rules: Seq<RuleData>,
    verdicts: Seq<VerdictData>,
    k: int,
)
    requires
        tried_in_order(rules, verdicts),
        0 <= k < verdicts.len(),
        verdicts[k].fired,
        rules[k].consume_event,
    ensures
        verdicts.len() == k + 1,
        tried_to_the_end(rules, verdicts),
{
}

/// A rule that does not consume the event, or does not fire, lets the rule
/// behind it be tried, on the facts as it left them.
pub proof fn law_unconsumed_event_goes_on(
    rules: Seq<RuleData>,
    verdicts: Seq<VerdictData>,
    k: int,
)
    requires
        tried_in_order(rules, verdicts),
        tried_to_the_end(rules, verdicts),
        0 <= k < verdicts.len(),
        k + 1 < rules.len(),
        !(verdicts[k].fired && rules[k].consume_event),
    ensures
        k + 1 < verdicts.len(),
        verdicts[k + 1].rule_id == rules[k + 1].id,
{
}

/// A rule that does not fire changes nothing.
pub proof fn law_failed_conditions_change_nothing(
    rules: Seq<RuleData>,
    state: TickState,
    global: Map<Seq<char>, FactData>,
    verdicts: Seq<VerdictData>,
    verdict: VerdictData,
)
    requires
        !verdict.fired,
    ensures
        outcome(rules, state, global, verdicts.push(verdict)) == outcome(
            rules,
            state,
            global,
            verdicts,
        ),
{
    assert(verdicts.push(verdict).drop_last() =~= verdicts);
}

/// One rule stages one event identifier once: staging it again before the
/// record is cleared changes nothing. Two different rules that emit the
/// same event each stage one.
pub proof fn law_staging_is_per_rule(
    pending: PendingData,
    rule_id: Seq<char>,
    other_id: Seq<char>,
    event: EventData,
)
    requires
        rule_id != other_id,
    ensures
        pending.staged(rule_id, event).staged(rule_id, event) == pending.staged(rule_id, event),
        pending.admits(rule_id, event.id) && pending.admits(other_id, event.id) ==> pending.staged(
            rule_id,
            event,
        ).staged(other_id, event).events == pending.events.push(event).push(event),
{
}

/// With the default evaluator every rule that is tried fires, whatever its
/// condition expressions are.
pub proof fn law_default_check_fires(
    check: ConditionEvaluator<DefaultConditionEvaluator>,
    conditions: Seq<Seq<char>>,
    local: Map<Seq<char>, FactData>,
    global: Map<Seq<char>, FactData>,
    fired: bool,
)
    requires
        check.decides(conditions, local, global, fired),
    ensures
        fired,
{
}

} // verus!
