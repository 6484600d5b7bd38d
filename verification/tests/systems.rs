use fact_rule_event::systems::{
    apply_verdict, emit_pending_events_system, fire_rule, has_fact_events, process_event,
    process_rules_system,
};
use fact_rule_event::{
    ConditionEvaluator, ConditionEvaluatorTrait, DefaultConditionEvaluator, FactEvent,
    FactModification, FactValue, LayeredFactDatabase, LayeredRuleRegistry, PendingFactEvents,
    Rule, RuleRegistry, RuleScope, Verdict,
};

#[test]
fn test_rule_registry_matching() {
    let mut registry = RuleRegistry::new();

    let rule1 = Rule::builder("rule1", "event_a").build();
    let rule2 = Rule::builder("rule2", "event_b").build();

    registry.register(rule1);
    registry.register(rule2);

    let event_a = FactEvent::new("event_a");
    let matching = registry.get_matching_rules(&event_a);

    assert_eq!(matching.len(), 1);
    assert_eq!(matching[0].id, "rule1");
}

#[test]
fn test_fact_modification_apply() {
    let mut db = LayeredFactDatabase::new();

    FactModification::Assign("counter".to_string(), FactValue::Int(0)).apply(&mut db);
    assert_eq!(db.get_int("counter"), Some(0));

    FactModification::Increment("counter".to_string(), 5).apply(&mut db);
    assert_eq!(db.get_int("counter"), Some(5));

    FactModification::Toggle("flag".to_string()).apply(&mut db);
    assert_eq!(db.get_bool("flag"), Some(true));

    FactModification::Toggle("flag".to_string()).apply(&mut db);
    assert_eq!(db.get_bool("flag"), Some(false));
}

/// Accepts a list of conditions of the form `name`, each of which holds if
/// the fact of that name is the boolean `true`.
struct FlagEvaluator;

impl ConditionEvaluatorTrait for FlagEvaluator {
    fn evaluate(&self, conditions: &[String], facts: &LayeredFactDatabase) -> bool {
        conditions.iter().all(|c| facts.get_bool(c) == Some(true))
    }
}

fn staged_ids(pending: &PendingFactEvents) -> Vec<String> {
    pending.events.iter().map(|e| e.id.0.clone()).collect()
}

fn marks(id: &str, trigger: &str) -> fact_rule_event::RuleBuilder {
    Rule::builder(id, trigger).modify(FactModification::Increment(id.to_string(), 1))
}

#[test]
fn consuming_rule_stops_lower_groups() {
    let mut registry = LayeredRuleRegistry::new();
    registry.register(marks("high", "e").priority(10).build());
    registry.register(marks("low", "e").priority(5).build());
    let mut db = LayeredFactDatabase::new();
    let mut pending = PendingFactEvents::new();
    let check = ConditionEvaluator::default();
    let verdicts = process_event(&FactEvent::new("e"), &mut db, &registry, &mut pending, &check);
    assert_eq!(db.get_int("high"), Some(1));
    assert_eq!(db.get_int("low"), None);
    assert_eq!(verdicts, vec![Verdict { rule_id: "high".to_string(), fired: true }]);
}

#[test]
fn consuming_rule_stops_the_rest_of_its_group() {
    let mut registry = LayeredRuleRegistry::new();
    registry.register(marks("first", "e").build());
    registry.register(marks("second", "e").build());
    let mut db = LayeredFactDatabase::new();
    let mut pending = PendingFactEvents::new();
    let check = ConditionEvaluator::default();
    process_event(&FactEvent::new("e"), &mut db, &registry, &mut pending, &check);
    assert_eq!(db.get_int("first"), Some(1));
    assert_eq!(db.get_int("second"), None);
}

#[test]
fn rule_that_does_not_consume_lets_the_next_fire() {
    let mut registry = LayeredRuleRegistry::new();
    registry.register(marks("first", "e").consume_event(false).build());
    registry.register(marks("second", "e").build());
    registry.register(marks("third", "e").build());
    registry.register(marks("lower", "e").priority(-1).build());
    let mut db = LayeredFactDatabase::new();
    let mut pending = PendingFactEvents::new();
    let check = ConditionEvaluator::default();
    process_event(&FactEvent::new("e"), &mut db, &registry, &mut pending, &check);
    assert_eq!(db.get_int("first"), Some(1));
    assert_eq!(db.get_int("second"), Some(1));
    assert_eq!(db.get_int("third"), None);
    assert_eq!(db.get_int("lower"), None);
}

#[test]
fn unconsumed_event_reaches_lower_groups() {
    let mut registry = LayeredRuleRegistry::new();
    registry.register(marks("high", "e").priority(1).consume_event(false).build());
    registry.register(marks("low", "e").build());
    let mut db = LayeredFactDatabase::new();
    let mut pending = PendingFactEvents::new();
    let check = ConditionEvaluator::default();
    process_event(&FactEvent::new("e"), &mut db, &registry, &mut pending, &check);
    assert_eq!(db.get_int("high"), Some(1));
    assert_eq!(db.get_int("low"), Some(1));
}

#[test]
fn failed_condition_lets_lower_rules_fire() {
    let mut registry = LayeredRuleRegistry::new();
    registry.register(marks("guarded", "e").priority(10).condition_expr("open").build());
    registry.register(marks("fallback", "e").build());
    let mut db = LayeredFactDatabase::new();
    let mut pending = PendingFactEvents::new();
    let check = ConditionEvaluator::new(FlagEvaluator);
    let verdicts = process_event(&FactEvent::new("e"), &mut db, &registry, &mut pending, &check);
    assert_eq!(db.get_int("guarded"), None);
    assert_eq!(db.get_int("fallback"), Some(1));
    assert_eq!(
        verdicts,
        vec![
            Verdict { rule_id: "guarded".to_string(), fired: false },
            Verdict { rule_id: "fallback".to_string(), fired: true },
        ]
    );
    db.set("open", true.into());
    process_event(&FactEvent::new("e"), &mut db, &registry, &mut pending, &check);
    assert_eq!(db.get_int("guarded"), Some(1));
    assert_eq!(db.get_int("fallback"), Some(1));
}

#[test]
fn default_evaluator_lets_every_rule_fire() {
    let db = LayeredFactDatabase::new();
    let rule = Rule::builder("r", "e").condition_expr("anything at all").build();
    assert!(ConditionEvaluator::default().evaluate(&rule, &db));
    assert!(DefaultConditionEvaluator.evaluate(&["x".to_string()], &db));
    let strict = ConditionEvaluator::new(FlagEvaluator);
    assert!(!strict.evaluate(&rule, &db));
    assert!(strict.evaluate(&Rule::builder("r", "e").build(), &db));
}

#[test]
fn later_rules_see_earlier_changes() {
    let mut registry = LayeredRuleRegistry::new();
    registry.register(
        Rule::builder("opener", "e")
            .priority(2)
            .consume_event(false)
            .modify(FactModification::Assign("open".to_string(), FactValue::Bool(true)))
            .build(),
    );
    registry.register(marks("guarded", "e").priority(1).condition_expr("open").build());
    let mut db = LayeredFactDatabase::new();
    let mut pending = PendingFactEvents::new();
    let check = ConditionEvaluator::new(FlagEvaluator);
    process_event(&FactEvent::new("e"), &mut db, &registry, &mut pending, &check);
    assert_eq!(db.get_int("guarded"), Some(1));
}

#[test]
fn one_rule_stages_one_event_once() {
    let mut pending = PendingFactEvents::new();
    assert!(pending.queue_output("r1", FactEvent::new("out")));
    assert!(!pending.queue_output("r1", FactEvent::new("out")));
    assert_eq!(staged_ids(&pending), vec!["out"]);
    assert!(pending.queue_output("r2", FactEvent::new("out")));
    assert_eq!(staged_ids(&pending), vec!["out", "out"]);
    assert!(pending.queue_output("r1", FactEvent::new("other")));
    assert_eq!(staged_ids(&pending), vec!["out", "out", "other"]);
}

#[test]
fn rule_and_event_names_with_colons_are_kept_apart() {
    let mut pending = PendingFactEvents::new();
    assert!(pending.queue_output("a:b", FactEvent::new("c")));
    assert!(pending.queue_output("a", FactEvent::new("b:c")));
    assert_eq!(staged_ids(&pending).len(), 2);
}

#[test]
fn clearing_the_record_lets_a_rule_stage_again() {
    let mut pending = PendingFactEvents::new();
    assert!(pending.queue_output("r", FactEvent::new("out")));
    pending.clear_tracking();
    assert_eq!(staged_ids(&pending), vec!["out"]);
    assert!(pending.queue_output("r", FactEvent::new("out")));
    assert_eq!(staged_ids(&pending), vec!["out", "out"]);
}

#[test]
fn firing_applies_modifications_then_stages_outputs() {
    let rule = Rule::builder("r", "e")
        .modify(FactModification::Assign("n".to_string(), FactValue::Int(1)))
        .modify(FactModification::Increment("n".to_string(), 2))
        .modify(FactModification::Toggle("t".to_string()))
        .modify(FactModification::Remove("gone".to_string()))
        .output("a")
        .output("b")
        .output("a")
        .build();
    let mut db = LayeredFactDatabase::new();
    db.set_global("gone", 1i64.into());
    db.set_local("gone", 2i64.into());
    let mut pending = PendingFactEvents::new();
    fire_rule(&rule, &mut db, &mut pending);
    assert_eq!(db.get_int("n"), Some(3));
    assert_eq!(db.get_bool("t"), Some(true));
    assert_eq!(db.get_int("gone"), Some(1));
    assert_eq!(staged_ids(&pending), vec!["a", "b"]);
}

#[test]
fn outputs_chain_into_the_next_tick() {
    let mut registry = LayeredRuleRegistry::new();
    registry.register(marks("start", "begin").output("middle").build());
    registry.register(
        marks("relay", "middle").scope(RuleScope::Global).output("end").output("end").build(),
    );
    registry.register(marks("finish", "end").build());
    let mut db = LayeredFactDatabase::new();
    let mut pending = PendingFactEvents::new();
    let check = ConditionEvaluator::default();

    let first = vec![FactEvent::new("begin")];
    assert!(has_fact_events(&first));
    process_rules_system(&first, &mut db, &registry, &mut pending, &check);
    assert_eq!(db.get_int("start"), Some(1));
    assert_eq!(db.get_int("relay"), None);

    let second = emit_pending_events_system(&mut pending);
    assert_eq!(second.len(), 1);
    assert_eq!(second[0].id.0, "middle");
    assert!(pending.events.is_empty());
    process_rules_system(&second, &mut db, &registry, &mut pending, &check);
    assert_eq!(db.get_int("relay"), Some(1));

    let third = emit_pending_events_system(&mut pending);
    assert_eq!(third.len(), 1);
    process_rules_system(&third, &mut db, &registry, &mut pending, &check);
    assert_eq!(db.get_int("finish"), Some(1));

    let fourth = emit_pending_events_system(&mut pending);
    assert!(!has_fact_events(&fourth));
}

#[test]
fn events_of_a_tick_are_handled_in_order() {
    let mut registry = LayeredRuleRegistry::new();
    registry.register(
        Rule::builder("set", "a")
            .modify(FactModification::Assign("n".to_string(), FactValue::Int(10)))
            .build(),
    );
    registry.register(
        Rule::builder("add", "b").modify(FactModification::Increment("n".to_string(), 1)).build(),
    );
    let check = ConditionEvaluator::default();
    let mut db = LayeredFactDatabase::new();
    let mut pending = PendingFactEvents::new();
    let events = vec![FactEvent::new("b"), FactEvent::new("a"), FactEvent::new("b")];
    let verdicts = process_rules_system(&events, &mut db, &registry, &mut pending, &check);
    assert_eq!(db.get_int("n"), Some(11));
    let tried: Vec<Vec<&str>> =
        verdicts.iter().map(|v| v.iter().map(|x| x.rule_id.as_str()).collect()).collect();
    assert_eq!(tried, vec![vec!["add"], vec!["set"], vec!["add"]]);
}

#[test]
fn same_output_in_one_tick_is_staged_once_per_rule() {
    let mut registry = LayeredRuleRegistry::new();
    registry.register(Rule::builder("r1", "e").consume_event(false).output("out").build());
    registry.register(Rule::builder("r2", "e").output("out").build());
    let check = ConditionEvaluator::default();
    let mut db = LayeredFactDatabase::new();
    let mut pending = PendingFactEvents::new();
    let events = vec![FactEvent::new("e"), FactEvent::new("e")];
    process_rules_system(&events, &mut db, &registry, &mut pending, &check);
    assert_eq!(staged_ids(&pending), vec!["out", "out"]);
}

#[test]
fn event_without_rules_changes_nothing() {
    let registry = LayeredRuleRegistry::new();
    let check = ConditionEvaluator::default();
    let mut db = LayeredFactDatabase::new();
    let mut pending = PendingFactEvents::new();
    process_event(&FactEvent::new("e"), &mut db, &registry, &mut pending, &check);
    assert!(db.is_empty());
    assert!(pending.events.is_empty());
}

#[test]
fn event_data_is_kept_by_key() {
    let event = FactEvent::with_entity("e", 42).with_data("a", "1").with_data("b", "2").with_data("a", "3");
    assert_eq!(event.entity, Some(42));
    assert_eq!(event.get_data("a").map(|s| s.as_str()), Some("3"));
    assert_eq!(event.get_data("b").map(|s| s.as_str()), Some("2"));
    assert_eq!(event.get_data("c"), None);
    let copy = event.clone();
    assert_eq!(copy.id, event.id);
    assert_eq!(copy.get_data("a").map(|s| s.as_str()), Some("3"));
    assert_eq!(FactEvent::new("x").entity, None);
}

#[test]
fn verdict_decides_what_a_rule_does() {
    let rule = marks("r", "e").output("out").build();
    let quiet = marks("q", "e").consume_event(false).build();
    let mut db = LayeredFactDatabase::new();
    let mut pending = PendingFactEvents::new();
    assert!(!apply_verdict(&rule, false, &mut db, &mut pending));
    assert!(db.is_empty());
    assert!(pending.events.is_empty());
    assert!(apply_verdict(&rule, true, &mut db, &mut pending));
    assert_eq!(db.get_int("r"), Some(1));
    assert_eq!(staged_ids(&pending), vec!["out"]);
    assert!(!apply_verdict(&quiet, true, &mut db, &mut pending));
    assert_eq!(db.get_int("q"), Some(1));
}
